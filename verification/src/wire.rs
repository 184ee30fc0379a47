//! Big-endian integers, byte runs inside a buffer, and what a writer appends.
use vstd::prelude::*;
use vstd::slice::slice_subrange;
use crate::error::{Error, Fault};

verus! {

// ---- byte runs ------------------------------------------------------------

/// `bytes` stands in `data` at offset `pos`.
pub open spec fn at(data: Seq<u8>, pos: int, bytes: Seq<u8>) -> bool {
    &&& 0 <= pos
    &&& pos + bytes.len() <= data.len()
    &&& data.subrange(pos, pos + bytes.len()) == bytes
}

/// The bytes of `b` from `lo + shift` on are those of `a` from `lo` to `hi`.
pub open spec fn alike(a: Seq<u8>, b: Seq<u8>, shift: int, lo: int, hi: int) -> bool {
    &&& 0 <= lo <= hi <= a.len()
    &&& 0 <= lo + shift
    &&& hi + shift <= b.len()
    &&& forall|i: int| lo <= i < hi ==> #[trigger] a[i] == b[i + shift]
}

/// Bytes that are there are those of any other input that holds them.
pub proof fn lemma_at_alike(a: Seq<u8>, lo: int, hi: int, b: Seq<u8>, pos: int)
    requires
        0 <= lo <= hi <= a.len(),
        at(b, pos, a.subrange(lo, hi)),
    ensures
        alike(a, b, pos - lo, lo, hi),
{
    let run = a.subrange(lo, hi);
    assert forall|i: int| lo <= i < hi implies #[trigger] a[i] == b[i + (pos - lo)] by {
        lemma_at_index(b, pos, run, i - lo);
        assert(run[i - lo] == a[i]);
    }
}

/// Parts of alike bytes are the same.
pub proof fn lemma_alike_run(a: Seq<u8>, b: Seq<u8>, shift: int, lo: int, hi: int)
    requires
        alike(a, b, shift, lo, hi),
    ensures
        a.subrange(lo, hi) == b.subrange(lo + shift, hi + shift),
{
    assert(a.subrange(lo, hi) =~= b.subrange(lo + shift, hi + shift));
}

/// A run of two parts is there exactly when both parts are, one behind the other.
pub proof fn lemma_at_split(data: Seq<u8>, pos: int, a: Seq<u8>, b: Seq<u8>)
    ensures
        at(data, pos, a + b) <==> at(data, pos, a) && at(data, pos + a.len(), b),
{
    if at(data, pos, a + b) {
        let run = data.subrange(pos, pos + (a + b).len());
        assert(run.subrange(0, a.len() as int) =~= a);
        assert(run.subrange(a.len() as int, run.len() as int) =~= b);
        assert(data.subrange(pos, pos + a.len()) =~= a);
        assert(data.subrange(pos + a.len(), pos + a.len() + b.len()) =~= b);
    }
    if at(data, pos, a) && at(data, pos + a.len(), b) {
        let run = data.subrange(pos, pos + (a + b).len());
        assert forall|i: int| 0 <= i < run.len() implies run[i] == (a + b)[i] by {
            if i < a.len() {
                assert(data.subrange(pos, pos + a.len())[i] == a[i]);
            } else {
                assert(data.subrange(pos + a.len(), pos + a.len() + b.len())[i - a.len()]
                    == b[i - a.len()]);
            }
        }
        assert(run =~= a + b);
    }
}

/// The bytes of a run, one by one.
pub proof fn lemma_at_index(data: Seq<u8>, pos: int, a: Seq<u8>, i: int)
    requires
        at(data, pos, a),
        0 <= i < a.len(),
    ensures
        data[pos + i] == a[i],
{
    assert(data.subrange(pos, pos + a.len())[i] == a[i]);
}

/// What was appended stands behind what was there before.
pub proof fn lemma_at_tail(a: Seq<u8>, b: Seq<u8>)
    ensures
        at(a + b, a.len() as int, b),
{
    assert((a + b).subrange(a.len() as int, (a.len() + b.len()) as int) =~= b);
}

/// What was there first stands at the start.
pub proof fn lemma_at_head(a: Seq<u8>, b: Seq<u8>)
    ensures
        at(a + b, 0, a),
{
    assert((a + b).subrange(0, a.len() as int) =~= a);
}

/// A run stays where it is when more bytes follow.
pub proof fn lemma_at_extend(data: Seq<u8>, pos: int, a: Seq<u8>, more: Seq<u8>)
    requires
        at(data, pos, a),
    ensures
        at(data + more, pos, a),
{
    assert((data + more).subrange(pos, pos + a.len()) =~= data.subrange(pos, pos + a.len()));
}

// ---- integers -------------------------------------------------------------

/// Two bytes, most significant first.
pub open spec fn be16(x: u16) -> Seq<u8> {
    seq![(x / 256) as u8, (x % 256) as u8]
}

/// The low 24 bits of `x` in three bytes, most significant first.
pub open spec fn be24(x: u32) -> Seq<u8> {
    seq![(x / 65536 % 256) as u8, (x / 256 % 256) as u8, (x % 256) as u8]
}

/// Four bytes, most significant first.
pub open spec fn be32(x: u32) -> Seq<u8> {
    be16((x / 65536) as u16) + be16((x % 65536) as u16)
}

/// Eight bytes, most significant first.
#[verifier::opaque]
pub open spec fn be64(x: u64) -> Seq<u8> {
    be32((x / 0x1_0000_0000) as u32) + be32((x % 0x1_0000_0000) as u32)
}

/// The two bytes at `pos` as a number.
pub open spec fn u16_at(data: Seq<u8>, pos: int) -> u16 {
    (data[pos] * 256 + data[pos + 1]) as u16
}

/// The three bytes at `pos` as a number.
pub open spec fn u24_at(data: Seq<u8>, pos: int) -> u32 {
    (data[pos] * 65536 + data[pos + 1] * 256 + data[pos + 2]) as u32
}

/// The four bytes at `pos` as a number.
pub open spec fn u32_at(data: Seq<u8>, pos: int) -> u32 {
    (u16_at(data, pos) * 65536 + u16_at(data, pos + 2)) as u32
}

/// The eight bytes at `pos` as a number.
#[verifier::opaque]
pub open spec fn u64_at(data: Seq<u8>, pos: int) -> u64 {
    (u32_at(data, pos) * 0x1_0000_0000 + u32_at(data, pos + 4)) as u64
}

/// Eight alike bytes are the same number.
pub proof fn lemma_alike_u64(a: Seq<u8>, b: Seq<u8>, shift: int, lo: int, hi: int)
    requires
        alike(a, b, shift, lo, hi),
        lo + 8 <= hi,
    ensures
        u64_at(a, lo) == u64_at(b, lo + shift),
{
    reveal(u64_at);
}

/// Reading two bytes gives back what was written.
pub proof fn lemma_be16_at(data: Seq<u8>, pos: int, x: u16)
    requires
        at(data, pos, be16(x)),
    ensures
        u16_at(data, pos) == x,
{
    lemma_at_index(data, pos, be16(x), 0);
    lemma_at_index(data, pos, be16(x), 1);
}

/// Reading three bytes gives back the low 24 bits of what was written.
pub proof fn lemma_be24_at(data: Seq<u8>, pos: int, x: u32)
    requires
        at(data, pos, be24(x)),
    ensures
        u24_at(data, pos) == x % 0x100_0000,
{
    lemma_at_index(data, pos, be24(x), 0);
    lemma_at_index(data, pos, be24(x), 1);
    lemma_at_index(data, pos, be24(x), 2);
}

/// Reading four bytes gives back what was written.
pub proof fn lemma_be32_at(data: Seq<u8>, pos: int, x: u32)
    requires
        at(data, pos, be32(x)),
    ensures
        u32_at(data, pos) == x,
{
    let hi = (x / 65536) as u16;
    let lo = (x % 65536) as u16;
    lemma_at_split(data, pos, be16(hi), be16(lo));
    lemma_be16_at(data, pos, hi);
    lemma_be16_at(data, pos + 2, lo);
}

/// Reading eight bytes gives back what was written.
pub proof fn lemma_be64_at(data: Seq<u8>, pos: int, x: u64)
    requires
        at(data, pos, be64(x)),
    ensures
        u64_at(data, pos) == x,
{
    reveal(be64);
    reveal(u64_at);
    let hi = (x / 0x1_0000_0000) as u32;
    let lo = (x % 0x1_0000_0000) as u32;
    lemma_at_split(data, pos, be32(hi), be32(lo));
    lemma_be32_at(data, pos, hi);
    lemma_be32_at(data, pos + 4, lo);
}

pub broadcast proof fn lemma_be64_len(x: u64)
    ensures
        #[trigger] be64(x).len() == 8,
{
    reveal(be64);
}

/// Every two bytes are the encoding of the number they stand for.
pub proof fn lemma_u16_at(data: Seq<u8>, pos: int)
    requires
        0 <= pos,
        pos + 2 <= data.len(),
    ensures
        at(data, pos, be16(u16_at(data, pos))),
{
    assert(data.subrange(pos, pos + 2) =~= be16(u16_at(data, pos)));
}

/// Every three bytes are the encoding of the number they stand for.
pub proof fn lemma_u24_at(data: Seq<u8>, pos: int)
    requires
        0 <= pos,
        pos + 3 <= data.len(),
    ensures
        at(data, pos, be24(u24_at(data, pos))),
        u24_at(data, pos) < 0x100_0000,
{
    assert(data.subrange(pos, pos + 3) =~= be24(u24_at(data, pos)));
}

/// Every four bytes are the encoding of the number they stand for.
pub proof fn lemma_u32_at(data: Seq<u8>, pos: int)
    requires
        0 <= pos,
        pos + 4 <= data.len(),
    ensures
        at(data, pos, be32(u32_at(data, pos))),
{
    lemma_u16_at(data, pos);
    lemma_u16_at(data, pos + 2);
    lemma_at_split(data, pos, be16(u16_at(data, pos)), be16(u16_at(data, pos + 2)));
}

pub(crate) fn read_u16(data: &[u8], pos: usize) -> (x: u16)
    requires
        pos + 2 <= data@.len(),
    ensures
        x == u16_at(data@, pos as int),
{
    data[pos] as u16 * 256 + data[pos + 1] as u16
}

pub(crate) fn read_u24(data: &[u8], pos: usize) -> (x: u32)
    requires
        pos + 3 <= data@.len(),
    ensures
        x == u24_at(data@, pos as int),
        x < 0x100_0000,
{
    data[pos] as u32 * 65536 + data[pos + 1] as u32 * 256 + data[pos + 2] as u32
}

pub(crate) fn read_u32(data: &[u8], pos: usize) -> (x: u32)
    requires
        pos + 4 <= data@.len(),
    ensures
        x == u32_at(data@, pos as int),
{
    assert(pos + 4 <= data.len());
    read_u16(data, pos) as u32 * 65536 + read_u16(data, pos + 2) as u32
}

pub(crate) fn read_u64(data: &[u8], pos: usize) -> (x: u64)
    requires
        pos + 8 <= data@.len(),
    ensures
        x == u64_at(data@, pos as int),
{
    proof {
        reveal(u64_at);
    }
    assert(pos + 8 <= data.len());
    read_u32(data, pos) as u64 * 0x1_0000_0000 + read_u32(data, pos + 4) as u64
}

pub(crate) fn push_u16(out: &mut Vec<u8>, x: u16)
    ensures
        final(out)@ == old(out)@ + be16(x),
{
    out.push((x / 256) as u8);
    out.push((x % 256) as u8);
    assert(out@ =~= old(out)@ + be16(x));
}

pub(crate) fn push_u24(out: &mut Vec<u8>, x: u32)
    ensures
        final(out)@ == old(out)@ + be24(x),
{
    out.push((x / 65536 % 256) as u8);
    out.push((x / 256 % 256) as u8);
    out.push((x % 256) as u8);
    assert(out@ =~= old(out)@ + be24(x));
}

pub(crate) fn push_u32(out: &mut Vec<u8>, x: u32)
    ensures
        final(out)@ == old(out)@ + be32(x),
{
    push_u16(out, (x / 65536) as u16);
    push_u16(out, (x % 65536) as u16);
    assert(out@ =~= old(out)@ + be32(x));
}

pub(crate) fn push_u64(out: &mut Vec<u8>, x: u64)
    ensures
        final(out)@ == old(out)@ + be64(x),
{
    push_u32(out, (x / 0x1_0000_0000) as u32);
    push_u32(out, (x % 0x1_0000_0000) as u32);
    proof {
        reveal(be64);
    }
    assert(out@ =~= old(out)@ + be64(x));
}

pub(crate) fn push_bytes(out: &mut Vec<u8>, bytes: &[u8])
    ensures
        final(out)@ == old(out)@ + bytes@,
{
    out.extend_from_slice(bytes);
    assert(out@ =~= old(out)@ + bytes@);
}

/// The bytes of `data` from `from` up to `to`, as a vector of its own.
pub(crate) fn copy_range(data: &[u8], from: usize, to: usize) -> (out: Vec<u8>)
    requires
        from <= to <= data@.len(),
    ensures
        out@ == data@.subrange(from as int, to as int),
{
    vstd::slice::slice_to_vec(slice_subrange(data, from, to))
}

// ---- writers --------------------------------------------------------------

/// What a writer does: the bytes it appends, and the fault that stops it, if one does.
#[verifier::ext_equal]
pub struct Emit {
    pub bytes: Seq<u8>,
    pub fault: Option<Fault>,
}

impl Emit {
    /// Appends `bytes`.
    pub open spec fn put(bytes: Seq<u8>) -> Emit {
        Emit { bytes, fault: None }
    }

    /// Appends nothing and stops.
    pub open spec fn stop(fault: Fault) -> Emit {
        Emit { bytes: Seq::empty(), fault: Some(fault) }
    }

    /// This, and `next` behind it unless this stopped.
    pub open spec fn and(self, next: Emit) -> Emit {
        if self.fault is Some {
            self
        } else {
            Emit { bytes: self.bytes + next.bytes, fault: next.fault }
        }
    }

    /// Appends nothing at all if it stops anywhere.
    pub open spec fn whole(self) -> Emit {
        match self.fault {
            Some(f) => Emit::stop(f),
            None => self,
        }
    }
}

/// The result that reports `fault`.
pub open spec fn outcome(fault: Option<Fault>) -> Result<(), Error> {
    match fault {
        Some(f) => Err(Error::InvalidData(f)),
        None => Ok(()),
    }
}

/// A buffer went from `before` to `after`, and `r` was reported, as `e` says.
pub open spec fn wrote(before: Seq<u8>, after: Seq<u8>, r: Result<(), Error>, e: Emit) -> bool {
    &&& after == before + e.bytes
    &&& r == outcome(e.fault)
}

/// One write behind another is the write of both.
pub broadcast proof fn lemma_wrote_and(
    a: Seq<u8>,
    b: Seq<u8>,
    c: Seq<u8>,
    r: Result<(), Error>,
    s: Result<(), Error>,
    e: Emit,
    f: Emit,
)
    requires
        #[trigger] wrote(a, b, r, e),
        r is Ok,
        #[trigger] wrote(b, c, s, f),
    ensures
        wrote(a, c, s, e.and(f)),
{
    assert(c =~= a + e.and(f).bytes);
}

} // verus!
