//! Modifier extensions: a chain of sized entries in front of an enhanced audio or video body.
//!
//! Each entry is a size, that many bytes, and a trailer byte. The trailer holds the subtype of
//! the entry and the packet type that comes next, which may call for another entry.
use vstd::prelude::*;
use crate::error::{Error, Fault};
use crate::wire::{at, be16, copy_range, lemma_at_index, lemma_at_split,
    lemma_be16_at, lemma_wrote_and, push_bytes, push_u16, read_u16, read_u24, u16_at, u24_at, wrote, Emit};

verus! {

/// The subtype of an entry before an audio body.
#[derive(Clone, Copy, Debug, PartialEq, Eq, Structural)]
pub enum AudioPacketModExType {
    /// A refinement of the timestamp in nanoseconds.
    TimestampOffsetNano,
    /// Any other code.
    Reserved(u8),
}

impl AudioPacketModExType {
    /// The subtype with the code `v`.
    pub open spec fn of(v: u8) -> Self {
        if v == 0 {
            AudioPacketModExType::TimestampOffsetNano
        } else {
            AudioPacketModExType::Reserved(v)
        }
    }

    /// The code of the subtype.
    pub open spec fn code(self) -> u8 {
        match self {
            AudioPacketModExType::TimestampOffsetNano => 0,
            AudioPacketModExType::Reserved(v) => v,
        }
    }

    /// The subtype with the code `v`.
    pub fn from_u8(v: u8) -> (r: Self)
        ensures
            r == Self::of(v),
            r.code() == v,
    {
        match v {
            0 => AudioPacketModExType::TimestampOffsetNano,
            other => AudioPacketModExType::Reserved(other),
        }
    }

    /// The code of the subtype.
    pub fn raw(self) -> (r: u8)
        ensures
            r == self.code(),
    {
        match self {
            AudioPacketModExType::TimestampOffsetNano => 0,
            AudioPacketModExType::Reserved(v) => v,
        }
    }
}

/// The subtype of an entry before a video body.
#[derive(Clone, Copy, Debug, PartialEq, Eq, Structural)]
pub enum VideoPacketModExType {
    /// A refinement of the timestamp in nanoseconds.
    TimestampOffsetNano,
    /// Any other code.
    Reserved(u8),
}

impl VideoPacketModExType {
    /// The subtype with the code `v`.
    pub open spec fn of(v: u8) -> Self {
        if v == 0 {
            VideoPacketModExType::TimestampOffsetNano
        } else {
            VideoPacketModExType::Reserved(v)
        }
    }

    /// The code of the subtype.
    pub open spec fn code(self) -> u8 {
        match self {
            VideoPacketModExType::TimestampOffsetNano => 0,
            VideoPacketModExType::Reserved(v) => v,
        }
    }

    /// The subtype with the code `v`.
    pub fn from_u8(v: u8) -> (r: Self)
        ensures
            r == Self::of(v),
            r.code() == v,
    {
        match v {
            0 => VideoPacketModExType::TimestampOffsetNano,
            other => VideoPacketModExType::Reserved(other),
        }
    }

    /// The code of the subtype.
    pub fn raw(self) -> (r: u8)
        ensures
            r == self.code(),
    {
        match self {
            VideoPacketModExType::TimestampOffsetNano => 0,
            VideoPacketModExType::Reserved(v) => v,
        }
    }
}

/// What the bytes of an entry mean.
#[derive(Clone, Copy, Debug, PartialEq, Eq, Structural)]
pub enum ModExPayload {
    /// Nanoseconds to be added to the timestamp.
    TimestampOffsetNano { offset_ns: u32 },
    /// A subtype whose bytes have no known meaning.
    Reserved { subtype_raw: u8 },
}

/// One entry.
#[derive(Debug, PartialEq, Eq)]
pub struct ModExEntry {
    /// Code of the subtype.
    pub subtype_raw: u8,
    /// What the bytes mean.
    pub payload: ModExPayload,
    /// The bytes, without their size.
    pub raw: Vec<u8>,
}

/// What an entry is, apart from how it is held in memory.
#[verifier::ext_equal]
pub struct ModEx {
    pub subtype_raw: u8,
    pub payload: ModExPayload,
    pub raw: Seq<u8>,
}

impl View for ModExEntry {
    type V = ModEx;

    open spec fn view(&self) -> ModEx {
        ModEx { subtype_raw: self.subtype_raw, payload: self.payload, raw: self.raw@ }
    }
}

impl Clone for ModExEntry {
    fn clone(&self) -> (r: Self)
        ensures
            r@ == self@,
    {
        let raw = self.raw.clone();
        assert(raw@ =~= self.raw@);
        ModExEntry { subtype_raw: self.subtype_raw, payload: self.payload, raw }
    }
}

/// The entries of a run.
pub open spec fn entries_view(s: Seq<ModExEntry>) -> Seq<ModEx> {
    Seq::new(s.len(), |i: int| s[i]@)
}

impl ModEx {
    /// The nanoseconds that the entry adds.
    pub open spec fn offset(self) -> nat {
        match self.payload {
            ModExPayload::TimestampOffsetNano { offset_ns } => offset_ns as nat,
            ModExPayload::Reserved { .. } => 0,
        }
    }
}

/// The nanoseconds that all entries add.
pub open spec fn offset_sum(s: Seq<ModEx>) -> nat
    decreases s.len(),
{
    if s.len() == 0 {
        0
    } else {
        s[0].offset() + offset_sum(s.drop_first())
    }
}

/// A sum held to what 32 bits can say.
pub open spec fn saturated(n: nat) -> u32 {
    if n <= u32::MAX {
        n as u32
    } else {
        u32::MAX
    }
}

impl ModExEntry {
    /// The subtype, seen from the audio side.
    pub fn audio_subtype(&self) -> (r: AudioPacketModExType)
        ensures
            r == AudioPacketModExType::of(self.subtype_raw),
    {
        AudioPacketModExType::from_u8(self.subtype_raw)
    }

    /// The subtype, seen from the video side.
    pub fn video_subtype(&self) -> (r: VideoPacketModExType)
        ensures
            r == VideoPacketModExType::of(self.subtype_raw),
    {
        VideoPacketModExType::from_u8(self.subtype_raw)
    }

    /// The nanoseconds of a timestamp refinement.
    pub fn timestamp_offset_nano(&self) -> (r: Option<u32>)
        ensures
            r == (match self.payload {
                ModExPayload::TimestampOffsetNano { offset_ns } => Some(offset_ns),
                ModExPayload::Reserved { subtype_raw } => None::<u32>,
            }),
    {
        match self.payload {
            ModExPayload::TimestampOffsetNano { offset_ns } => Some(offset_ns),
            ModExPayload::Reserved { subtype_raw } => None,
        }
    }
}

// ---- reading --------------------------------------------------------------

/// The size in front of an entry at `pos`, and the bytes that the size itself takes: one byte
/// that holds the size less one, or, where that byte is 255, two more that do.
pub open spec fn entry_size(body: Seq<u8>, pos: int) -> Result<(int, int), Fault> {
    if pos >= body.len() {
        Err(Fault::ModExTruncatedSize)
    } else if body[pos] != 255 {
        Ok((body[pos] + 1, 1))
    } else if pos + 3 > body.len() {
        Err(Fault::ModExTruncatedLongSize)
    } else {
        Ok((u16_at(body, pos + 1) + 1, 3))
    }
}

/// What `raw` means under the subtype `subtype_raw`.
pub open spec fn meaning(subtype_raw: u8, raw: Seq<u8>) -> Result<ModExPayload, Fault> {
    if subtype_raw == 0 {
        if raw.len() < 3 {
            Err(Fault::ModExShortTimestampOffset)
        } else {
            Ok(ModExPayload::TimestampOffsetNano { offset_ns: u24_at(raw, 0) })
        }
    } else {
        Ok(ModExPayload::Reserved { subtype_raw })
    }
}

/// The entry at `pos`, the packet type that its trailer names, and where it ends.
pub open spec fn entry(body: Seq<u8>, pos: int) -> Result<(ModEx, u8, int), Fault> {
    match entry_size(body, pos) {
        Err(f) => Err(f),
        Ok((size, used)) => {
            let start = pos + used;
            if start + size > body.len() {
                Err(Fault::ModExTruncatedData)
            } else if start + size >= body.len() {
                Err(Fault::ModExTruncatedTrailer)
            } else {
                let raw = body.subrange(start, start + size);
                let trailer = body[start + size];
                match meaning(trailer / 16, raw) {
                    Err(f) => Err(f),
                    Ok(payload) => Ok(
                        (
                            ModEx { subtype_raw: trailer / 16, payload, raw },
                            trailer % 16,
                            start + size + 1,
                        ),
                    ),
                }
            }
        },
    }
}

/// The entries from `pos` on, for as long as the packet type is `mod_ex`; the packet type
/// behind them, and where they end.
pub open spec fn chain(mod_ex: u8, body: Seq<u8>, pos: int, packet_type: u8) -> Result<
    (int, u8, Seq<ModEx>),
    Fault,
>
    decreases body.len() - pos,
{
    if packet_type != mod_ex {
        Ok((pos, packet_type, Seq::empty()))
    } else {
        match entry(body, pos) {
            Err(f) => Err(f),
            Ok((e, next, p)) => match chain(mod_ex, body, p, next) {
                Err(f) => Err(f),
                Ok((q, last, rest)) => Ok((q, last, seq![e] + rest)),
            },
        }
    }
}

/// A chain ends inside the body, behind a packet type that calls for no more entries.
pub proof fn lemma_chain_advances(mod_ex: u8, body: Seq<u8>, pos: int, packet_type: u8)
    requires
        pos <= body.len(),
    ensures
        chain(mod_ex, body, pos, packet_type) matches Ok((p, last, s)) ==> pos <= p <= body.len()
            && last != mod_ex && (packet_type < 16 ==> last < 16) && (s.len() == 0 ==> p == pos && last
            == packet_type),
    decreases body.len() - pos,
{
    if packet_type == mod_ex {
        if let Ok((e, next, p)) = entry(body, pos) {
            lemma_chain_advances(mod_ex, body, p, next);
        }
    }
}

/// Reads the size of a modifier at `cursor`: the number of its bytes, and of those that the size
/// takes.
pub fn decode_size(body: &[u8], cursor: usize) -> (r: Result<(usize, usize), Error>)
    ensures
        match (r, entry_size(body@, cursor as int)) {
            (Ok((n, k)), Ok((m, j))) => n == m && k == j && cursor + k <= body@.len(),
            (Err(e), Err(f)) => e == Error::InvalidData(f),
            _ => false,
        },
{
    if cursor >= body.len() {
        return Err(Error::InvalidData(Fault::ModExTruncatedSize));
    }
    if body[cursor] != 255 {
        return Ok((body[cursor] as usize + 1, 1));
    }
    if body.len() - cursor < 3 {
        return Err(Error::InvalidData(Fault::ModExTruncatedLongSize));
    }
    Ok((read_u16(body, cursor + 1) as usize + 1, 3))
}

/// A chain of which `done` was read before the rest.
spec fn prefixed(done: Seq<ModEx>, rest: Result<(int, u8, Seq<ModEx>), Fault>) -> Result<
    (int, u8, Seq<ModEx>),
    Fault,
> {
    match rest {
        Ok((p, last, more)) => Ok((p, last, done + more)),
        Err(f) => Err(f),
    }
}

/// Reads the entries at `cursor`, for as long as the packet type is `MODEX_PACKET_TYPE`.
///
/// Returns where they end, the packet type behind them, the entries, and the sum of their
/// nanoseconds held to 32 bits.
pub fn walk<const MODEX_PACKET_TYPE: u8>(
    body: &[u8],
    cursor: usize,
    packet_type_raw: u8,
) -> (r: Result<(usize, u8, Vec<ModExEntry>, u32), Error>)
    ensures
        match (r, chain(MODEX_PACKET_TYPE, body@, cursor as int, packet_type_raw)) {
            (Ok((p, last, v, total)), Ok((q, l, s))) => p == q && last == l && entries_view(v@) == s
                && total == saturated(offset_sum(s)) && (cursor <= body@.len() ==> p <= body@.len()),
            (Err(e), Err(f)) => e == Error::InvalidData(f),
            _ => false,
        },
{
    let mut p: usize = cursor;
    let mut packet_type: u8 = packet_type_raw;
    let mut entries: Vec<ModExEntry> = Vec::new();
    let mut total: u32 = 0;
    proof {
        if let Ok((q, last, more)) = chain(MODEX_PACKET_TYPE, body@, p as int, packet_type) {
            assert(entries_view(entries@) + more =~= more);
        }
    }
    while packet_type == MODEX_PACKET_TYPE
        invariant
            cursor <= body@.len() ==> p <= body@.len(),
            total == saturated(offset_sum(entries_view(entries@))),
            chain(MODEX_PACKET_TYPE, body@, cursor as int, packet_type_raw) == prefixed(
                entries_view(entries@),
                chain(MODEX_PACKET_TYPE, body@, p as int, packet_type),
            ),
        decreases body@.len() - p,
    {
        let (size, used) = decode_size(body, p)?;
        assert(p + used <= body.len());
        let start: usize = p + used;
        if size > body.len() - start {
            return Err(Error::InvalidData(Fault::ModExTruncatedData));
        }
        let end: usize = start + size;
        let raw = copy_range(body, start, end);
        if end >= body.len() {
            return Err(Error::InvalidData(Fault::ModExTruncatedTrailer));
        }
        let trailer: u8 = body[end];
        let subtype_raw: u8 = trailer / 16;
        let payload = if subtype_raw == 0 {
            if raw.len() < 3 {
                return Err(Error::InvalidData(Fault::ModExShortTimestampOffset));
            }
            let offset_ns: u32 = read_u24(raw.as_slice(), 0);
            total = total.saturating_add(offset_ns);
            ModExPayload::TimestampOffsetNano { offset_ns }
        } else {
            ModExPayload::Reserved { subtype_raw }
        };
        let e = ModExEntry { subtype_raw, payload, raw };
        proof {
            let s = entries_view(entries@);
            assert(entries_view(entries@.push(e)) =~= s.push(e@));
            lemma_offset_push(s, e@);
            if let Ok((q, last, more)) = chain(
                MODEX_PACKET_TYPE,
                body@,
                end + 1,
                trailer % 16,
            ) {
                assert(s + (seq![e@] + more) =~= s.push(e@) + more);
            }
        }
        entries.push(e);
        p = end + 1;
        packet_type = trailer % 16;
    }
    assert(entries_view(entries@) + Seq::<ModEx>::empty() =~= entries_view(entries@));
    Ok((p, packet_type, entries, total))
}

proof fn lemma_offset_push(s: Seq<ModEx>, e: ModEx)
    ensures
        offset_sum(s.push(e)) == offset_sum(s) + e.offset(),
    decreases s.len(),
{
    if s.len() == 0 {
        assert(s.push(e).drop_first() =~= Seq::empty());
        assert(offset_sum(Seq::<ModEx>::empty()) == 0);
    } else {
        assert(s.push(e).drop_first() =~= s.drop_first().push(e));
        lemma_offset_push(s.drop_first(), e);
    }
}

// ---- writing --------------------------------------------------------------

/// The size in front of an entry of `size` bytes.
pub open spec fn emit_size(size: nat) -> Emit {
    if size == 0 || size > 65536 {
        Emit::stop(Fault::ModExBadSize)
    } else if size <= 255 {
        Emit::put(seq![(size - 1) as u8])
    } else {
        Emit::put(seq![255u8] + be16((size - 1) as u16))
    }
}

/// What is wrong with an entry, apart from its size.
pub open spec fn entry_fault(e: ModEx) -> Option<Fault> {
    if e.subtype_raw > 15 {
        Some(Fault::ModExSubtypeTooWide)
    } else {
        match e.payload {
            ModExPayload::TimestampOffsetNano { offset_ns } => if e.raw.len() < 3 {
                Some(Fault::ModExShortTimestampOffset)
            } else if offset_ns > 999_999 {
                Some(Fault::ModExOffsetTooLarge)
            } else if u24_at(e.raw, 0) != offset_ns {
                Some(Fault::ModExOffsetMismatch)
            } else if e.subtype_raw != 0 {
                Some(Fault::ModExOffsetSubtype)
            } else {
                None
            },
            ModExPayload::Reserved { .. } => if e.subtype_raw == 0 {
                Some(Fault::ModExOffsetUntyped)
            } else {
                None
            },
        }
    }
}

/// One entry whose trailer names `next`.
pub open spec fn emit_entry(e: ModEx, next: u8) -> Emit {
    match entry_fault(e) {
        Some(f) => Emit::stop(f),
        None => emit_size(e.raw.len()).and(
            Emit::put(e.raw + seq![(e.subtype_raw * 16 + next % 16) as u8]),
        ),
    }
}

/// Entries whose last trailer names `last`; the others name `mod_ex`.
pub open spec fn emit_entries(mod_ex: u8, s: Seq<ModEx>, last: u8) -> Emit
    decreases s.len(),
{
    if s.len() == 0 {
        Emit::put(Seq::empty())
    } else {
        emit_entry(
            s[0],
            if s.len() == 1 {
                last
            } else {
                mod_ex
            },
        ).and(emit_entries(mod_ex, s.drop_first(), last))
    }
}

/// A chain of entries that ends in the packet type `last`.
pub open spec fn emit_chain(mod_ex: u8, s: Seq<ModEx>, last: u8) -> Emit {
    if s.len() == 0 {
        Emit::stop(Fault::ModExNoEntries)
    } else if last > 15 {
        Emit::stop(Fault::ModExPacketTypeTooWide)
    } else if last == mod_ex {
        Emit::stop(Fault::ModExEndsInModEx)
    } else {
        emit_entries(mod_ex, s, last)
    }
}

/// Appends the size of a modifier.
pub fn encode_size(out: &mut Vec<u8>, size: usize) -> (r: Result<(), Error>)
    ensures
        wrote(old(out)@, final(out)@, r, emit_size(size as nat)),
{
    if size == 0 || size > 65536 {
        assert(out@ =~= old(out)@ + Seq::<u8>::empty());
        return Err(Error::InvalidData(Fault::ModExBadSize));
    }
    if size <= 255 {
        out.push((size - 1) as u8);
    } else {
        out.push(255);
        push_u16(out, (size - 1) as u16);
    }
    assert(out@ =~= old(out)@ + emit_size(size as nat).bytes);
    Ok(())
}

fn check_entry(entry: &ModExEntry) -> (r: Result<(), Error>)
    ensures
        r == (match entry_fault(entry@) {
            Some(f) => Err(Error::InvalidData(f)),
            None => Ok(()),
        }),
{
    if entry.subtype_raw > 15 {
        return Err(Error::InvalidData(Fault::ModExSubtypeTooWide));
    }
    if let ModExPayload::TimestampOffsetNano { offset_ns } = entry.payload {
        if entry.raw.len() < 3 {
            return Err(Error::InvalidData(Fault::ModExShortTimestampOffset));
        }
        if offset_ns > 999_999 {
            return Err(Error::InvalidData(Fault::ModExOffsetTooLarge));
        }
        if read_u24(entry.raw.as_slice(), 0) != offset_ns {
            return Err(Error::InvalidData(Fault::ModExOffsetMismatch));
        }
        if entry.subtype_raw != 0 {
            return Err(Error::InvalidData(Fault::ModExOffsetSubtype));
        }
    } else if entry.subtype_raw == 0 {
        return Err(Error::InvalidData(Fault::ModExOffsetUntyped));
    }
    Ok(())
}

fn write_entry(out: &mut Vec<u8>, entry: &ModExEntry, next: u8) -> (r: Result<(), Error>)
    ensures
        wrote(old(out)@, final(out)@, r, emit_entry(entry@, next)),
{
    let checked = check_entry(entry);
    if checked.is_err() {
        assert(out@ =~= old(out)@ + Seq::<u8>::empty());
        return checked;
    }
    encode_size(out, entry.raw.len())?;
    let ghost b = out@;
    push_bytes(out, entry.raw.as_slice());
    out.push(entry.subtype_raw * 16 + next % 16);
    proof {
        let tail = entry.raw@ + seq![(entry.subtype_raw * 16 + next % 16) as u8];
        assert(out@ =~= b + tail);
        lemma_wrote_and(
            old(out)@,
            b,
            out@,
            Ok(()),
            Ok(()),
            emit_size(entry.raw@.len()),
            Emit::put(tail),
        );
    }
    Ok(())
}

/// Appends a chain of entries behind which the packet type is `final_packet_type`.
///
/// Where an entry cannot be written, the entries before it stay in `out`.
pub fn emit<const MODEX_PACKET_TYPE: u8>(
    out: &mut Vec<u8>,
    entries: &[ModExEntry],
    final_packet_type: u8,
) -> (r: Result<(), Error>)
    ensures
        wrote(
            old(out)@,
            final(out)@,
            r,
            emit_chain(MODEX_PACKET_TYPE, entries_view(entries@), final_packet_type),
        ),
{
    if entries.len() == 0 {
        assert(out@ =~= old(out)@ + Seq::<u8>::empty());
        return Err(Error::InvalidData(Fault::ModExNoEntries));
    }
    if final_packet_type > 15 {
        assert(out@ =~= old(out)@ + Seq::<u8>::empty());
        return Err(Error::InvalidData(Fault::ModExPacketTypeTooWide));
    }
    if final_packet_type == MODEX_PACKET_TYPE {
        assert(out@ =~= old(out)@ + Seq::<u8>::empty());
        return Err(Error::InvalidData(Fault::ModExEndsInModEx));
    }
    let ghost all = entries_view(entries@);
    let ghost mut done = Emit::put(Seq::empty());
    let mut i: usize = 0;
    proof {
        assert(all.skip(0) =~= all);
        let whole = emit_entries(MODEX_PACKET_TYPE, all, final_packet_type);
        assert(done.and(whole) =~= whole);
        assert(out@ =~= out@ + Seq::<u8>::empty());
    }
    while i < entries.len()
        invariant
            i <= entries.len(),
            all == entries_view(entries@),
            wrote(old(out)@, out@, Ok(()), done),
            emit_entries(MODEX_PACKET_TYPE, all, final_packet_type) == done.and(
                emit_entries(MODEX_PACKET_TYPE, all.skip(i as int), final_packet_type),
            ),
            emit_chain(MODEX_PACKET_TYPE, all, final_packet_type) == emit_entries(
                MODEX_PACKET_TYPE,
                all,
                final_packet_type,
            ),
        decreases entries.len() - i,
    {
        let next: u8 = if i == entries.len() - 1 {
            final_packet_type
        } else {
            MODEX_PACKET_TYPE
        };
        let ghost rest = all.skip(i as int);
        let ghost head = emit_entry(rest[0], next);
        let ghost b = out@;
        assert(rest[0] == entries@[i as int]@);
        let r = write_entry(out, &entries[i], next);
        proof {
            lemma_wrote_and(old(out)@, b, out@, Ok(()), r, done, head);
            assert(rest.drop_first() =~= all.skip(i + 1));
            let more = emit_entries(MODEX_PACKET_TYPE, all.skip(i + 1), final_packet_type);
            assert(done.and(head.and(more)) =~= done.and(head).and(more));
        }
        r?;
        proof {
            done = done.and(head);
        }
        i += 1;
    }
    assert(done.and(emit_entries(MODEX_PACKET_TYPE, all.skip(i as int), final_packet_type))
        =~= done);
    Ok(())
}

// ---- reading what was written ---------------------------------------------

/// The meaning of an entry is what its subtype and bytes say.
pub open spec fn consistent(e: ModEx) -> bool {
    meaning(e.subtype_raw, e.raw) == Ok::<ModExPayload, Fault>(e.payload)
}

/// A written size reads back.
proof fn lemma_size_back(body: Seq<u8>, pos: int, size: nat)
    requires
        0 < size <= 65536,
        at(body, pos, emit_size(size).bytes),
    ensures
        entry_size(body, pos) == Ok::<(int, int), Fault>(
            (size as int, emit_size(size).bytes.len() as int),
        ),
{
    let b = emit_size(size).bytes;
    lemma_at_index(body, pos, b, 0);
    if size > 255 {
        lemma_at_split(body, pos, seq![255u8], be16((size - 1) as u16));
        lemma_be16_at(body, pos + 1, (size - 1) as u16);
    }
}

/// A written entry reads back.
proof fn lemma_entry_back(body: Seq<u8>, pos: int, e: ModEx, next: u8)
    requires
        next < 16,
        consistent(e),
        emit_entry(e, next).fault is None,
        at(body, pos, emit_entry(e, next).bytes),
    ensures
        entry(body, pos) == Ok::<(ModEx, u8, int), Fault>(
            (e, next, pos + emit_entry(e, next).bytes.len()),
        ),
{
    let size = emit_size(e.raw.len()).bytes;
    let trailer = (e.subtype_raw * 16 + next % 16) as u8;
    let tail = e.raw + seq![trailer];
    lemma_at_split(body, pos, size, tail);
    lemma_at_split(body, pos + size.len(), e.raw, seq![trailer]);
    lemma_at_index(body, pos + size.len() + e.raw.len(), seq![trailer], 0);
    lemma_size_back(body, pos, e.raw.len());
    assert(trailer / 16 == e.subtype_raw && trailer % 16 == next);
}

/// Reading a chain that was written gives back its entries, the packet type behind them, and
/// the place where writing stopped.
pub proof fn law_walk_emit(mod_ex: u8, body: Seq<u8>, pos: int, s: Seq<ModEx>, last: u8)
    requires
        mod_ex < 16,
        emit_chain(mod_ex, s, last).fault is None,
        forall|i: int| 0 <= i < s.len() ==> consistent(#[trigger] s[i]),
        at(body, pos, emit_chain(mod_ex, s, last).bytes),
    ensures
        chain(mod_ex, body, pos, mod_ex) == Ok::<(int, u8, Seq<ModEx>), Fault>(
            (pos + emit_chain(mod_ex, s, last).bytes.len(), last, s),
        ),
{
    lemma_entries_back(mod_ex, body, pos, s, last);
}

proof fn lemma_entries_back(mod_ex: u8, body: Seq<u8>, pos: int, s: Seq<ModEx>, last: u8)
    requires
        mod_ex < 16,
        last < 16,
        last != mod_ex,
        emit_entries(mod_ex, s, last).fault is None,
        forall|i: int| 0 <= i < s.len() ==> consistent(#[trigger] s[i]),
        at(body, pos, emit_entries(mod_ex, s, last).bytes),
    ensures
        chain(
            mod_ex,
            body,
            pos,
            if s.len() == 0 {
                last
            } else {
                mod_ex
            },
        ) == Ok::<(int, u8, Seq<ModEx>), Fault>(
            (pos + emit_entries(mod_ex, s, last).bytes.len(), last, s),
        ),
    decreases s.len(),
{
    if s.len() == 0 {
        assert(s =~= Seq::empty());
    } else {
        let next = if s.len() == 1 {
            last
        } else {
            mod_ex
        };
        let head = emit_entry(s[0], next).bytes;
        let rest = s.drop_first();
        lemma_at_split(body, pos, head, emit_entries(mod_ex, rest, last).bytes);
        assert(consistent(s[0]));
        lemma_entry_back(body, pos, s[0], next);
        assert forall|i: int| 0 <= i < rest.len() implies consistent(#[trigger] rest[i]) by {
            assert(rest[i] == s[i + 1]);
        }
        lemma_entries_back(mod_ex, body, pos + head.len(), rest, last);
        assert(seq![s[0]] + rest =~= s);
    }
}

/// Entries that were read hold what their bytes mean, under a subtype of four bits, and their
/// bytes are as many as a size can say.
pub proof fn law_walk_is_consistent(mod_ex: u8, body: Seq<u8>, pos: int, packet_type: u8)
    requires
        0 <= pos <= body.len(),
    ensures
        chain(mod_ex, body, pos, packet_type) matches Ok((p, last, s)) ==> forall|i: int|
            0 <= i < s.len() ==> consistent(#[trigger] s[i]) && s[i].subtype_raw < 16 && 0
                < s[i].raw.len() <= 65536,
    decreases body.len() - pos,
{
    if packet_type == mod_ex {
        if let Ok((e, next, p)) = entry(body, pos) {
            law_walk_is_consistent(mod_ex, body, p, next);
            if let Ok((q, last, rest)) = chain(mod_ex, body, p, next) {
                let s = seq![e] + rest;
                assert forall|i: int| 0 <= i < s.len() implies consistent(#[trigger] s[i])
                    && s[i].subtype_raw < 16 && 0 < s[i].raw.len() <= 65536 by {
                    if i > 0 {
                        assert(s[i] == rest[i - 1]);
                    }
                }
            }
        }
    }
}

/// Entries that were read can be written again unless one holds a million nanoseconds or more.
pub proof fn law_read_entries_are_writable(mod_ex: u8, body: Seq<u8>, pos: int, packet_type: u8, next: u8)
    requires
        0 <= pos <= body.len(),
        next < 16,
        next != mod_ex,
    ensures
        chain(mod_ex, body, pos, packet_type) matches Ok((p, last, s)) ==> s.len() > 0 ==> ((
        forall|i: int| 0 <= i < s.len() ==> (#[trigger] s[i]).offset() <= 999_999) <==> emit_chain(
            mod_ex,
            s,
            next,
        ).fault is None),
{
    law_walk_is_consistent(mod_ex, body, pos, packet_type);
    if let Ok((p, last, s)) = chain(mod_ex, body, pos, packet_type) {
        lemma_writable(mod_ex, s, next);
    }
}

proof fn lemma_writable(mod_ex: u8, s: Seq<ModEx>, next: u8)
    requires
        forall|i: int|
            0 <= i < s.len() ==> consistent(#[trigger] s[i]) && s[i].subtype_raw < 16 && 0
                < s[i].raw.len() <= 65536,
    ensures
        (forall|i: int| 0 <= i < s.len() ==> (#[trigger] s[i]).offset() <= 999_999)
            <==> emit_entries(mod_ex, s, next).fault is None,
    decreases s.len(),
{
    if s.len() > 0 {
        let rest = s.drop_first();
        assert forall|i: int| 0 <= i < rest.len() implies consistent(#[trigger] rest[i])
            && rest[i].subtype_raw < 16 && 0 < rest[i].raw.len() <= 65536 by {
            assert(rest[i] == s[i + 1]);
        }
        lemma_writable(mod_ex, rest, next);
        assert(consistent(s[0]));
        if forall|i: int| 0 <= i < s.len() ==> (#[trigger] s[i]).offset() <= 999_999 {
            assert forall|i: int| 0 <= i < rest.len() implies (#[trigger] rest[i]).offset()
                <= 999_999 by {
                assert(rest[i] == s[i + 1]);
            }
        }
        if emit_entries(mod_ex, s, next).fault is None {
            assert forall|i: int| 0 <= i < s.len() implies (#[trigger] s[i]).offset()
                <= 999_999 by {
                if i > 0 {
                    assert(s[i] == rest[i - 1]);
                }
            }
        }
    }
}

} // verus!
