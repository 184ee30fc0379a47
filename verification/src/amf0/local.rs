//! What AMF0 values depend on: the bytes that they take, and nothing in front or behind.
use vstd::prelude::*;
use crate::amf0::decode::{avm_plus, body, items, lemma_body_advances, lemma_items_advance,
    lemma_value_advances, long_text, short_text, utf8_run, value};
use crate::amf0::AmfTree;
use crate::amf3::decode::{lemma_value_advances as lemma_amf3_advances, Tables};
use crate::amf3::local::lemma_value_local as lemma_amf3_local;
use crate::error::Fault;
use crate::wire::{alike, at, lemma_alike_run, lemma_alike_u64, lemma_at_alike, u16_at, u32_at};

verus! {

/// What was read from alike bytes, told by where it ended in the first input.
pub open spec fn shifted<T>(r: Result<(T, int), Fault>, shift: int) -> Result<(T, int), Fault> {
    match r {
        Ok((v, p)) => Ok((v, p + shift)),
        Err(f) => Err(f),
    }
}

/// Something was read, and it ended at `hi` or before.
pub open spec fn ends_by<T>(r: Result<(T, int), Fault>, hi: int) -> bool {
    r matches Ok((v, p)) && p <= hi
}

proof fn lemma_u16_local(a: Seq<u8>, b: Seq<u8>, shift: int, pos: int, hi: int)
    requires
        alike(a, b, shift, pos, hi),
        pos + 2 <= hi,
    ensures
        u16_at(a, pos) == u16_at(b, pos + shift),
{
    assert(a[pos] == b[pos + shift]);
    assert(a[pos + 1] == b[pos + 1 + shift]);
}

proof fn lemma_u32_local(a: Seq<u8>, b: Seq<u8>, shift: int, pos: int, hi: int)
    requires
        alike(a, b, shift, pos, hi),
        pos + 4 <= hi,
    ensures
        u32_at(a, pos) == u32_at(b, pos + shift),
{
    lemma_u16_local(a, b, shift, pos, hi);
    lemma_u16_local(a, b, shift, pos + 2, hi);
}

proof fn lemma_utf8_local(a: Seq<u8>, b: Seq<u8>, shift: int, pos: int, len: int, hi: int)
    requires
        alike(a, b, shift, pos, hi),
        0 <= len,
        ends_by(utf8_run(a, pos, len), hi),
    ensures
        utf8_run(b, pos + shift, len) == shifted(utf8_run(a, pos, len), shift),
{
    lemma_alike_run(a, b, shift, pos, pos + len);
}

proof fn lemma_short_text_local(a: Seq<u8>, b: Seq<u8>, shift: int, pos: int, hi: int)
    requires
        alike(a, b, shift, pos, hi),
        ends_by(short_text(a, pos), hi),
    ensures
        short_text(b, pos + shift) == shifted(short_text(a, pos), shift),
{
    lemma_u16_local(a, b, shift, pos, hi);
    lemma_utf8_local(a, b, shift, pos + 2, u16_at(a, pos) as int, hi);
}

proof fn lemma_long_text_local(a: Seq<u8>, b: Seq<u8>, shift: int, pos: int, hi: int)
    requires
        alike(a, b, shift, pos, hi),
        ends_by(long_text(a, pos), hi),
    ensures
        long_text(b, pos + shift) == shifted(long_text(a, pos), shift),
{
    lemma_u32_local(a, b, shift, pos, hi);
    lemma_utf8_local(a, b, shift, pos + 4, u32_at(a, pos) as int, hi);
}

proof fn lemma_avm_plus_local(a: Seq<u8>, b: Seq<u8>, shift: int, pos: int, hi: int)
    requires
        alike(a, b, shift, pos, hi),
        ends_by(avm_plus(a, pos), hi),
    ensures
        avm_plus(b, pos + shift) == shifted(avm_plus(a, pos), shift),
{
    reveal(avm_plus);
    lemma_amf3_advances(a, pos, Tables::empty());
    lemma_amf3_local(a, b, shift, pos, Tables::empty(), hi);
}

/// Alike bytes hold the same value, and it ends at the same place of them.
#[verifier::rlimit(30)]
proof fn lemma_value_local(a: Seq<u8>, b: Seq<u8>, shift: int, pos: int, hi: int)
    requires
        alike(a, b, shift, pos, hi),
        ends_by(value(a, pos), hi),
    ensures
        value(b, pos + shift) == shifted(value(a, pos), shift),
    decreases a.len() - pos, 0int,
{
    lemma_value_advances(a, pos);
    let marker = a[pos];
    let p = pos + 1;
    assert(marker == b[pos + shift]);
    if marker == 0x00 {
        lemma_alike_u64(a, b, shift, p, hi);
    } else if marker == 0x01 {
        assert(a[p] == b[p + shift]);
    } else if marker == 0x02 {
        lemma_short_text_local(a, b, shift, p, hi);
    } else if marker == 0x03 {
        lemma_body_local(a, b, shift, p, hi);
    } else if marker == 0x07 {
        lemma_u16_local(a, b, shift, p, hi);
    } else if marker == 0x08 {
        lemma_body_advances(a, p + 4);
        lemma_body_local(a, b, shift, p + 4, hi);
    } else if marker == 0x0A {
        lemma_items_advance(a, p + 4, u32_at(a, p) as int);
        lemma_u32_local(a, b, shift, p, hi);
        lemma_items_local(a, b, shift, p + 4, u32_at(a, p) as int, hi);
    } else if marker == 0x0B {
        lemma_alike_u64(a, b, shift, p, hi);
        lemma_u16_local(a, b, shift, p + 8, hi);
    } else if marker == 0x0C || marker == 0x0F {
        lemma_long_text_local(a, b, shift, p, hi);
    } else if marker == 0x10 {
        let (class_name, q) = short_text(a, p)->Ok_0;
        lemma_body_advances(a, q);
        lemma_short_text_local(a, b, shift, p, hi);
        lemma_body_local(a, b, shift, q, hi);
    } else if marker == 0x11 {
        lemma_avm_plus_local(a, b, shift, p, hi);
    }
}

proof fn lemma_body_local(a: Seq<u8>, b: Seq<u8>, shift: int, pos: int, hi: int)
    requires
        alike(a, b, shift, pos, hi),
        ends_by(body(a, pos), hi),
    ensures
        body(b, pos + shift) == shifted(body(a, pos), shift),
    decreases a.len() - pos, 1int,
{
    if u16_at(a, pos) == 0 && a[pos + 2] == 0x09 {
        lemma_u16_local(a, b, shift, pos, hi);
        assert(a[pos + 2] == b[pos + 2 + shift]);
    } else {
        let len = u16_at(a, pos) as int;
        let (key, p) = utf8_run(a, pos + 2, len)->Ok_0;
        lemma_value_advances(a, p);
        let (v, q) = value(a, p)->Ok_0;
        lemma_body_advances(a, q);
        lemma_u16_local(a, b, shift, pos, hi);
        assert(a[pos + 2] == b[pos + 2 + shift]);
        lemma_utf8_local(a, b, shift, pos + 2, len, hi);
        lemma_value_local(a, b, shift, p, hi);
        lemma_body_local(a, b, shift, q, hi);
    }
}

proof fn lemma_items_local(a: Seq<u8>, b: Seq<u8>, shift: int, pos: int, count: int, hi: int)
    requires
        alike(a, b, shift, pos, hi),
        ends_by(items(a, pos, count), hi),
    ensures
        items(b, pos + shift, count) == shifted(items(a, pos, count), shift),
    decreases a.len() - pos, 1int,
{
    if count > 0 {
        lemma_value_advances(a, pos);
        let (v, p) = value(a, pos)->Ok_0;
        lemma_items_advance(a, p, count - 1);
        lemma_value_local(a, b, shift, pos, hi);
        lemma_items_local(a, b, shift, p, count - 1, hi);
    }
}

/// A value and its length depend only on the bytes that it takes: wherever the same bytes stand,
/// they hold the same value.
pub proof fn law_value_is_local(a: Seq<u8>, pos: int, b: Seq<u8>, q: int)
    requires
        value(a, pos) matches Ok((v, end)) && at(b, q, a.subrange(pos, end)),
    ensures
        ({
            let (v, end) = value(a, pos)->Ok_0;
            &&& pos < end <= a.len()
            &&& value(b, q) == Ok::<(AmfTree, int), Fault>((v, q + (end - pos)))
        }),
{
    let (v, end) = value(a, pos)->Ok_0;
    lemma_value_advances(a, pos);
    lemma_at_alike(a, pos, end, b, q);
    lemma_value_local(a, b, q - pos, pos, end);
}

/// The bytes of a value, behind any bytes and in front of any others, read as the same value.
pub proof fn law_value_between(before: Seq<u8>, data: Seq<u8>, pos: int, behind: Seq<u8>)
    requires
        value(data, pos) is Ok,
    ensures
        ({
            let (v, end) = value(data, pos)->Ok_0;
            &&& pos < end <= data.len()
            &&& value(before + data.subrange(pos, end) + behind, before.len() as int) == Ok::<
                (AmfTree, int),
                Fault,
            >((v, before.len() + (end - pos)))
        }),
{
    let (v, end) = value(data, pos)->Ok_0;
    lemma_value_advances(data, pos);
    let run = data.subrange(pos, end);
    let all = before + run + behind;
    assert(all.subrange(before.len() as int, (before.len() + run.len()) as int) =~= run);
    law_value_is_local(data, pos, all, before.len() as int);
}

} // verus!
