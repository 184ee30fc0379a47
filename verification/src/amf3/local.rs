//! What AMF3 values depend on: the bytes that they take, and nothing in front or behind.
use vstd::prelude::*;
use crate::amf3::decode::{array, bare_object, byte_array, date, items, lemma_array_advances,
    lemma_items_advance, lemma_object_advances, lemma_pairs_advance, lemma_text_advances,
    lemma_texts_advance, lemma_traits_advance, lemma_u29_bounds, lemma_value_advances, message,
    object, pairs, text, texts, traits, u29, utf8_run, value, xml, Tables};
use crate::amf3::Amf3Tree;
use crate::error::Fault;
use crate::wire::{alike, at, lemma_alike_run, lemma_alike_u64, lemma_at_alike};

verus! {

/// What was read from alike bytes, told by where it ended in the first input.
pub open spec fn shifted<T>(r: Result<(T, int, Tables), Fault>, shift: int) -> Result<
    (T, int, Tables),
    Fault,
> {
    match r {
        Ok((v, p, t)) => Ok((v, p + shift, t)),
        Err(f) => Err(f),
    }
}

/// Something was read, and it ended at `hi` or before.
pub open spec fn ends_by<T>(r: Result<(T, int, Tables), Fault>, hi: int) -> bool {
    r matches Ok((v, p, t)) && p <= hi
}

proof fn lemma_u29_local(a: Seq<u8>, b: Seq<u8>, shift: int, pos: int, hi: int)
    requires
        alike(a, b, shift, pos, hi),
        u29(a, pos) matches Ok((u, p)) && p <= hi,
    ensures
        u29(b, pos + shift) == Ok::<(int, int), Fault>(
            (u29(a, pos)->Ok_0.0, u29(a, pos)->Ok_0.1 + shift),
        ),
{
    assert(a[pos] == b[pos + shift]);
    if a[pos] >= 128 {
        assert(a[pos + 1] == b[pos + 1 + shift]);
        if a[pos + 1] >= 128 {
            assert(a[pos + 2] == b[pos + 2 + shift]);
            if a[pos + 2] >= 128 {
                assert(a[pos + 3] == b[pos + 3 + shift]);
            }
        }
    }
}

proof fn lemma_utf8_local(a: Seq<u8>, b: Seq<u8>, shift: int, pos: int, len: int, hi: int)
    requires
        alike(a, b, shift, pos, hi),
        0 <= len,
        pos + len <= hi,
    ensures
        utf8_run(b, pos + shift, len) == utf8_run(a, pos, len),
{
    lemma_alike_run(a, b, shift, pos, pos + len);
}

proof fn lemma_text_local(a: Seq<u8>, b: Seq<u8>, shift: int, pos: int, t: Tables, hi: int)
    requires
        alike(a, b, shift, pos, hi),
        ends_by(text(a, pos, t), hi),
    ensures
        text(b, pos + shift, t) == shifted(text(a, pos, t), shift),
{
    lemma_u29_bounds(a, pos);
    let (u, p) = u29(a, pos)->Ok_0;
    lemma_u29_local(a, b, shift, pos, hi);
    if u % 2 != 0 {
        lemma_utf8_local(a, b, shift, p, u / 2, hi);
    }
}

proof fn lemma_texts_local(
    a: Seq<u8>,
    b: Seq<u8>,
    shift: int,
    pos: int,
    t: Tables,
    count: int,
    hi: int,
)
    requires
        alike(a, b, shift, pos, hi),
        ends_by(texts(a, pos, t, count), hi),
    ensures
        texts(b, pos + shift, t, count) == shifted(texts(a, pos, t, count), shift),
    decreases count,
{
    if count > 0 {
        lemma_text_advances(a, pos, t);
        let (s, p, t1) = text(a, pos, t)->Ok_0;
        lemma_texts_advance(a, p, t1, count - 1);
        lemma_text_local(a, b, shift, pos, t, hi);
        lemma_texts_local(a, b, shift, p, t1, count - 1, hi);
    }
}

proof fn lemma_xml_local(
    a: Seq<u8>,
    b: Seq<u8>,
    shift: int,
    pos: int,
    t: Tables,
    document: bool,
    hi: int,
)
    requires
        alike(a, b, shift, pos, hi),
        ends_by(xml(a, pos, t, document), hi),
    ensures
        xml(b, pos + shift, t, document) == shifted(xml(a, pos, t, document), shift),
{
    lemma_u29_bounds(a, pos);
    let (u, p) = u29(a, pos)->Ok_0;
    lemma_u29_local(a, b, shift, pos, hi);
    if u % 2 != 0 {
        lemma_utf8_local(a, b, shift, p, u / 2, hi);
    }
}

proof fn lemma_date_local(a: Seq<u8>, b: Seq<u8>, shift: int, pos: int, t: Tables, hi: int)
    requires
        alike(a, b, shift, pos, hi),
        ends_by(date(a, pos, t), hi),
    ensures
        date(b, pos + shift, t) == shifted(date(a, pos, t), shift),
{
    lemma_u29_bounds(a, pos);
    let (u, p) = u29(a, pos)->Ok_0;
    lemma_u29_local(a, b, shift, pos, hi);
    if u % 2 != 0 {
        lemma_alike_u64(a, b, shift, p, hi);
    }
}

proof fn lemma_bytes_local(a: Seq<u8>, b: Seq<u8>, shift: int, pos: int, t: Tables, hi: int)
    requires
        alike(a, b, shift, pos, hi),
        ends_by(byte_array(a, pos, t), hi),
    ensures
        byte_array(b, pos + shift, t) == shifted(byte_array(a, pos, t), shift),
{
    lemma_u29_bounds(a, pos);
    let (u, p) = u29(a, pos)->Ok_0;
    lemma_u29_local(a, b, shift, pos, hi);
    if u % 2 != 0 {
        lemma_alike_run(a, b, shift, p, p + u / 2);
    }
}

proof fn lemma_traits_local(
    a: Seq<u8>,
    b: Seq<u8>,
    shift: int,
    pos: int,
    t: Tables,
    u: int,
    hi: int,
)
    requires
        alike(a, b, shift, pos, hi),
        ends_by(traits(a, pos, t, u), hi),
    ensures
        traits(b, pos + shift, t, u) == shifted(traits(a, pos, t, u), shift),
{
    if u / 2 % 2 != 0 {
        lemma_text_advances(a, pos, t);
        let (class_name, p, t1) = text(a, pos, t)->Ok_0;
        lemma_texts_advance(a, p, t1, u / 16);
        lemma_text_local(a, b, shift, pos, t, hi);
        lemma_texts_local(a, b, shift, p, t1, u / 16, hi);
    }
}

/// Alike bytes hold the same value, and it ends at the same place of them.
#[verifier::rlimit(30)]
pub proof fn lemma_value_local(a: Seq<u8>, b: Seq<u8>, shift: int, pos: int, t: Tables, hi: int)
    requires
        alike(a, b, shift, pos, hi),
        ends_by(value(a, pos, t), hi),
    ensures
        value(b, pos + shift, t) == shifted(value(a, pos, t), shift),
    decreases a.len() - pos, 0int,
{
    lemma_value_advances(a, pos, t);
    let marker = a[pos];
    assert(marker == b[pos + shift]);
    if marker == 0x04 {
        lemma_u29_local(a, b, shift, pos + 1, hi);
    } else if marker == 0x05 {
        lemma_alike_u64(a, b, shift, pos + 1, hi);
    } else if marker == 0x06 {
        lemma_text_local(a, b, shift, pos + 1, t, hi);
    } else if marker == 0x07 {
        lemma_xml_local(a, b, shift, pos + 1, t, true, hi);
    } else if marker == 0x08 {
        lemma_date_local(a, b, shift, pos + 1, t, hi);
    } else if marker == 0x09 {
        lemma_array_local(a, b, shift, pos + 1, t, hi);
    } else if marker == 0x0A {
        lemma_object_local(a, b, shift, pos + 1, t, hi);
    } else if marker == 0x0B {
        lemma_xml_local(a, b, shift, pos + 1, t, false, hi);
    } else if marker == 0x0C {
        lemma_bytes_local(a, b, shift, pos + 1, t, hi);
    }
}

proof fn lemma_array_local(a: Seq<u8>, b: Seq<u8>, shift: int, pos: int, t: Tables, hi: int)
    requires
        alike(a, b, shift, pos, hi),
        ends_by(array(a, pos, t), hi),
    ensures
        array(b, pos + shift, t) == shifted(array(a, pos, t), shift),
    decreases a.len() - pos, 2int,
{
    lemma_u29_bounds(a, pos);
    let (u, p) = u29(a, pos)->Ok_0;
    lemma_array_advances(a, pos, t);
    if u % 2 == 0 {
        lemma_u29_local(a, b, shift, pos, hi);
    } else {
        let t0 = t.with_object(Amf3Tree::Array { assoc: Seq::empty(), dense: Seq::empty() });
        lemma_pairs_advance(a, p, t0);
        let (assoc, p1, t1) = pairs(a, p, t0)->Ok_0;
        lemma_items_advance(a, p1, t1, u / 2);
        lemma_u29_local(a, b, shift, pos, hi);
        lemma_pairs_local(a, b, shift, p, t0, hi);
        lemma_items_local(a, b, shift, p1, t1, u / 2, hi);
    }
}

#[verifier::rlimit(30)]
proof fn lemma_object_local(a: Seq<u8>, b: Seq<u8>, shift: int, pos: int, t: Tables, hi: int)
    requires
        alike(a, b, shift, pos, hi),
        ends_by(object(a, pos, t), hi),
    ensures
        object(b, pos + shift, t) == shifted(object(a, pos, t), shift),
    decreases a.len() - pos, 2int,
{
    lemma_u29_bounds(a, pos);
    let (u, p) = u29(a, pos)->Ok_0;
    lemma_object_advances(a, pos, t);
    if u % 2 == 0 {
        lemma_u29_local(a, b, shift, pos, hi);
    } else {
        lemma_traits_advance(a, p, t, u);
        let (entry, p1, t1) = traits(a, p, t, u)->Ok_0;
        if entry.externalizable {
            lemma_u29_local(a, b, shift, pos, hi);
            lemma_traits_local(a, b, shift, p, t, u, hi);
        } else {
            let t2 = t1.with_object(bare_object(entry));
            let n = entry.sealed_names.len() as int;
            lemma_items_advance(a, p1, t2, n);
            let (sealed, p2, t3) = items(a, p1, t2, n)->Ok_0;
            if entry.dynamic {
                lemma_pairs_advance(a, p2, t3);
            }
            lemma_u29_local(a, b, shift, pos, hi);
            lemma_traits_local(a, b, shift, p, t, u, hi);
            lemma_items_local(a, b, shift, p1, t2, n, hi);
            if entry.dynamic {
                lemma_pairs_local(a, b, shift, p2, t3, hi);
            }
        }
    }
}

proof fn lemma_items_local(
    a: Seq<u8>,
    b: Seq<u8>,
    shift: int,
    pos: int,
    t: Tables,
    count: int,
    hi: int,
)
    requires
        alike(a, b, shift, pos, hi),
        ends_by(items(a, pos, t, count), hi),
    ensures
        items(b, pos + shift, t, count) == shifted(items(a, pos, t, count), shift),
    decreases a.len() - pos, 1int,
{
    if count > 0 {
        lemma_value_advances(a, pos, t);
        let (v, p, t1) = value(a, pos, t)->Ok_0;
        lemma_items_advance(a, p, t1, count - 1);
        lemma_value_local(a, b, shift, pos, t, hi);
        lemma_items_local(a, b, shift, p, t1, count - 1, hi);
    }
}

proof fn lemma_pairs_local(a: Seq<u8>, b: Seq<u8>, shift: int, pos: int, t: Tables, hi: int)
    requires
        alike(a, b, shift, pos, hi),
        ends_by(pairs(a, pos, t), hi),
    ensures
        pairs(b, pos + shift, t) == shifted(pairs(a, pos, t), shift),
    decreases a.len() - pos, 1int,
{
    lemma_text_advances(a, pos, t);
    let (key, p, t1) = text(a, pos, t)->Ok_0;
    if key.len() == 0 {
        lemma_text_local(a, b, shift, pos, t, hi);
    } else {
        lemma_value_advances(a, p, t1);
        let (v, p1, t2) = value(a, p, t1)->Ok_0;
        lemma_pairs_advance(a, p1, t2);
        lemma_text_local(a, b, shift, pos, t, hi);
        lemma_value_local(a, b, shift, p, t1, hi);
        lemma_pairs_local(a, b, shift, p1, t2, hi);
    }
}

/// A message and its length depend only on the bytes that it takes: wherever the same bytes
/// stand, they hold the same value.
pub proof fn law_message_is_local(a: Seq<u8>, pos: int, b: Seq<u8>, q: int)
    requires
        message(a, pos) matches Ok((v, end)) && at(b, q, a.subrange(pos, end)),
    ensures
        ({
            let (v, end) = message(a, pos)->Ok_0;
            &&& pos < end <= a.len()
            &&& message(b, q) == Ok::<(Amf3Tree, int), Fault>((v, q + (end - pos)))
        }),
{
    let (v, end) = message(a, pos)->Ok_0;
    lemma_value_advances(a, pos, Tables::empty());
    lemma_at_alike(a, pos, end, b, q);
    lemma_value_local(a, b, q - pos, pos, Tables::empty(), end);
}

} // verus!
