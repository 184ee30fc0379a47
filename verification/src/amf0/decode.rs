//! Reading AMF0.
use vstd::prelude::*;
use vstd::string::*;
use vstd::utf8::*;
use crate::amf0::{items_view, lemma_items_push, lemma_pairs_push, pairs_view, AmfTree, AmfValue};
use crate::amf3::decode::{lemma_value_advances as lemma_amf3_advances, message, Tables};
use crate::amf3::parse_amf3_value;
use crate::double::Double;
use crate::error::{Error, Fault};
use crate::text::text_of_bytes;
use crate::wire::{copy_range, read_u16, read_u32, read_u64, u16_at, u32_at, u64_at};

verus! {

// ---- the grammar ----------------------------------------------------------

/// Sixteen bits as a signed number.
pub open spec fn signed16(u: u16) -> i16 {
    (if u < 0x8000 {
        u as int
    } else {
        u - 0x1_0000
    }) as i16
}

/// `len` bytes of UTF-8 at `pos`, and where they end.
pub open spec fn utf8_run(data: Seq<u8>, pos: int, len: int) -> Result<(Seq<char>, int), Fault> {
    if pos + len > data.len() {
        Err(Fault::Amf0TruncatedString)
    } else if !valid_utf8(data.subrange(pos, pos + len)) {
        Err(Fault::Amf0StringNotUtf8)
    } else {
        Ok((decode_utf8(data.subrange(pos, pos + len)), pos + len))
    }
}

/// Text behind a length of two bytes.
pub open spec fn short_text(data: Seq<u8>, pos: int) -> Result<(Seq<char>, int), Fault> {
    if pos + 2 > data.len() {
        Err(Fault::Amf0TruncatedU16)
    } else {
        utf8_run(data, pos + 2, u16_at(data, pos) as int)
    }
}

/// Text behind a length of four bytes.
pub open spec fn long_text(data: Seq<u8>, pos: int) -> Result<(Seq<char>, int), Fault> {
    if pos + 4 > data.len() {
        Err(Fault::Amf0TruncatedU32)
    } else {
        utf8_run(data, pos + 4, u32_at(data, pos) as int)
    }
}

/// One AMF3 value at `pos`, with tables of its own.
#[verifier::opaque]
pub open spec fn avm_plus(data: Seq<u8>, pos: int) -> Result<(AmfTree, int), Fault> {
    match message(data, pos) {
        Err(f) => Err(f),
        Ok((v, p)) => Ok((AmfTree::AvmPlus(v), p)),
    }
}

/// One value at `pos`, and where it ends.
///
/// A value always ends behind its start (`lemma_value_advances`). The tests for that in
/// `items` and `body` always hold; they are there so that the recursion is seen to end.
pub open spec fn value(data: Seq<u8>, pos: int) -> Result<(AmfTree, int), Fault>
    decreases data.len() - pos, 0int,
{
    if !(0 <= pos < data.len()) {
        Err(Fault::Amf0TruncatedValue)
    } else {
        let marker = data[pos];
        let p = pos + 1;
        if marker == 0x00 {
            if p + 8 > data.len() {
                Err(Fault::Amf0TruncatedDouble)
            } else {
                Ok((AmfTree::Number(Double { bits: u64_at(data, p) }), p + 8))
            }
        } else if marker == 0x01 {
            if p >= data.len() {
                Err(Fault::Amf0TruncatedValue)
            } else {
                Ok((AmfTree::Boolean(data[p] != 0), p + 1))
            }
        } else if marker == 0x02 {
            match short_text(data, p) {
                Err(f) => Err(f),
                Ok((s, q)) => Ok((AmfTree::String(s), q)),
            }
        } else if marker == 0x03 {
            match body(data, p) {
                Err(f) => Err(f),
                Ok((b, q)) => Ok((AmfTree::Object(b), q)),
            }
        } else if marker == 0x05 {
            Ok((AmfTree::Null, p))
        } else if marker == 0x06 {
            Ok((AmfTree::Undefined, p))
        } else if marker == 0x07 {
            if p + 2 > data.len() {
                Err(Fault::Amf0TruncatedU16)
            } else {
                Ok((AmfTree::Reference(u16_at(data, p)), p + 2))
            }
        } else if marker == 0x08 {
            if p + 4 > data.len() {
                Err(Fault::Amf0TruncatedObject)
            } else {
                match body(data, p + 4) {
                    Err(f) => Err(f),
                    Ok((b, q)) => Ok((AmfTree::EcmaArray(b), q)),
                }
            }
        } else if marker == 0x0A {
            if p + 4 > data.len() {
                Err(Fault::Amf0TruncatedU32)
            } else {
                match items(data, p + 4, u32_at(data, p) as int) {
                    Err(f) => Err(f),
                    Ok((a, q)) => Ok((AmfTree::StrictArray(a), q)),
                }
            }
        } else if marker == 0x0B {
            if p + 8 > data.len() {
                Err(Fault::Amf0TruncatedDouble)
            } else if p + 10 > data.len() {
                Err(Fault::Amf0TruncatedI16)
            } else {
                Ok(
                    (
                        AmfTree::Date {
                            time_ms: Double { bits: u64_at(data, p) },
                            tz: signed16(u16_at(data, p + 8)),
                        },
                        p + 10,
                    ),
                )
            }
        } else if marker == 0x0C {
            match long_text(data, p) {
                Err(f) => Err(f),
                Ok((s, q)) => Ok((AmfTree::String(s), q)),
            }
        } else if marker == 0x0D {
            Ok((AmfTree::Unsupported, p))
        } else if marker == 0x0F {
            match long_text(data, p) {
                Err(f) => Err(f),
                Ok((s, q)) => Ok((AmfTree::Xml(s), q)),
            }
        } else if marker == 0x10 {
            match short_text(data, p) {
                Err(f) => Err(f),
                Ok((class_name, q)) => match body(data, q) {
                    Err(f) => Err(f),
                    Ok((b, r)) => Ok((AmfTree::TypedObject { class_name, body: b }, r)),
                },
            }
        } else if marker == 0x11 {
            avm_plus(data, p)
        } else {
            Err(Fault::Amf0UnknownMarker)
        }
    }
}

/// Named values, up to an empty name with the end marker behind it.
pub open spec fn body(data: Seq<u8>, pos: int) -> Result<(Seq<(Seq<char>, AmfTree)>, int), Fault>
    decreases data.len() - pos, 1int,
{
    if pos + 3 > data.len() {
        Err(Fault::Amf0TruncatedObject)
    } else if u16_at(data, pos) == 0 && data[pos + 2] == 0x09 {
        Ok((Seq::empty(), pos + 3))
    } else {
        match utf8_run(data, pos + 2, u16_at(data, pos) as int) {
            Err(f) => Err(f),
            Ok((key, p)) => match value(data, p) {
                Err(f) => Err(f),
                Ok((v, q)) => if !(pos < q <= data.len()) {
                    Err(Fault::Amf0TruncatedObject)
                } else {
                    match body(data, q) {
                        Err(f) => Err(f),
                        Ok((rest, r)) => Ok((seq![(key, v)] + rest, r)),
                    }
                },
            },
        }
    }
}

/// `count` values.
pub open spec fn items(data: Seq<u8>, pos: int, count: int) -> Result<(Seq<AmfTree>, int), Fault>
    decreases data.len() - pos, 1int,
{
    if count <= 0 {
        Ok((Seq::empty(), pos))
    } else {
        match value(data, pos) {
            Err(f) => Err(f),
            Ok((v, p)) => if !(pos < p <= data.len()) {
                Err(Fault::Amf0TruncatedValue)
            } else {
                match items(data, p, count - 1) {
                    Err(f) => Err(f),
                    Ok((rest, q)) => Ok((seq![v] + rest, q)),
                }
            },
        }
    }
}

// ---- positions only grow ----------------------------------------------------

/// A value ends behind its start and inside the input.
pub proof fn lemma_value_advances(data: Seq<u8>, pos: int)
    ensures
        value(data, pos) matches Ok((v, p)) ==> pos < p <= data.len(),
    decreases data.len() - pos, 0int,
{
    if 0 <= pos < data.len() {
        let marker = data[pos];
        if marker == 0x03 {
            lemma_body_advances(data, pos + 1);
        } else if marker == 0x08 {
            if pos + 5 <= data.len() {
                lemma_body_advances(data, pos + 5);
            }
        } else if marker == 0x0A {
            if pos + 5 <= data.len() {
                lemma_items_advance(data, pos + 5, u32_at(data, pos + 1) as int);
            }
        } else if marker == 0x10 {
            if let Ok((s, q)) = short_text(data, pos + 1) {
                lemma_body_advances(data, q);
            }
        } else if marker == 0x11 {
            reveal(avm_plus);
            lemma_amf3_advances(data, pos + 1, Tables::empty());
        }
    }
}

pub proof fn lemma_body_advances(data: Seq<u8>, pos: int)
    ensures
        body(data, pos) matches Ok((b, p)) ==> pos < p <= data.len(),
    decreases data.len() - pos, 1int,
{
    if pos + 3 <= data.len() {
        if let Ok((key, p)) = utf8_run(data, pos + 2, u16_at(data, pos) as int) {
            lemma_value_advances(data, p);
            if let Ok((v, q)) = value(data, p) {
                lemma_body_advances(data, q);
            }
        }
    }
}

pub proof fn lemma_items_advance(data: Seq<u8>, pos: int, count: int)
    requires
        pos <= data.len(),
    ensures
        items(data, pos, count) matches Ok((a, p)) ==> pos <= p <= data.len() && a.len() == (
        if count <= 0 {
            0
        } else {
            count
        }),
    decreases data.len() - pos, 1int,
{
    if count > 0 {
        lemma_value_advances(data, pos);
        if let Ok((v, p)) = value(data, pos) {
            lemma_items_advance(data, p, count - 1);
        }
    }
}

// ---- reading --------------------------------------------------------------

/// A result is what the grammar gives.
pub open spec fn read_as<T, S>(
    r: Result<(T, usize), Error>,
    view: spec_fn(T) -> S,
    s: Result<(S, int), Fault>,
) -> bool {
    match (r, s) {
        (Ok((v, p)), Ok((w, q))) => view(v) == w && p == q,
        (Err(e), Err(f)) => e == Error::InvalidData(f),
        _ => false,
    }
}

fn read_utf8(data: &[u8], pos: usize, len: usize) -> (r: Result<(String, usize), Error>)
    requires
        pos <= data@.len(),
    ensures
        read_as(r, |s: String| s@, utf8_run(data@, pos as int, len as int)),
        r matches Ok((s, p)) ==> p <= data@.len(),
{
    if len > data.len() - pos {
        return Err(Error::InvalidData(Fault::Amf0TruncatedString));
    }
    match text_of_bytes(copy_range(data, pos, pos + len)) {
        Some(s) => Ok((s, pos + len)),
        None => Err(Error::InvalidData(Fault::Amf0StringNotUtf8)),
    }
}

fn read_short_text(data: &[u8], pos: usize) -> (r: Result<(String, usize), Error>)
    requires
        pos <= data@.len(),
    ensures
        read_as(r, |s: String| s@, short_text(data@, pos as int)),
        r matches Ok((s, p)) ==> p <= data@.len(),
{
    if data.len() - pos < 2 {
        return Err(Error::InvalidData(Fault::Amf0TruncatedU16));
    }
    read_utf8(data, pos + 2, read_u16(data, pos) as usize)
}

fn read_long_text(data: &[u8], pos: usize) -> (r: Result<(String, usize), Error>)
    requires
        pos <= data@.len(),
    ensures
        read_as(r, |s: String| s@, long_text(data@, pos as int)),
        r matches Ok((s, p)) ==> p <= data@.len(),
{
    if data.len() - pos < 4 {
        return Err(Error::InvalidData(Fault::Amf0TruncatedU32));
    }
    read_utf8(data, pos + 4, read_u32(data, pos) as usize)
}

/// A run of which `done` was read before the rest.
spec fn prefixed<T>(done: Seq<T>, rest: Result<(Seq<T>, int), Fault>) -> Result<
    (Seq<T>, int),
    Fault,
> {
    match rest {
        Ok((more, p)) => Ok((done + more, p)),
        Err(f) => Err(f),
    }
}

fn parse_object_body(data: &[u8], start: usize) -> (r: Result<
    (Vec<(String, AmfValue)>, usize),
    Error,
>)
    requires
        start <= data@.len(),
    ensures
        read_as(r, |b: Vec<(String, AmfValue)>| pairs_view(b@), body(data@, start as int)),
    decreases data@.len() - start, 1int,
{
    let mut p: usize = start;
    let mut out: Vec<(String, AmfValue)> = Vec::new();
    proof {
        if let Ok((more, q)) = body(data@, start as int) {
            assert(pairs_view(out@) + more =~= more);
        }
    }
    loop
        invariant
            start <= p <= data@.len(),
            body(data@, start as int) == prefixed(pairs_view(out@), body(data@, p as int)),
        decreases data@.len() - p,
    {
        if data.len() - p < 3 {
            return Err(Error::InvalidData(Fault::Amf0TruncatedObject));
        }
        let key_len: usize = read_u16(data, p) as usize;
        if key_len == 0 && data[p + 2] == 0x09 {
            assert(pairs_view(out@) + Seq::<(Seq<char>, AmfTree)>::empty() =~= pairs_view(out@));
            return Ok((out, p + 3));
        }
        let (key, np) = read_utf8(data, p + 2, key_len)?;
        proof {
            lemma_value_advances(data@, np as int);
        }
        let (v, np2) = parse_amf0_value(data, np)?;
        proof {
            lemma_pairs_push(out@, key, v);
            if let Ok((more, q)) = body(data@, np2 as int) {
                assert(pairs_view(out@) + (seq![(key@, v@)] + more) =~= pairs_view(out@).push(
                    (key@, v@),
                ) + more);
            }
        }
        out.push((key, v));
        p = np2;
    }
}

fn parse_items(data: &[u8], start: usize, count: u32) -> (r: Result<(Vec<AmfValue>, usize), Error>)
    requires
        start <= data@.len(),
    ensures
        read_as(r, |a: Vec<AmfValue>| items_view(a@), items(data@, start as int, count as int)),
    decreases data@.len() - start, 1int,
{
    let mut p: usize = start;
    let mut out: Vec<AmfValue> = Vec::new();
    let mut i: u32 = 0;
    proof {
        if let Ok((more, q)) = items(data@, start as int, count as int) {
            assert(items_view(out@) + more =~= more);
        }
    }
    while i < count
        invariant
            i <= count,
            start <= p <= data@.len(),
            items(data@, start as int, count as int) == prefixed(
                items_view(out@),
                items(data@, p as int, count - i),
            ),
        decreases count - i,
    {
        proof {
            lemma_value_advances(data@, p as int);
        }
        let (v, np) = parse_amf0_value(data, p)?;
        proof {
            lemma_items_push(out@, v);
            if let Ok((more, q)) = items(data@, np as int, count - i - 1) {
                assert(items_view(out@) + (seq![v@] + more) =~= items_view(out@).push(v@) + more);
            }
        }
        out.push(v);
        p = np;
        i += 1;
    }
    assert(items_view(out@) + Seq::<AmfTree>::empty() =~= items_view(out@));
    Ok((out, p))
}

/// Reads one value at `pos` and says where it ends, so that the next can be read from there.
#[verifier::rlimit(30)]
pub fn parse_amf0_value(data: &[u8], pos: usize) -> (r: Result<(AmfValue, usize), Error>)
    ensures
        read_as(r, |v: AmfValue| v@, value(data@, pos as int)),
        r matches Ok((v, p)) ==> pos < p <= data@.len(),
    decreases data@.len() - pos, 0int,
{
    proof {
        lemma_value_advances(data@, pos as int);
    }
    if pos >= data.len() {
        return Err(Error::InvalidData(Fault::Amf0TruncatedValue));
    }
    let p: usize = pos + 1;
    match data[pos] {
        0x00 => {
            if data.len() - p < 8 {
                return Err(Error::InvalidData(Fault::Amf0TruncatedDouble));
            }
            Ok((AmfValue::Number(Double { bits: read_u64(data, p) }), p + 8))
        },
        0x01 => {
            if p >= data.len() {
                return Err(Error::InvalidData(Fault::Amf0TruncatedValue));
            }
            Ok((AmfValue::Boolean(data[p] != 0), p + 1))
        },
        0x02 => {
            let (s, q) = read_short_text(data, p)?;
            Ok((AmfValue::String(s), q))
        },
        0x03 => {
            let (b, q) = parse_object_body(data, p)?;
            Ok((AmfValue::Object(b), q))
        },
        0x05 => Ok((AmfValue::Null, p)),
        0x06 => Ok((AmfValue::Undefined, p)),
        0x07 => {
            if data.len() - p < 2 {
                return Err(Error::InvalidData(Fault::Amf0TruncatedU16));
            }
            Ok((AmfValue::Reference(read_u16(data, p)), p + 2))
        },
        0x08 => {
            if data.len() - p < 4 {
                return Err(Error::InvalidData(Fault::Amf0TruncatedObject));
            }
            let (b, q) = parse_object_body(data, p + 4)?;
            Ok((AmfValue::EcmaArray(b), q))
        },
        0x0A => {
            if data.len() - p < 4 {
                return Err(Error::InvalidData(Fault::Amf0TruncatedU32));
            }
            let (a, q) = parse_items(data, p + 4, read_u32(data, p))?;
            Ok((AmfValue::StrictArray(a), q))
        },
        0x0B => {
            if data.len() - p < 8 {
                return Err(Error::InvalidData(Fault::Amf0TruncatedDouble));
            }
            if data.len() - p < 10 {
                return Err(Error::InvalidData(Fault::Amf0TruncatedI16));
            }
            let time_ms = Double { bits: read_u64(data, p) };
            let u: u16 = read_u16(data, p + 8);
            let tz: i16 = if u < 0x8000 {
                u as i16
            } else {
                (u as i32 - 0x1_0000) as i16
            };
            Ok((AmfValue::Date { time_ms, tz }, p + 10))
        },
        0x0C => {
            let (s, q) = read_long_text(data, p)?;
            Ok((AmfValue::String(s), q))
        },
        0x0D => Ok((AmfValue::Unsupported, p)),
        0x0F => {
            let (s, q) = read_long_text(data, p)?;
            Ok((AmfValue::Xml(s), q))
        },
        0x10 => {
            let (class_name, q) = read_short_text(data, p)?;
            let (b, e) = parse_object_body(data, q)?;
            Ok((AmfValue::TypedObject { class_name, body: b }, e))
        },
        0x11 => {
            proof {
                reveal(avm_plus);
            }
            let (v, q) = parse_amf3_value(data, p)?;
            Ok((AmfValue::AvmPlus(Box::new(v)), q))
        },
        _ => Err(Error::InvalidData(Fault::Amf0UnknownMarker)),
    }
}

} // verus!
