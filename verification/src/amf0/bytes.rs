//! AMF0, told by its bytes.
use vstd::prelude::*;
use vstd::utf8::*;
use crate::amf0::decode::{avm_plus, body, items, value};
use crate::amf0::encode::{emit_boolean, emit_date, emit_ecma_array_start, emit_name, emit_null,
    emit_number, emit_numbers, emit_object_end, emit_object_start, emit_strict_array_number,
    emit_strict_array_start, emit_strict_array_string, emit_string, emit_strings, emit_undefined,
    emit_xml};
use crate::amf0::AmfTree;
use crate::amf3::decode::message;
use crate::double::Double;
use crate::error::{Error, Fault};
use crate::tag::tagged;
use crate::wire::{be16, be24, be32, be64, u16_at, u24_at, u32_at, u64_at, wrote, Emit};

verus! {

/// The number that `n` bytes at `pos` stand for, most significant first.
pub open spec fn big_endian(data: Seq<u8>, pos: int, n: nat) -> int
    decreases n,
{
    if n == 0 {
        0
    } else {
        big_endian(data, pos, (n - 1) as nat) * 256 + data[pos + n - 1]
    }
}

/// Numbers are read and written with their most significant byte first.
#[verifier::spinoff_prover]
#[verifier::rlimit(40)]
pub proof fn law_numbers_by_bytes(data: Seq<u8>, pos: int, a: u16, b: u32, c: u64)
    ensures
        u16_at(data, pos) == big_endian(data, pos, 2),
        u24_at(data, pos) == big_endian(data, pos, 3),
        u32_at(data, pos) == big_endian(data, pos, 4),
        u64_at(data, pos) == big_endian(data, pos, 8),
        be16(a).len() == 2 && big_endian(be16(a), 0, 2) == a,
        be24(b).len() == 3 && big_endian(be24(b), 0, 3) == b as int % 0x100_0000,
        be32(b).len() == 4 && big_endian(be32(b), 0, 4) == b,
        be64(c).len() == 8 && big_endian(be64(c), 0, 8) == c,
{
    reveal(u64_at);
    reveal(be64);
    reveal_with_fuel(big_endian, 9);
    let d = be64(c);
    let hi = (c / 0x1_0000_0000) as u32;
    let lo = (c % 0x1_0000_0000) as u32;
    assert(d =~= be32(hi) + be32(lo));
    assert(d[0] == be32(hi)[0] && d[1] == be32(hi)[1] && d[2] == be32(hi)[2] && d[3] == be32(hi)[3]);
    assert(d[4] == be32(lo)[0] && d[5] == be32(lo)[1] && d[6] == be32(lo)[2] && d[7] == be32(lo)[3]);
    assert(big_endian(be32(hi), 0, 4) == hi);
    assert(big_endian(be32(lo), 0, 4) == lo);
}

/// Writes add up: what is put is appended; a refusal appends nothing; and what comes behind a refusal
/// is not written. A write that was refused says why, and one that was not succeeds.
pub proof fn law_writes_add_up(a: Emit, b: Emit, s: Seq<u8>, before: Seq<u8>, after: Seq<u8>, f: Fault)
    ensures
        Emit::put(s).bytes == s && Emit::put(s).fault is None,
        Emit::stop(f).bytes.len() == 0 && Emit::stop(f).fault == Some(f),
        a.fault is None ==> a.and(b).bytes == a.bytes + b.bytes && a.and(b).fault == b.fault,
        a.fault is Some ==> a.and(b).bytes == a.bytes && a.and(b).fault == a.fault,
        a.fault is None ==> a.whole() == a,
        a.fault is Some ==> a.whole().bytes.len() == 0 && a.whole().fault == a.fault,
        wrote(before, after, Ok(()), a) <==> after == before + a.bytes && a.fault is None,
        wrote(before, after, Err(Error::InvalidData(f)), a) <==> after == before + a.bytes && a.fault
            == Some(f),
        !wrote(before, after, Err(Error::Eof), a),
        !wrote(before, after, Err(Error::UnexpectedEof), a),
        a.bytes.len() <= u32::MAX ==> (tagged(before, after, Ok(a.bytes.len() as u32), a) <==> after
            == before + a.bytes && a.fault is None),
        tagged(before, after, Err(Error::InvalidData(f)), a) <==> after == before + a.bytes && a.fault
            == Some(f),
{
}

/// The values that hold no others, by the byte that they start with.
#[verifier::spinoff_prover]
#[verifier::rlimit(40)]
pub proof fn law_scalars_by_bytes(data: Seq<u8>, pos: int)
    requires
        0 <= pos < data.len(),
    ensures
        data[pos] == 0 ==> value(data, pos) == (if pos + 9 > data.len() {
            Err(Fault::Amf0TruncatedDouble)
        } else {
            Ok(
                (
                    AmfTree::Number(Double { bits: big_endian(data, pos + 1, 8) as u64 }),
                    pos + 9,
                ),
            )
        }),
        data[pos] == 1 ==> value(data, pos) == (if pos + 2 > data.len() {
            Err(Fault::Amf0TruncatedValue)
        } else {
            Ok((AmfTree::Boolean(data[pos + 1] != 0), pos + 2))
        }),
        data[pos] == 5 ==> value(data, pos) == Ok::<(AmfTree, int), Fault>((AmfTree::Null, pos + 1)),
        data[pos] == 6 ==> value(data, pos) == Ok::<(AmfTree, int), Fault>(
            (AmfTree::Undefined, pos + 1),
        ),
        data[pos] == 7 ==> value(data, pos) == (if pos + 3 > data.len() {
            Err(Fault::Amf0TruncatedU16)
        } else {
            Ok((AmfTree::Reference(big_endian(data, pos + 1, 2) as u16), pos + 3))
        }),
        data[pos] == 11 && pos + 9 > data.len() ==> value(data, pos) == Err::<(AmfTree, int), Fault>(
            Fault::Amf0TruncatedDouble,
        ),
        data[pos] == 11 && pos + 9 <= data.len() < pos + 11 ==> value(data, pos) == Err::<
            (AmfTree, int),
            Fault,
        >(Fault::Amf0TruncatedI16),
        data[pos] == 11 && pos + 11 <= data.len() ==> (value(data, pos) matches Ok((v, p)) && p == pos
            + 11 && (v matches AmfTree::Date { time_ms, tz } && time_ms.bits == big_endian(
            data,
            pos + 1,
            8,
        ) && tz == (if data[pos + 9] < 128 {
            big_endian(data, pos + 9, 2)
        } else {
            big_endian(data, pos + 9, 2) - 65536
        }))),
        data[pos] == 13 ==> value(data, pos) == Ok::<(AmfTree, int), Fault>(
            (AmfTree::Unsupported, pos + 1),
        ),
        data[pos] == 17 ==> value(data, pos) == (match message(data, pos + 1) {
            Ok((w, p)) => Ok((AmfTree::AvmPlus(w), p)),
            Err(f) => Err(f),
        }),
        data[pos] == 4 || data[pos] == 9 || data[pos] == 14 || data[pos] > 17 ==> value(data, pos)
            == Err::<(AmfTree, int), Fault>(Fault::Amf0UnknownMarker),
{
    reveal(avm_plus);
    law_numbers_by_bytes(data, pos + 1, 0, 0, 0);
    law_numbers_by_bytes(data, pos + 9, 0, 0, 0);
    reveal_with_fuel(big_endian, 3);
}

/// There is no value behind the end.
pub proof fn law_no_value_behind_the_end(data: Seq<u8>, pos: int)
    requires
        pos >= data.len(),
    ensures
        value(data, pos) == Err::<(AmfTree, int), Fault>(Fault::Amf0TruncatedValue),
{
}

/// Texts, by their bytes: a length of two bytes for a string, and of four for a long string or XML, and
/// as many bytes of UTF-8.
pub proof fn law_texts_by_bytes(data: Seq<u8>, pos: int)
    requires
        0 <= pos < data.len(),
    ensures
        ({
            let wide = data[pos] != 2;
            let n = if wide {
                4nat
            } else {
                2nat
            };
            let start = pos + 1 + n;
            let end = start + big_endian(data, pos + 1, n);
            data[pos] == 2 || data[pos] == 12 || data[pos] == 15 ==> {
                &&& start > data.len() ==> value(data, pos) == Err::<(AmfTree, int), Fault>(
                    if wide {
                        Fault::Amf0TruncatedU32
                    } else {
                        Fault::Amf0TruncatedU16
                    },
                )
                &&& start <= data.len() < end ==> value(data, pos) == Err::<(AmfTree, int), Fault>(
                    Fault::Amf0TruncatedString,
                )
                &&& end <= data.len() && !valid_utf8(data.subrange(start, end)) ==> value(data, pos)
                    == Err::<(AmfTree, int), Fault>(Fault::Amf0StringNotUtf8)
                &&& end <= data.len() && valid_utf8(data.subrange(start, end)) ==> value(data, pos)
                    == Ok::<(AmfTree, int), Fault>(
                    (
                        if data[pos] == 15 {
                            AmfTree::Xml(decode_utf8(data.subrange(start, end)))
                        } else {
                            AmfTree::String(decode_utf8(data.subrange(start, end)))
                        },
                        end,
                    ),
                )
            }
        }),
{
    law_numbers_by_bytes(data, pos + 1, 0, 0, 0);
}

/// Objects and arrays, by the byte that they start with. The number of values of an associative array
/// is there, and does not matter.
pub proof fn law_objects_by_bytes(data: Seq<u8>, pos: int)
    requires
        0 <= pos < data.len(),
    ensures
        data[pos] == 3 ==> value(data, pos) == (match body(data, pos + 1) {
            Ok((b, p)) => Ok((AmfTree::Object(b), p)),
            Err(f) => Err(f),
        }),
        data[pos] == 8 && pos + 5 > data.len() ==> value(data, pos) == Err::<(AmfTree, int), Fault>(
            Fault::Amf0TruncatedObject,
        ),
        data[pos] == 8 && pos + 5 <= data.len() ==> value(data, pos) == (match body(data, pos + 5) {
            Ok((b, p)) => Ok((AmfTree::EcmaArray(b), p)),
            Err(f) => Err(f),
        }),
        data[pos] == 10 && pos + 5 > data.len() ==> value(data, pos) == Err::<(AmfTree, int), Fault>(
            Fault::Amf0TruncatedU32,
        ),
        data[pos] == 10 && pos + 5 <= data.len() ==> value(data, pos) == (match items(
            data,
            pos + 5,
            big_endian(data, pos + 1, 4),
        ) {
            Ok((a, p)) => Ok((AmfTree::StrictArray(a), p)),
            Err(f) => Err(f),
        }),
        data[pos] == 16 ==> {
            let end = pos + 3 + big_endian(data, pos + 1, 2);
            &&& pos + 3 > data.len() ==> value(data, pos) == Err::<(AmfTree, int), Fault>(
                Fault::Amf0TruncatedU16,
            )
            &&& pos + 3 <= data.len() < end ==> value(data, pos) == Err::<(AmfTree, int), Fault>(
                Fault::Amf0TruncatedString,
            )
            &&& end <= data.len() && !valid_utf8(data.subrange(pos + 3, end)) ==> value(data, pos)
                == Err::<(AmfTree, int), Fault>(Fault::Amf0StringNotUtf8)
            &&& end <= data.len() && valid_utf8(data.subrange(pos + 3, end)) ==> value(data, pos) == (
            match body(data, end) {
                Ok((b, p)) => Ok(
                    (
                        AmfTree::TypedObject {
                            class_name: decode_utf8(data.subrange(pos + 3, end)),
                            body: b,
                        },
                        p,
                    ),
                ),
                Err(f) => Err(f),
            })
        },
{
    law_numbers_by_bytes(data, pos + 1, 0, 0, 0);
}

/// The named values of an object stand one behind the other, each a name behind its length and a value,
/// and end with an empty name and the byte 9.
pub proof fn law_properties_by_bytes(data: Seq<u8>, pos: int)
    requires
        0 <= pos,
    ensures
        ({
            let start = pos + 2;
            let end = start + big_endian(data, pos, 2);
            &&& pos + 3 > data.len() ==> body(data, pos) == Err::<
                (Seq<(Seq<char>, AmfTree)>, int),
                Fault,
            >(Fault::Amf0TruncatedObject)
            &&& pos + 3 <= data.len() && data[pos] == 0 && data[pos + 1] == 0 && data[pos + 2] == 9
                ==> (body(data, pos) matches Ok((b, p)) && b.len() == 0 && p == pos + 3)
            &&& pos + 3 <= data.len() && !(data[pos] == 0 && data[pos + 1] == 0 && data[pos + 2]
                == 9) ==> {
                &&& end > data.len() ==> body(data, pos) == Err::<
                    (Seq<(Seq<char>, AmfTree)>, int),
                    Fault,
                >(Fault::Amf0TruncatedString)
                &&& end <= data.len() && !valid_utf8(data.subrange(start, end)) ==> body(data, pos)
                    == Err::<(Seq<(Seq<char>, AmfTree)>, int), Fault>(Fault::Amf0StringNotUtf8)
                &&& end <= data.len() && valid_utf8(data.subrange(start, end)) ==> (match value(
                    data,
                    end,
                ) {
                    Err(f) => body(data, pos) == Err::<(Seq<(Seq<char>, AmfTree)>, int), Fault>(f),
                    Ok((v, q)) => match body(data, q) {
                        Err(f) => body(data, pos) == Err::<(Seq<(Seq<char>, AmfTree)>, int), Fault>(
                            f,
                        ),
                        Ok((rest, r)) => body(data, pos) matches Ok((b, p)) && p == r && b
                            == seq![(decode_utf8(data.subrange(start, end)), v)] + rest,
                    },
                })
            }
        }),
{
    law_numbers_by_bytes(data, pos, 0, 0, 0);
    reveal_with_fuel(big_endian, 3);
    let end = pos + 2 + big_endian(data, pos, 2);
    crate::amf0::decode::lemma_value_advances(data, end);
}

/// The values of an array stand one behind the other, as many as there are said to be.
pub proof fn law_items_by_bytes(data: Seq<u8>, pos: int, count: int)
    requires
        0 <= pos,
        0 <= count,
    ensures
        count == 0 ==> (items(data, pos, count) matches Ok((a, p)) && a.len() == 0 && p == pos),
        count > 0 ==> (match value(data, pos) {
            Err(f) => items(data, pos, count) == Err::<(Seq<AmfTree>, int), Fault>(f),
            Ok((v, q)) => match items(data, q, count - 1) {
                Err(f) => items(data, pos, count) == Err::<(Seq<AmfTree>, int), Fault>(f),
                Ok((rest, r)) => items(data, pos, count) matches Ok((a, p)) && p == r && a == seq![v]
                    + rest,
            },
        }),
{
    crate::amf0::decode::lemma_value_advances(data, pos);
}

/// What is written for each kind of value, byte by byte.
#[verifier::spinoff_prover]
#[verifier::rlimit(40)]
pub proof fn law_written_by_bytes(n: Double, b: bool, count: u32, tz: i16)
    ensures
        ({
            let e = emit_number(n);
            e.fault is None && e.bytes.len() == 9 && e.bytes[0] == 0 && big_endian(e.bytes, 1, 8)
                == n.bits
        }),
        ({
            let e = emit_boolean(b);
            e.fault is None && e.bytes.len() == 2 && e.bytes[0] == 1 && e.bytes[1] == (if b {
                1int
            } else {
                0int
            })
        }),
        emit_object_start() == Emit::put(seq![3u8]),
        emit_null() == Emit::put(seq![5u8]),
        emit_undefined() == Emit::put(seq![6u8]),
        emit_object_end() == Emit::put(seq![0u8, 0u8, 9u8]),
        ({
            let e = emit_ecma_array_start(count);
            e.fault is None && e.bytes.len() == 5 && e.bytes[0] == 8 && big_endian(e.bytes, 1, 4)
                == count
        }),
        ({
            let e = emit_strict_array_start(count);
            e.fault is None && e.bytes.len() == 5 && e.bytes[0] == 10 && big_endian(e.bytes, 1, 4)
                == count
        }),
        ({
            let e = emit_date(n, tz);
            e.fault is None && e.bytes.len() == 11 && e.bytes[0] == 11 && big_endian(e.bytes, 1, 8)
                == n.bits && big_endian(e.bytes, 9, 2) == (if tz < 0 {
                tz + 65536
            } else {
                tz as int
            })
        }),
{
    law_numbers_by_bytes(Seq::empty(), 0, 0, count, n.bits);
    let u = crate::amf0::encode::unsigned16(tz);
    law_numbers_by_bytes(Seq::empty(), 0, u, count, n.bits);
    lemma_big_endian_shift(seq![0u8], be64(n.bits), Seq::empty(), 8);
    assert(seq![0u8] + be64(n.bits) + Seq::empty() =~= seq![0u8] + be64(n.bits));
    lemma_big_endian_shift(seq![8u8], be32(count), Seq::empty(), 4);
    assert(seq![8u8] + be32(count) + Seq::empty() =~= seq![8u8] + be32(count));
    lemma_big_endian_shift(seq![10u8], be32(count), Seq::empty(), 4);
    assert(seq![10u8] + be32(count) + Seq::empty() =~= seq![10u8] + be32(count));
    lemma_big_endian_shift(seq![11u8], be64(n.bits), be16(u), 8);
    lemma_big_endian_shift(seq![11u8] + be64(n.bits), be16(u), Seq::empty(), 2);
    assert(seq![11u8] + be64(n.bits) + be16(u) + Seq::empty() =~= seq![11u8] + be64(n.bits) + be16(
        u,
    ));
}

pub proof fn lemma_big_endian_shift(a: Seq<u8>, b: Seq<u8>, c: Seq<u8>, n: nat)
    requires
        n <= b.len(),
    ensures
        big_endian(a + b + c, a.len() as int, n) == big_endian(b, 0, n),
    decreases n,
{
    if n > 0 {
        lemma_big_endian_shift(a, b, c, (n - 1) as nat);
    }
}

/// What is written for text: a length of two bytes and the text for a name or a string, and of four for
/// XML; text that is too long for its length is refused.
pub proof fn law_text_written_by_bytes(s: Seq<char>)
    ensures
        ({
            let t = encode_utf8(s);
            &&& t.len() <= 65535 ==> {
                let e = emit_name(s);
                e.fault is None && e.bytes.len() == 2 + t.len() && big_endian(e.bytes, 0, 2) == t.len()
                    && e.bytes.skip(2) == t
            }
            &&& t.len() > 65535 ==> emit_name(s) == Emit::stop(Fault::Amf0StringTooLong)
            &&& emit_string(s).bytes == seq![2u8] + emit_name(s).bytes && emit_string(s).fault
                == emit_name(s).fault
            &&& t.len() <= 0xFFFF_FFFF ==> {
                let e = emit_xml(s);
                e.fault is None && e.bytes.len() == 5 + t.len() && e.bytes[0] == 15 && big_endian(
                    e.bytes,
                    1,
                    4,
                ) == t.len() && e.bytes.skip(5) == t
            }
            &&& t.len() > 0xFFFF_FFFF ==> emit_xml(s) == Emit::stop(Fault::Amf0XmlTooLong)
        }),
{
    let t = encode_utf8(s);
    if t.len() <= 65535 {
        law_numbers_by_bytes(Seq::empty(), 0, t.len() as u16, 0, 0);
        lemma_big_endian_shift(Seq::empty(), be16(t.len() as u16), t, 2);
        assert(Seq::<u8>::empty() + be16(t.len() as u16) + t =~= be16(t.len() as u16) + t);
        assert(emit_name(s).bytes.skip(2) =~= t);
    }
    if t.len() <= 0xFFFF_FFFF {
        law_numbers_by_bytes(Seq::empty(), 0, 0, t.len() as u32, 0);
        lemma_big_endian_shift(seq![15u8], be32(t.len() as u32), t, 4);
        assert(emit_xml(s).bytes.skip(5) =~= t);
    }
}

/// Arrays of numbers and of strings are written as their number and then each in order.
pub proof fn law_arrays_written_in_order(s: Seq<Double>, n: Double, t: Seq<Seq<char>>, x: Seq<char>)
    ensures
        emit_numbers(Seq::empty()) == Emit::put(Seq::empty()),
        emit_numbers(s.push(n)) == emit_numbers(s).and(emit_number(n)),
        emit_strings(Seq::empty()) == Emit::put(Seq::empty()),
        emit_strings(t.push(x)) == emit_strings(t).and(emit_string(x)),
        s.len() > 0xFFFF_FFFF ==> emit_strict_array_number(s) == Emit::stop(Fault::Amf0ArrayTooLong),
        s.len() <= 0xFFFF_FFFF ==> emit_strict_array_number(s) == emit_strict_array_start(
            s.len() as u32,
        ).and(emit_numbers(s)),
        t.len() > 0xFFFF_FFFF ==> emit_strict_array_string(t) == Emit::stop(Fault::Amf0ArrayTooLong),
        t.len() <= 0xFFFF_FFFF ==> emit_strict_array_string(t) == emit_strict_array_start(
            t.len() as u32,
        ).and(emit_strings(t)),
{
    assert(s.push(n).drop_last() =~= s);
    assert(t.push(x).drop_last() =~= t);
}

} // verus!
