//! Writing AMF0.
use vstd::prelude::*;
use vstd::string::*;
use vstd::utf8::*;
use crate::text::texts_view;
use crate::double::Double;
use crate::error::{Error, Fault};
use crate::wire::{be16, be32, be64, lemma_wrote_and, push_bytes, push_u16, push_u32, push_u64, wrote, Emit};

verus! {

// ---- what is written ------------------------------------------------------

/// A signed number as sixteen bits.
pub open spec fn unsigned16(n: i16) -> u16 {
    (if n < 0 {
        n + 0x1_0000
    } else {
        n as int
    }) as u16
}

pub open spec fn emit_number(n: Double) -> Emit {
    Emit::put(seq![0x00u8] + be64(n.bits))
}

pub open spec fn emit_boolean(b: bool) -> Emit {
    Emit::put(
        seq![
            0x01u8,
            if b {
                1u8
            } else {
                0u8
            },
        ],
    )
}

/// A property name, and what stands behind the marker of a string: text behind a length of two
/// bytes.
pub open spec fn emit_name(s: Seq<char>) -> Emit {
    if encode_utf8(s).len() > 0xFFFF {
        Emit::stop(Fault::Amf0StringTooLong)
    } else {
        Emit::put(be16(encode_utf8(s).len() as u16) + encode_utf8(s))
    }
}

pub open spec fn emit_string(s: Seq<char>) -> Emit {
    Emit::put(seq![0x02u8]).and(emit_name(s))
}

pub open spec fn emit_object_start() -> Emit {
    Emit::put(seq![0x03u8])
}

pub open spec fn emit_null() -> Emit {
    Emit::put(seq![0x05u8])
}

pub open spec fn emit_undefined() -> Emit {
    Emit::put(seq![0x06u8])
}

pub open spec fn emit_ecma_array_start(count: u32) -> Emit {
    Emit::put(seq![0x08u8] + be32(count))
}

pub open spec fn emit_object_end() -> Emit {
    Emit::put(seq![0x00u8, 0x00u8, 0x09u8])
}

pub open spec fn emit_strict_array_start(count: u32) -> Emit {
    Emit::put(seq![0x0Au8] + be32(count))
}

pub open spec fn emit_date(time_ms: Double, tz: i16) -> Emit {
    Emit::put(seq![0x0Bu8] + be64(time_ms.bits) + be16(unsigned16(tz)))
}

pub open spec fn emit_xml(s: Seq<char>) -> Emit {
    if encode_utf8(s).len() > 0xFFFF_FFFF {
        Emit::stop(Fault::Amf0XmlTooLong)
    } else {
        Emit::put(seq![0x0Fu8] + be32(encode_utf8(s).len() as u32) + encode_utf8(s))
    }
}

/// Numbers, one behind the other.
pub open spec fn emit_numbers(s: Seq<Double>) -> Emit
    decreases s.len(),
{
    if s.len() == 0 {
        Emit::put(Seq::empty())
    } else {
        emit_numbers(s.drop_last()).and(emit_number(s.last()))
    }
}

/// Strings, one behind the other.
pub open spec fn emit_strings(s: Seq<Seq<char>>) -> Emit
    decreases s.len(),
{
    if s.len() == 0 {
        Emit::put(Seq::empty())
    } else {
        emit_strings(s.drop_last()).and(emit_string(s.last()))
    }
}

pub open spec fn emit_strict_array_number(s: Seq<Double>) -> Emit {
    if s.len() > 0xFFFF_FFFF {
        Emit::stop(Fault::Amf0ArrayTooLong)
    } else {
        emit_strict_array_start(s.len() as u32).and(emit_numbers(s))
    }
}

pub open spec fn emit_strict_array_string(s: Seq<Seq<char>>) -> Emit {
    if s.len() > 0xFFFF_FFFF {
        Emit::stop(Fault::Amf0ArrayTooLong)
    } else {
        emit_strict_array_start(s.len() as u32).and(emit_strings(s))
    }
}

// ---- writing --------------------------------------------------------------

/// Appends a number.
pub fn write_number(out: &mut Vec<u8>, n: Double) -> (r: Result<(), Error>)
    ensures
        wrote(old(out)@, final(out)@, r, emit_number(n)),
{
    out.push(0x00);
    push_u64(out, n.bits);
    assert(out@ =~= old(out)@ + emit_number(n).bytes);
    Ok(())
}

/// Appends a boolean.
pub fn write_boolean(out: &mut Vec<u8>, b: bool) -> (r: Result<(), Error>)
    ensures
        wrote(old(out)@, final(out)@, r, emit_boolean(b)),
{
    out.push(0x01);
    out.push(
        if b {
            1
        } else {
            0
        },
    );
    assert(out@ =~= old(out)@ + emit_boolean(b).bytes);
    Ok(())
}

/// Appends a bare property name, as it stands before each value of an object.
pub fn write_property_name(out: &mut Vec<u8>, name: &str) -> (r: Result<(), Error>)
    ensures
        wrote(old(out)@, final(out)@, r, emit_name(name@)),
{
    let bytes = name.as_bytes();
    if bytes.len() > 0xFFFF {
        assert(out@ =~= old(out)@ + Seq::<u8>::empty());
        return Err(Error::InvalidData(Fault::Amf0StringTooLong));
    }
    push_u16(out, bytes.len() as u16);
    push_bytes(out, bytes);
    assert(out@ =~= old(out)@ + emit_name(name@).bytes);
    Ok(())
}

/// Appends a string of at most 65535 bytes.
pub fn write_string(out: &mut Vec<u8>, s: &str) -> (r: Result<(), Error>)
    ensures
        wrote(old(out)@, final(out)@, r, emit_string(s@)),
{
    out.push(0x02);
    let ghost b = out@;
    let r = write_property_name(out, s);
    proof {
        assert(b =~= old(out)@ + seq![0x02u8]);
        lemma_wrote_and(old(out)@, b, out@, Ok(()), r, Emit::put(seq![0x02u8]), emit_name(s@));
    }
    r
}

/// Opens an object. Names and values follow, and then [`write_object_end`].
pub fn write_object_start(out: &mut Vec<u8>) -> (r: Result<(), Error>)
    ensures
        wrote(old(out)@, final(out)@, r, emit_object_start()),
{
    out.push(0x03);
    assert(out@ =~= old(out)@ + emit_object_start().bytes);
    Ok(())
}

/// Appends a null value.
pub fn write_null(out: &mut Vec<u8>) -> (r: Result<(), Error>)
    ensures
        wrote(old(out)@, final(out)@, r, emit_null()),
{
    out.push(0x05);
    assert(out@ =~= old(out)@ + emit_null().bytes);
    Ok(())
}

/// Appends an undefined value.
pub fn write_undefined(out: &mut Vec<u8>) -> (r: Result<(), Error>)
    ensures
        wrote(old(out)@, final(out)@, r, emit_undefined()),
{
    out.push(0x06);
    assert(out@ =~= old(out)@ + emit_undefined().bytes);
    Ok(())
}

/// Opens an associative array with a count, which readers take as a hint.
pub fn write_ecma_array_start(out: &mut Vec<u8>, count: u32) -> (r: Result<(), Error>)
    ensures
        wrote(old(out)@, final(out)@, r, emit_ecma_array_start(count)),
{
    out.push(0x08);
    push_u32(out, count);
    assert(out@ =~= old(out)@ + emit_ecma_array_start(count).bytes);
    Ok(())
}

/// Closes an object or an associative array.
pub fn write_object_end(out: &mut Vec<u8>) -> (r: Result<(), Error>)
    ensures
        wrote(old(out)@, final(out)@, r, emit_object_end()),
{
    out.push(0x00);
    out.push(0x00);
    out.push(0x09);
    assert(out@ =~= old(out)@ + emit_object_end().bytes);
    Ok(())
}

/// Opens an array of `count` values.
pub fn write_strict_array_start(out: &mut Vec<u8>, count: u32) -> (r: Result<(), Error>)
    ensures
        wrote(old(out)@, final(out)@, r, emit_strict_array_start(count)),
{
    out.push(0x0A);
    push_u32(out, count);
    assert(out@ =~= old(out)@ + emit_strict_array_start(count).bytes);
    Ok(())
}

/// Appends a date: milliseconds since the epoch, and minutes east of UTC.
pub fn write_date(out: &mut Vec<u8>, time_ms: Double, tz: i16) -> (r: Result<(), Error>)
    ensures
        wrote(old(out)@, final(out)@, r, emit_date(time_ms, tz)),
{
    out.push(0x0B);
    push_u64(out, time_ms.bits);
    let u: u16 = if tz < 0 {
        (tz as i32 + 0x1_0000) as u16
    } else {
        tz as u16
    };
    push_u16(out, u);
    assert(out@ =~= old(out)@ + emit_date(time_ms, tz).bytes);
    Ok(())
}

/// Appends the text of an XML document.
pub fn write_xml(out: &mut Vec<u8>, s: &str) -> (r: Result<(), Error>)
    ensures
        wrote(old(out)@, final(out)@, r, emit_xml(s@)),
{
    let bytes = s.as_bytes();
    if bytes.len() as u64 > 0xFFFF_FFFF {
        assert(out@ =~= old(out)@ + Seq::<u8>::empty());
        return Err(Error::InvalidData(Fault::Amf0XmlTooLong));
    }
    out.push(0x0F);
    push_u32(out, bytes.len() as u32);
    push_bytes(out, bytes);
    assert(out@ =~= old(out)@ + emit_xml(s@).bytes);
    Ok(())
}

/// Appends an array of numbers.
pub fn write_strict_array_number(out: &mut Vec<u8>, values: &[Double]) -> (r: Result<(), Error>)
    ensures
        wrote(old(out)@, final(out)@, r, emit_strict_array_number(values@)),
{
    if values.len() as u64 > 0xFFFF_FFFF {
        assert(out@ =~= old(out)@ + Seq::<u8>::empty());
        return Err(Error::InvalidData(Fault::Amf0ArrayTooLong));
    }
    let n: u32 = values.len() as u32;
    write_strict_array_start(out, n)?;
    let mut i: usize = 0;
    let ghost head = emit_strict_array_start(n);
    proof {
        assert(emit_numbers(values@.take(0)) == Emit::put(Seq::empty()));
        assert(head.and(emit_numbers(values@.take(0))) =~= head);
    }
    while i < values.len()
        invariant
            i <= values.len(),
            wrote(old(out)@, out@, Ok(()), head.and(emit_numbers(values@.take(i as int)))),
            head.fault is None,
        decreases values.len() - i,
    {
        let ghost b = out@;
        let ghost done = emit_numbers(values@.take(i as int));
        let ghost more = emit_number(values@[i as int]);
        let r = write_number(out, values[i]);
        proof {
            lemma_wrote_and(old(out)@, b, out@, Ok(()), r, head.and(done), more);
            assert(values@.take(i + 1).drop_last() =~= values@.take(i as int));
            assert(head.and(done).and(more) =~= head.and(done.and(more)));
        }
        i += 1;
    }
    assert(values@.take(i as int) =~= values@);
    Ok(())
}

/// Appends an array of strings.
pub fn write_strict_array_string(out: &mut Vec<u8>, values: &Vec<String>) -> (r: Result<(), Error>)
    ensures
        wrote(old(out)@, final(out)@, r, emit_strict_array_string(texts_view(values@))),
{
    if values.len() as u64 > 0xFFFF_FFFF {
        assert(out@ =~= old(out)@ + Seq::<u8>::empty());
        return Err(Error::InvalidData(Fault::Amf0ArrayTooLong));
    }
    let n: u32 = values.len() as u32;
    write_strict_array_start(out, n)?;
    let mut i: usize = 0;
    let ghost head = emit_strict_array_start(n);
    let ghost all = texts_view(values@);
    proof {
        assert(emit_strings(all.take(0)) == Emit::put(Seq::empty()));
        assert(head.and(emit_strings(all.take(0))) =~= head);
    }
    while i < values.len()
        invariant
            i <= values.len(),
            all == texts_view(values@),
            wrote(old(out)@, out@, Ok(()), head.and(emit_strings(all.take(i as int)))),
            head.fault is None,
            head == emit_strict_array_start(all.len() as u32),
            all.len() <= 0xFFFF_FFFF,
        decreases values.len() - i,
    {
        let ghost b = out@;
        let ghost done = emit_strings(all.take(i as int));
        let ghost more = emit_string(all[i as int]);
        let r = write_string(out, values[i].as_str());
        proof {
            lemma_wrote_and(old(out)@, b, out@, Ok(()), r, head.and(done), more);
            assert(all.take(i + 1).drop_last() =~= all.take(i as int));
            assert(head.and(done).and(more) =~= head.and(done.and(more)));
            if r is Err {
                lemma_strings_stop(all, i + 1);
            }
        }
        r?;
        i += 1;
    }
    assert(all.take(i as int) =~= all);
    Ok(())
}

/// Once a string does not fit, the strings behind it make no difference.
proof fn lemma_strings_stop(s: Seq<Seq<char>>, n: int)
    requires
        0 <= n <= s.len(),
        emit_strings(s.take(n)).fault is Some,
    ensures
        emit_strings(s) == emit_strings(s.take(n)),
    decreases s.len() - n,
{
    if n == s.len() {
        assert(s.take(n) =~= s);
    } else {
        assert(s.take(n + 1).drop_last() =~= s.take(n));
        lemma_strings_stop(s, n + 1);
    }
}

} // verus!
