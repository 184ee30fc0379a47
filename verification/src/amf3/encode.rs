//! Writing AMF3.
//!
//! Every complex value is written out in full. Text is written out once and after that as an
//! index into the string table, which grows just as it does for a reader.
use vstd::prelude::*;
use vstd::string::*;
use vstd::utf8::*;
use crate::amf3::{items_view, pairs_view, texts_view, lemma_texts_push, Amf3Array, Amf3Object, Amf3Tree,
    Amf3Value, U29_LEN_MAX, U29_MAX};
use crate::error::{Error, Fault};
use crate::text::same_text;
use crate::wire::{be64, outcome, push_bytes, push_u64};

verus! {

// ---- what is written ------------------------------------------------------

/// What a writer does: the bytes it appends, the fault that stops it, if one does, and the
/// string table behind it.
#[verifier::ext_equal]
pub struct Emit3 {
    pub bytes: Seq<u8>,
    pub fault: Option<Fault>,
    pub strings: Seq<Seq<char>>,
}

impl Emit3 {
    /// Appends `bytes` and leaves the table alone.
    pub open spec fn put(bytes: Seq<u8>, strings: Seq<Seq<char>>) -> Emit3 {
        Emit3 { bytes, fault: None, strings }
    }

    /// Appends nothing and stops.
    pub open spec fn stop(fault: Fault, strings: Seq<Seq<char>>) -> Emit3 {
        Emit3 { bytes: Seq::empty(), fault: Some(fault), strings }
    }

    /// This, and `next` behind it unless this stopped.
    pub open spec fn and(self, next: Emit3) -> Emit3 {
        if self.fault is Some {
            self
        } else {
            Emit3 { bytes: self.bytes + next.bytes, fault: next.fault, strings: next.strings }
        }
    }
}

/// A variable-length integer in the fewest bytes.
pub open spec fn u29_bytes(v: int) -> Seq<u8> {
    if v < 0x80 {
        seq![v as u8]
    } else if v < 0x4000 {
        seq![(v / 0x80 + 128) as u8, (v % 0x80) as u8]
    } else if v < 0x20_0000 {
        seq![(v / 0x4000 + 128) as u8, (v / 0x80 % 0x80 + 128) as u8, (v % 0x80) as u8]
    } else {
        seq![
            (v / 0x40_0000 + 128) as u8,
            (v / 0x8000 % 0x80 + 128) as u8,
            (v / 0x100 % 0x80 + 128) as u8,
            (v % 0x100) as u8,
        ]
    }
}

/// A length with the flag that says that the thing itself follows.
pub open spec fn length_bytes(len: nat) -> Seq<u8> {
    u29_bytes(2 * len as int + 1)
}

/// The first place of `s` in the table, from `from` on.
pub open spec fn lookup(strings: Seq<Seq<char>>, s: Seq<char>, from: int) -> Option<int>
    decreases strings.len() - from,
{
    if !(0 <= from < strings.len()) {
        None
    } else if strings[from] == s {
        Some(from)
    } else {
        lookup(strings, s, from + 1)
    }
}

/// Text: empty, an index, or the text itself, which joins the table.
pub open spec fn emit_text(s: Seq<char>, strings: Seq<Seq<char>>) -> Emit3 {
    if s.len() == 0 {
        Emit3::put(u29_bytes(1), strings)
    } else {
        match lookup(strings, s, 0) {
            Some(i) => if i > U29_MAX / 2 {
                Emit3::stop(Fault::Amf3StringIndexTooLarge, strings)
            } else {
                Emit3::put(u29_bytes(2 * i), strings)
            },
            None => if encode_utf8(s).len() > U29_LEN_MAX {
                Emit3::stop(Fault::Amf3StringTooLong, strings)
            } else {
                Emit3::put(
                    length_bytes(encode_utf8(s).len()) + encode_utf8(s),
                    strings.push(s),
                )
            },
        }
    }
}

/// A run of texts.
pub open spec fn emit_texts(s: Seq<Seq<char>>, strings: Seq<Seq<char>>) -> Emit3
    decreases s.len(),
{
    if s.len() == 0 {
        Emit3::put(Seq::empty(), strings)
    } else {
        let head = emit_text(s[0], strings);
        head.and(emit_texts(s.drop_first(), head.strings))
    }
}

/// Text that no table holds.
pub open spec fn emit_xml(s: Seq<char>, strings: Seq<Seq<char>>) -> Emit3 {
    if encode_utf8(s).len() > U29_LEN_MAX {
        Emit3::stop(Fault::Amf3XmlTooLong, strings)
    } else {
        Emit3::put(length_bytes(encode_utf8(s).len()) + encode_utf8(s), strings)
    }
}

/// The header of an object with `count` declared members.
pub open spec fn object_header(count: int, dynamic: bool) -> int {
    16 * count + (if dynamic {
        8int
    } else {
        0
    }) + 3
}

/// A signed number of 29 bits.
pub open spec fn emit_integer(i: i32, strings: Seq<Seq<char>>) -> Emit3 {
    if -0x1000_0000 <= i < 0x1000_0000 {
        Emit3::put(
            u29_bytes(
                if i < 0 {
                    i + 0x2000_0000
                } else {
                    i as int
                },
            ),
            strings,
        )
    } else {
        Emit3::stop(Fault::Amf3IntegerTooWide, strings)
    }
}

/// A run of bytes behind its length.
pub open spec fn emit_byte_array(b: Seq<u8>, strings: Seq<Seq<char>>) -> Emit3 {
    if b.len() > U29_LEN_MAX {
        Emit3::stop(Fault::Amf3BytesTooLong, strings)
    } else {
        Emit3::put(length_bytes(b.len()) + b, strings)
    }
}

/// A value with its marker.
pub open spec fn emit_value(v: Amf3Tree, strings: Seq<Seq<char>>) -> Emit3
    decreases v, 1int,
{
    match v {
        Amf3Tree::Undefined => Emit3::put(seq![0x00u8], strings),
        Amf3Tree::Null => Emit3::put(seq![0x01u8], strings),
        Amf3Tree::Boolean(b) => Emit3::put(
            seq![
                if b {
                    0x03u8
                } else {
                    0x02u8
                },
            ],
            strings,
        ),
        Amf3Tree::Integer(i) => Emit3::put(seq![0x04u8], strings).and(emit_integer(i, strings)),
        Amf3Tree::Double(d) => Emit3::put(seq![0x05u8] + be64(d.bits), strings),
        Amf3Tree::String(s) => Emit3::put(seq![0x06u8], strings).and(emit_text(s, strings)),
        Amf3Tree::XmlDocument(s) => Emit3::put(seq![0x07u8], strings).and(emit_xml(s, strings)),
        Amf3Tree::Date(d) => Emit3::put(seq![0x08u8, 0x01u8] + be64(d.bits), strings),
        Amf3Tree::Array { .. } => Emit3::put(seq![0x09u8], strings).and(emit_array(v, strings)),
        Amf3Tree::Object { .. } => Emit3::put(seq![0x0Au8], strings).and(emit_object(v, strings)),
        Amf3Tree::Xml(s) => Emit3::put(seq![0x0Bu8], strings).and(emit_xml(s, strings)),
        Amf3Tree::ByteArray(b) => Emit3::put(seq![0x0Cu8], strings).and(
            emit_byte_array(b, strings),
        ),
    }
}

/// What stands behind the marker of an array: the number of values in index order, the named
/// values, an empty name, and the values in index order.
pub open spec fn emit_array(v: Amf3Tree, strings: Seq<Seq<char>>) -> Emit3
    decreases v, 0int,
{
    match v {
        Amf3Tree::Array { assoc, dense } => if dense.len() > U29_LEN_MAX {
            Emit3::stop(Fault::Amf3DenseTooLong, strings)
        } else {
            let named = emit_pairs(assoc, strings, Fault::Amf3EmptyAssocKey);
            Emit3::put(length_bytes(dense.len()), strings).and(named).and(
                Emit3::put(u29_bytes(1), named.strings),
            ).and(emit_items(dense, named.strings))
        },
        _ => Emit3::put(Seq::empty(), strings),
    }
}

/// What stands behind the marker of an object: its class layout, the values of the declared
/// members, and the added members up to an empty name.
pub open spec fn emit_object(v: Amf3Tree, strings: Seq<Seq<char>>) -> Emit3
    decreases v, 0int,
{
    match v {
        Amf3Tree::Object {
            class_name,
            dynamic,
            externalizable,
            sealed_names,
            sealed_values,
            dynamic_members,
        } => if externalizable {
            Emit3::put(u29_bytes(7), strings).and(emit_text(class_name, strings))
        } else if sealed_names.len() != sealed_values.len() {
            Emit3::stop(Fault::Amf3SealedMismatch, strings)
        } else if object_header(sealed_names.len() as int, dynamic) > U29_MAX {
            Emit3::stop(Fault::Amf3TooManySealed, strings)
        } else {
            let class = emit_text(class_name, strings);
            let names = emit_texts(sealed_names, class.strings);
            let sealed = emit_items(sealed_values, names.strings);
            let fixed = Emit3::put(
                u29_bytes(object_header(sealed_names.len() as int, dynamic)),
                strings,
            ).and(class).and(names).and(sealed);
            if dynamic {
                let members = emit_pairs(
                    dynamic_members,
                    sealed.strings,
                    Fault::Amf3EmptyDynamicKey,
                );
                fixed.and(members).and(Emit3::put(u29_bytes(1), members.strings))
            } else {
                fixed
            }
        },
        _ => Emit3::put(Seq::empty(), strings),
    }
}

/// A run of values.
pub open spec fn emit_items(s: Seq<Amf3Tree>, strings: Seq<Seq<char>>) -> Emit3
    decreases s, 2int,
{
    if s.len() == 0 {
        Emit3::put(Seq::empty(), strings)
    } else {
        let head = emit_value(s[0], strings);
        head.and(emit_items(s.drop_first(), head.strings))
    }
}

/// A run of named values; an empty name, which would end the run, stops the writer.
pub open spec fn emit_pairs(
    s: Seq<(Seq<char>, Amf3Tree)>,
    strings: Seq<Seq<char>>,
    empty_key: Fault,
) -> Emit3
    decreases s, 2int,
{
    if s.len() == 0 {
        Emit3::put(Seq::empty(), strings)
    } else if s[0].0.len() == 0 {
        Emit3::stop(empty_key, strings)
    } else {
        let key = emit_text(s[0].0, strings);
        let head = key.and(emit_value(s[0].1, key.strings));
        head.and(emit_pairs(s.drop_first(), head.strings, empty_key))
    }
}

/// A message of one value.
pub open spec fn emit_message(v: Amf3Tree) -> Emit3 {
    emit_value(v, Seq::empty())
}

// ---- writing --------------------------------------------------------------

/// Texts already written in this message.
struct EncState {
    strings: Vec<String>,
}

/// The buffer, the table and the result are as `e` says.
spec fn wrote3(
    before: Seq<u8>,
    after: Seq<u8>,
    strings: Seq<Seq<char>>,
    r: Result<(), Error>,
    e: Emit3,
) -> bool {
    &&& after == before + e.bytes
    &&& strings == e.strings
    &&& r == outcome(e.fault)
}

/// One write behind another is the write of both.
broadcast proof fn lemma_wrote3_and(
    a: Seq<u8>,
    b: Seq<u8>,
    c: Seq<u8>,
    s: Seq<Seq<char>>,
    t: Seq<Seq<char>>,
    q: Result<(), Error>,
    r: Result<(), Error>,
    e: Emit3,
    f: Emit3,
)
    requires
        #[trigger] wrote3(a, b, s, q, e),
        q is Ok,
        #[trigger] wrote3(b, c, t, r, f),
    ensures
        wrote3(a, c, t, r, e.and(f)),
{
    assert(c =~= a + e.and(f).bytes);
}

impl EncState {
    spec fn view(&self) -> Seq<Seq<char>> {
        texts_view(self.strings@)
    }

    fn string_index(&self, s: &str) -> (r: Option<usize>)
        ensures
            match (r, lookup(self@, s@, 0)) {
                (Some(i), Some(j)) => i == j,
                (None, None) => true,
                _ => false,
            },
    {
        let mut i: usize = 0;
        while i < self.strings.len()
            invariant
                i <= self.strings.len(),
                lookup(self@, s@, 0) == lookup(self@, s@, i as int),
            decreases self.strings.len() - i,
        {
            if same_text(self.strings[i].as_str(), s) {
                return Some(i);
            }
            i += 1;
        }
        None
    }
}

/// Appends a variable-length integer.
pub fn write_u29(out: &mut Vec<u8>, v: u32)
    requires
        v <= U29_MAX,
    ensures
        final(out)@ == old(out)@ + u29_bytes(v as int),
{
    if v < 0x80 {
        out.push(v as u8);
    } else if v < 0x4000 {
        out.push((v / 0x80 + 128) as u8);
        out.push((v % 0x80) as u8);
    } else if v < 0x20_0000 {
        out.push((v / 0x4000 + 128) as u8);
        out.push((v / 0x80 % 0x80 + 128) as u8);
        out.push((v % 0x80) as u8);
    } else {
        out.push((v / 0x40_0000 + 128) as u8);
        out.push((v / 0x8000 % 0x80 + 128) as u8);
        out.push((v / 0x100 % 0x80 + 128) as u8);
        out.push((v % 0x100) as u8);
    }
    assert(out@ =~= old(out)@ + u29_bytes(v as int));
}

fn write_utf8_vr(out: &mut Vec<u8>, s: &str, state: &mut EncState) -> (r: Result<(), Error>)
    ensures
        wrote3(old(out)@, final(out)@, final(state)@, r, emit_text(s@, old(state)@)),
{
    if s.is_empty() {
        write_u29(out, 1);
        return Ok(());
    }
    if let Some(i) = state.string_index(s) {
        if i > (U29_MAX / 2) as usize {
            assert(out@ =~= old(out)@ + Seq::<u8>::empty());
            return Err(Error::InvalidData(Fault::Amf3StringIndexTooLarge));
        }
        write_u29(out, i as u32 * 2);
        return Ok(());
    }
    let bytes = s.as_bytes();
    if bytes.len() > U29_LEN_MAX {
        assert(out@ =~= old(out)@ + Seq::<u8>::empty());
        return Err(Error::InvalidData(Fault::Amf3StringTooLong));
    }
    write_u29(out, bytes.len() as u32 * 2 + 1);
    push_bytes(out, bytes);
    let k = s.to_owned();
    proof {
        lemma_texts_push(state.strings@, k);
        assert(out@ =~= old(out)@ + (length_bytes(bytes@.len()) + bytes@));
    }
    state.strings.push(k);
    Ok(())
}

fn write_xml_like(out: &mut Vec<u8>, s: &str, state: &EncState) -> (r: Result<(), Error>)
    ensures
        wrote3(old(out)@, final(out)@, state@, r, emit_xml(s@, state@)),
{
    let bytes = s.as_bytes();
    if bytes.len() > U29_LEN_MAX {
        assert(out@ =~= old(out)@ + Seq::<u8>::empty());
        return Err(Error::InvalidData(Fault::Amf3XmlTooLong));
    }
    write_u29(out, bytes.len() as u32 * 2 + 1);
    push_bytes(out, bytes);
    assert(out@ =~= old(out)@ + (length_bytes(bytes@.len()) + bytes@));
    Ok(())
}

fn write_integer(out: &mut Vec<u8>, i: i32, state: &EncState) -> (r: Result<(), Error>)
    ensures
        wrote3(
            old(out)@,
            final(out)@,
            state@,
            r,
            emit_integer(i, state@),
        ),
{
    if i < -0x1000_0000 || i >= 0x1000_0000 {
        assert(out@ =~= old(out)@ + Seq::<u8>::empty());
        return Err(Error::InvalidData(Fault::Amf3IntegerTooWide));
    }
    if i < 0 {
        write_u29(out, (i as i64 + 0x2000_0000) as u32);
    } else {
        write_u29(out, i as u32);
    }
    Ok(())
}

fn write_texts(out: &mut Vec<u8>, s: &Vec<String>, state: &mut EncState) -> (r: Result<(), Error>)
    ensures
        wrote3(
            old(out)@,
            final(out)@,
            final(state)@,
            r,
            emit_texts(texts_view(s@), old(state)@),
        ),
{
    let ghost all = texts_view(s@);
    let ghost mut done = Emit3::put(Seq::empty(), state@);
    let mut i: usize = 0;
    proof {
        assert(all.skip(0) =~= all);
        let whole = emit_texts(all, state@);
        assert(done.and(whole) =~= whole);
        assert(out@ =~= out@ + Seq::<u8>::empty());
    }
    while i < s.len()
        invariant
            i <= s.len(),
            all == texts_view(s@),
            wrote3(old(out)@, out@, state@, Ok(()), done),
            emit_texts(all, old(state)@) == done.and(emit_texts(all.skip(i as int), done.strings)),
        decreases s.len() - i,
    {
        let ghost rest = all.skip(i as int);
        let ghost head = emit_text(rest[0], state@);
        proof {
            assert(rest.drop_first() =~= all.skip(i + 1));
            let more = emit_texts(all.skip(i + 1), head.strings);
            assert(done.and(head.and(more)) =~= done.and(head).and(more));
        }
        assert(rest[0] == s@[i as int]@);
        let ghost b = out@;
        let ghost t = state@;
        let r = write_utf8_vr(out, s[i].as_str(), state);
        proof {
            lemma_wrote3_and(old(out)@, b, out@, t, state@, Ok(()), r, done, head);
        }
        r?;
        proof {
            done = done.and(head);
        }
        i += 1;
    }
    assert(done.and(emit_texts(all.skip(i as int), done.strings)) =~= done);
    Ok(())
}

fn write_items(out: &mut Vec<u8>, s: &Vec<Amf3Value>, state: &mut EncState) -> (r: Result<
    (),
    Error,
>)
    ensures
        wrote3(
            old(out)@,
            final(out)@,
            final(state)@,
            r,
            emit_items(items_view(s@), old(state)@),
        ),
    decreases s, 2int,
{
    let ghost all = items_view(s@);
    let ghost mut done = Emit3::put(Seq::empty(), state@);
    let mut i: usize = 0;
    proof {
        assert(all.skip(0) =~= all);
        let whole = emit_items(all, state@);
        assert(done.and(whole) =~= whole);
        assert(out@ =~= out@ + Seq::<u8>::empty());
    }
    while i < s.len()
        invariant
            i <= s.len(),
            all == items_view(s@),
            wrote3(old(out)@, out@, state@, Ok(()), done),
            emit_items(all, old(state)@) == done.and(emit_items(all.skip(i as int), done.strings)),
        decreases s.len() - i,
    {
        let ghost rest = all.skip(i as int);
        let ghost head = emit_value(rest[0], state@);
        proof {
            assert(decreases_to!(s => s@[i as int]));
            assert(rest.drop_first() =~= all.skip(i + 1));
            let more = emit_items(all.skip(i + 1), head.strings);
            assert(done.and(head.and(more)) =~= done.and(head).and(more));
        }
        assert(rest[0] == s@[i as int]@);
        let ghost b = out@;
        let ghost t = state@;
        let r = write_value(out, &s[i], state);
        proof {
            lemma_wrote3_and(old(out)@, b, out@, t, state@, Ok(()), r, done, head);
        }
        r?;
        proof {
            done = done.and(head);
        }
        i += 1;
    }
    assert(done.and(emit_items(all.skip(i as int), done.strings)) =~= done);
    Ok(())
}

fn write_pairs(
    out: &mut Vec<u8>,
    s: &Vec<(String, Amf3Value)>,
    state: &mut EncState,
    empty_key: Fault,
) -> (r: Result<(), Error>)
    ensures
        wrote3(
            old(out)@,
            final(out)@,
            final(state)@,
            r,
            emit_pairs(pairs_view(s@), old(state)@, empty_key),
        ),
    decreases s, 2int,
{
    let ghost all = pairs_view(s@);
    let ghost mut done = Emit3::put(Seq::empty(), state@);
    let mut i: usize = 0;
    proof {
        assert(all.skip(0) =~= all);
        let whole = emit_pairs(all, state@, empty_key);
        assert(done.and(whole) =~= whole);
        assert(out@ =~= out@ + Seq::<u8>::empty());
    }
    while i < s.len()
        invariant
            i <= s.len(),
            all == pairs_view(s@),
            wrote3(old(out)@, out@, state@, Ok(()), done),
            emit_pairs(all, old(state)@, empty_key) == done.and(
                emit_pairs(all.skip(i as int), done.strings, empty_key),
            ),
        decreases s.len() - i,
    {
        let ghost rest = all.skip(i as int);
        let ghost key = emit_text(rest[0].0, state@);
        let ghost head = key.and(emit_value(rest[0].1, key.strings));
        proof {
            assert(decreases_to!(s => s@[i as int].1));
            assert(rest.drop_first() =~= all.skip(i + 1));
            let more = emit_pairs(all.skip(i + 1), head.strings, empty_key);
            assert(done.and(head.and(more)) =~= done.and(head).and(more));
        }
        if s[i].0.as_str().is_empty() {
            assert(done.and(Emit3::stop(empty_key, done.strings)).bytes =~= done.bytes);
            return Err(Error::InvalidData(empty_key));
        }
        assert(rest[0] == (s@[i as int].0@, s@[i as int].1@));
        let ghost b = out@;
        let ghost t = state@;
        let r = write_utf8_vr(out, s[i].0.as_str(), state);
        proof {
            lemma_wrote3_and(old(out)@, b, out@, t, state@, Ok(()), r, done, key);
            assert(done.and(key).and(emit_value(rest[0].1, key.strings)) =~= done.and(head));
        }
        r?;
        let ghost b1 = out@;
        let ghost t1 = state@;
        let r = write_value(out, &s[i].1, state);
        proof {
            lemma_wrote3_and(
                old(out)@,
                b1,
                out@,
                t1,
                state@,
                Ok(()),
                r,
                done.and(key),
                emit_value(rest[0].1, key.strings),
            );
        }
        r?;
        proof {
            done = done.and(head);
        }
        i += 1;
    }
    assert(done.and(emit_pairs(all.skip(i as int), done.strings, empty_key)) =~= done);
    Ok(())
}

/// Appends a variable-length integer, as a write that leaves the table alone.
fn put_u29(out: &mut Vec<u8>, v: u32, state: &EncState)
    requires
        v <= U29_MAX,
    ensures
        wrote3(
            old(out)@,
            final(out)@,
            state@,
            Ok(()),
            Emit3::put(u29_bytes(v as int), state@),
        ),
{
    write_u29(out, v);
}

/// Appends a marker, as a write that leaves the table alone.
fn put_marker(out: &mut Vec<u8>, marker: u8, state: &EncState)
    ensures
        wrote3(old(out)@, final(out)@, state@, Ok(()), Emit3::put(seq![marker], state@)),
{
    out.push(marker);
    assert(out@ =~= old(out)@ + seq![marker]);
}

fn write_array(out: &mut Vec<u8>, arr: &Amf3Array, state: &mut EncState) -> (r: Result<(), Error>)
    ensures
        wrote3(old(out)@, final(out)@, final(state)@, r, emit_array(arr@, old(state)@)),
    decreases arr, 0int,
{
    broadcast use lemma_wrote3_and;

    if arr.dense.len() > U29_LEN_MAX {
        assert(out@ =~= old(out)@ + Seq::<u8>::empty());
        return Err(Error::InvalidData(Fault::Amf3DenseTooLong));
    }
    put_u29(out, arr.dense.len() as u32 * 2 + 1, state);
    write_pairs(out, &arr.assoc, state, Fault::Amf3EmptyAssocKey)?;
    put_u29(out, 1, state);
    write_items(out, &arr.dense, state)
}

fn write_object(out: &mut Vec<u8>, obj: &Amf3Object, state: &mut EncState) -> (r: Result<
    (),
    Error,
>)
    ensures
        wrote3(old(out)@, final(out)@, final(state)@, r, emit_object(obj@, old(state)@)),
    decreases obj, 0int,
{
    broadcast use lemma_wrote3_and;

    if obj.externalizable {
        put_u29(out, 7, state);
        return write_utf8_vr(out, obj.class_name.as_str(), state);
    }
    if obj.sealed_names.len() != obj.sealed_values.len() {
        assert(out@ =~= old(out)@ + Seq::<u8>::empty());
        return Err(Error::InvalidData(Fault::Amf3SealedMismatch));
    }
    let flags: u32 = if obj.dynamic {
        11
    } else {
        3
    };
    let count: usize = obj.sealed_names.len();
    if count > ((U29_MAX - flags) / 16) as usize {
        assert(out@ =~= old(out)@ + Seq::<u8>::empty());
        return Err(Error::InvalidData(Fault::Amf3TooManySealed));
    }
    put_u29(out, count as u32 * 16 + flags, state);
    write_utf8_vr(out, obj.class_name.as_str(), state)?;
    write_texts(out, &obj.sealed_names, state)?;
    write_items(out, &obj.sealed_values, state)?;
    if obj.dynamic {
        write_pairs(out, &obj.dynamic_members, state, Fault::Amf3EmptyDynamicKey)?;
        put_u29(out, 1, state);
    }
    Ok(())
}

fn write_bytes(out: &mut Vec<u8>, b: &Vec<u8>, state: &mut EncState) -> (r: Result<(), Error>)
    ensures
        wrote3(old(out)@, final(out)@, final(state)@, r, emit_byte_array(b@, old(state)@)),
{
    if b.len() > U29_LEN_MAX {
        assert(out@ =~= old(out)@ + Seq::<u8>::empty());
        return Err(Error::InvalidData(Fault::Amf3BytesTooLong));
    }
    write_u29(out, b.len() as u32 * 2 + 1);
    push_bytes(out, b.as_slice());
    assert(out@ =~= old(out)@ + (length_bytes(b@.len()) + b@));
    Ok(())
}

fn write_value(out: &mut Vec<u8>, value: &Amf3Value, state: &mut EncState) -> (r: Result<
    (),
    Error,
>)
    ensures
        wrote3(old(out)@, final(out)@, final(state)@, r, emit_value(value@, old(state)@)),
    decreases value, 1int,
{
    match value {
        Amf3Value::Undefined => {
            put_marker(out, 0x00, state);
            Ok(())
        },
        Amf3Value::Null => {
            put_marker(out, 0x01, state);
            Ok(())
        },
        Amf3Value::Boolean(b) => {
            let marker: u8 = if *b {
                0x03
            } else {
                0x02
            };
            put_marker(out, marker, state);
            Ok(())
        },
        Amf3Value::Integer(i) => {
            put_marker(out, 0x04, state);
            let ghost lead = out@;
            let r = write_integer(out, *i, state);
            proof {
                lemma_wrote3_and(
                    old(out)@,
                    lead,
                    out@,
                    old(state)@,
                    state@,
                    Ok(()),
                    r,
                    Emit3::put(seq![0x04u8], old(state)@),
                    emit_integer(*i, old(state)@),
                );
            }
            r
        },
        Amf3Value::Double(d) => {
            out.push(0x05);
            push_u64(out, d.bits);
            assert(out@ =~= old(out)@ + (seq![0x05u8] + be64(d.bits)));
            Ok(())
        },
        Amf3Value::String(s) => {
            put_marker(out, 0x06, state);
            let ghost lead = out@;
            let r = write_utf8_vr(out, s.as_str(), state);
            proof {
                lemma_wrote3_and(
                    old(out)@,
                    lead,
                    out@,
                    old(state)@,
                    state@,
                    Ok(()),
                    r,
                    Emit3::put(seq![0x06u8], old(state)@),
                    emit_text(s@, old(state)@),
                );
            }
            r
        },
        Amf3Value::XmlDocument(s) => {
            put_marker(out, 0x07, state);
            let ghost lead = out@;
            let r = write_xml_like(out, s.as_str(), state);
            proof {
                lemma_wrote3_and(
                    old(out)@,
                    lead,
                    out@,
                    old(state)@,
                    state@,
                    Ok(()),
                    r,
                    Emit3::put(seq![0x07u8], old(state)@),
                    emit_xml(s@, old(state)@),
                );
            }
            r
        },
        Amf3Value::Date(d) => {
            out.push(0x08);
            out.push(0x01);
            push_u64(out, d.bits);
            assert(out@ =~= old(out)@ + (seq![0x08u8, 0x01u8] + be64(d.bits)));
            Ok(())
        },
        Amf3Value::Array(a) => {
            put_marker(out, 0x09, state);
            let ghost lead = out@;
            let r = write_array(out, a, state);
            proof {
                lemma_wrote3_and(
                    old(out)@,
                    lead,
                    out@,
                    old(state)@,
                    state@,
                    Ok(()),
                    r,
                    Emit3::put(seq![0x09u8], old(state)@),
                    emit_array(value@, old(state)@),
                );
            }
            r
        },
        Amf3Value::Object(o) => {
            put_marker(out, 0x0A, state);
            let ghost lead = out@;
            let r = write_object(out, o, state);
            proof {
                lemma_wrote3_and(
                    old(out)@,
                    lead,
                    out@,
                    old(state)@,
                    state@,
                    Ok(()),
                    r,
                    Emit3::put(seq![0x0Au8], old(state)@),
                    emit_object(value@, old(state)@),
                );
            }
            r
        },
        Amf3Value::Xml(s) => {
            put_marker(out, 0x0B, state);
            let ghost lead = out@;
            let r = write_xml_like(out, s.as_str(), state);
            proof {
                lemma_wrote3_and(
                    old(out)@,
                    lead,
                    out@,
                    old(state)@,
                    state@,
                    Ok(()),
                    r,
                    Emit3::put(seq![0x0Bu8], old(state)@),
                    emit_xml(s@, old(state)@),
                );
            }
            r
        },
        Amf3Value::ByteArray(b) => {
            put_marker(out, 0x0C, state);
            let ghost lead = out@;
            let r = write_bytes(out, b, state);
            proof {
                lemma_wrote3_and(
                    old(out)@,
                    lead,
                    out@,
                    old(state)@,
                    state@,
                    Ok(()),
                    r,
                    Emit3::put(seq![0x0Cu8], old(state)@),
                    emit_byte_array(b@, old(state)@),
                );
            }
            r
        },
    }
}

/// Appends a message of one value, with a string table of its own.
///
/// Where the value has no encoding, the bytes up to the fault stay in `out`.
pub fn write_amf3_value(out: &mut Vec<u8>, value: &Amf3Value) -> (r: Result<(), Error>)
    ensures
        final(out)@ == old(out)@ + emit_message(value@).bytes,
        r == outcome(emit_message(value@).fault),
{
    let mut state = EncState { strings: Vec::new() };
    assert(state@ =~= Seq::<Seq<char>>::empty());
    write_value(out, value, &mut state)
}

} // verus!
