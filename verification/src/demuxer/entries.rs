//! The metadata of a file: a list of keys and what stands under them.
//!
//! Values that hold others are laid flat: an object under `a` becomes `a.b`, `a.c` and so on, an
//! array `a[0]`, `a[1]` and so on.
use vstd::prelude::*;
use vstd::string::*;
use crate::amf0::{items_view, pairs_view, AmfTree, AmfValue};
use crate::amf3::{Amf3Tree, Amf3Value};
use crate::double::{of_signed, Double};
use crate::text::{decimal, push_decimal, texts_view};

verus! {

/// What stands under a key.
#[derive(Debug, PartialEq, Eq)]
pub enum EntryValue {
    Text(String),
    Number(Double),
    Date {
        /// Milliseconds since the epoch.
        time_ms: Double,
        /// Minutes east of UTC.
        tz: i16,
    },
}

/// What stands under a key, apart from how it is held in memory.
pub enum Leaf {
    Text(Seq<char>),
    Number(Double),
    Date { time_ms: Double, tz: i16 },
}

impl View for EntryValue {
    type V = Leaf;

    open spec fn view(&self) -> Leaf {
        match self {
            EntryValue::Text(s) => Leaf::Text(s@),
            EntryValue::Number(n) => Leaf::Number(*n),
            EntryValue::Date { time_ms, tz } => Leaf::Date { time_ms: *time_ms, tz: *tz },
        }
    }
}

/// A key and what stands under it.
#[derive(Debug, PartialEq, Eq)]
pub struct Entry {
    pub key: String,
    pub value: EntryValue,
}

impl View for Entry {
    type V = (Seq<char>, Leaf);

    open spec fn view(&self) -> (Seq<char>, Leaf) {
        (self.key@, self.value@)
    }
}

impl Clone for Entry {
    fn clone(&self) -> (r: Self)
        ensures
            r@ == self@,
    {
        let value = match &self.value {
            EntryValue::Text(s) => EntryValue::Text(s.clone()),
            EntryValue::Number(n) => EntryValue::Number(*n),
            EntryValue::Date { time_ms, tz } => EntryValue::Date { time_ms: *time_ms, tz: *tz },
        };
        Entry { key: self.key.clone(), value }
    }
}

/// The entries of a run.
pub open spec fn entries_view(s: Seq<Entry>) -> Seq<(Seq<char>, Leaf)> {
    Seq::new(s.len(), |i: int| s[i]@)
}

/// A copy of a run of entries.
pub(crate) fn clone_entries(s: &Vec<Entry>) -> (r: Vec<Entry>)
    ensures
        entries_view(r@) == entries_view(s@),
{
    let mut out: Vec<Entry> = Vec::new();
    let mut i: usize = 0;
    while i < s.len()
        invariant
            i <= s@.len(),
            out@.len() == i,
            forall|j: int| 0 <= j < i ==> out@[j]@ == s@[j]@,
        decreases s@.len() - i,
    {
        out.push(s[i].clone());
        i += 1;
    }
    assert(entries_view(out@) =~= entries_view(s@));
    out
}

/// Adds an entry.
pub(crate) fn push_entry(out: &mut Vec<Entry>, key: &str, value: EntryValue)
    ensures
        entries_view(final(out)@) == entries_view(old(out)@).push((key@, value@)),
{
    out.push(Entry { key: key.to_string(), value });
    assert(entries_view(out@) =~= entries_view(old(out)@).push((key@, value@)));
}

/// Adds an entry that is a text.
pub(crate) fn push_text(out: &mut Vec<Entry>, key: &str, text: &str)
    ensures
        entries_view(final(out)@) == entries_view(old(out)@).push((key@, Leaf::Text(text@))),
{
    push_entry(out, key, EntryValue::Text(text.to_string()));
}

/// The key of a member.
pub open spec fn member_key(prefix: Seq<char>, name: Seq<char>) -> Seq<char> {
    prefix + "."@ + name
}

/// The key of an item.
pub open spec fn item_key(prefix: Seq<char>, index: nat) -> Seq<char> {
    prefix + "["@ + decimal(index) + "]"@
}

/// The word for a truth value.
pub open spec fn truth(b: bool) -> Seq<char> {
    if b {
        "true"@
    } else {
        "false"@
    }
}

fn make_member_key(prefix: &str, name: &str) -> (r: String)
    ensures
        r@ == member_key(prefix@, name@),
{
    let mut k = prefix.to_string();
    k.append(".");
    k.append(name);
    k
}

fn make_item_key(prefix: &str, index: usize) -> (r: String)
    ensures
        r@ == item_key(prefix@, index as nat),
{
    let mut k = prefix.to_string();
    k.append("[");
    push_decimal(&mut k, index as u64);
    k.append("]");
    k
}

fn truth_text(b: bool) -> (r: &'static str)
    ensures
        r@ == truth(b),
{
    if b {
        "true"
    } else {
        "false"
    }
}

// ---- AMF3 -----------------------------------------------------------------

/// An AMF3 value laid flat. Of a run of bytes only the number is kept; of an object whose class
/// writes its own body, nothing.
pub open spec fn flat3(v: Amf3Tree, prefix: Seq<char>) -> Seq<(Seq<char>, Leaf)>
    decreases v, 1int,
{
    match v {
        Amf3Tree::Undefined => seq![(prefix, Leaf::Text("undefined"@))],
        Amf3Tree::Null => seq![(prefix, Leaf::Text("null"@))],
        Amf3Tree::Boolean(b) => seq![(prefix, Leaf::Text(truth(b)))],
        Amf3Tree::Integer(i) => seq![(prefix, Leaf::Number(of_signed(i as int)))],
        Amf3Tree::Double(d) => seq![(prefix, Leaf::Number(d))],
        Amf3Tree::String(s) => seq![(prefix, Leaf::Text(s))],
        Amf3Tree::XmlDocument(s) => seq![(prefix, Leaf::Text(s))],
        Amf3Tree::Date(d) => seq![(prefix, Leaf::Date { time_ms: d, tz: 0 })],
        Amf3Tree::Array { assoc, dense } => flat3_pairs(assoc, prefix) + flat3_items(
            dense,
            prefix,
            0,
        ),
        Amf3Tree::Object {
            class_name,
            dynamic,
            externalizable,
            sealed_names,
            sealed_values,
            dynamic_members,
        } => flat3_members(sealed_names, sealed_values, prefix) + flat3_pairs(
            dynamic_members,
            prefix,
        ),
        Amf3Tree::Xml(s) => seq![(prefix, Leaf::Text(s))],
        Amf3Tree::ByteArray(b) => seq![(prefix, Leaf::Text("bytes:"@ + decimal(b.len())))],
    }
}

/// Named values, each under its name.
pub open spec fn flat3_pairs(s: Seq<(Seq<char>, Amf3Tree)>, prefix: Seq<char>) -> Seq<
    (Seq<char>, Leaf),
>
    decreases s, 0int,
{
    if s.len() == 0 {
        Seq::empty()
    } else {
        flat3(s[0].1, member_key(prefix, s[0].0)) + flat3_pairs(s.drop_first(), prefix)
    }
}

/// Values by index, the first under `from`.
pub open spec fn flat3_items(s: Seq<Amf3Tree>, prefix: Seq<char>, from: nat) -> Seq<
    (Seq<char>, Leaf),
>
    decreases s, 0int,
{
    if s.len() == 0 {
        Seq::empty()
    } else {
        flat3(s[0], item_key(prefix, from)) + flat3_items(s.drop_first(), prefix, from + 1)
    }
}

/// Values under the names in another run.
pub open spec fn flat3_members(
    names: Seq<Seq<char>>,
    values: Seq<Amf3Tree>,
    prefix: Seq<char>,
) -> Seq<(Seq<char>, Leaf)>
    decreases values, 0int,
{
    if values.len() == 0 || names.len() == 0 {
        Seq::empty()
    } else {
        flat3(values[0], member_key(prefix, names[0])) + flat3_members(
            names.drop_first(),
            values.drop_first(),
            prefix,
        )
    }
}

fn flatten3(v: &Amf3Value, prefix: &str, out: &mut Vec<Entry>)
    ensures
        entries_view(final(out)@) == entries_view(old(out)@) + flat3(v@, prefix@),
    decreases v, 1int,
{
    let ghost before = entries_view(out@);
    match v {
        Amf3Value::Undefined => push_text(out, prefix, "undefined"),
        Amf3Value::Null => push_text(out, prefix, "null"),
        Amf3Value::Boolean(b) => push_text(out, prefix, truth_text(*b)),
        Amf3Value::Integer(i) => push_entry(out, prefix, EntryValue::Number(Double::from_i32(*i))),
        Amf3Value::Double(d) => push_entry(out, prefix, EntryValue::Number(*d)),
        Amf3Value::String(s) => push_text(out, prefix, s.as_str()),
        Amf3Value::XmlDocument(s) => push_text(out, prefix, s.as_str()),
        Amf3Value::Date(d) => push_entry(out, prefix, EntryValue::Date { time_ms: *d, tz: 0 }),
        Amf3Value::Array(a) => {
            flatten3_pairs(&a.assoc, prefix, out);
            flatten3_items(&a.dense, prefix, out);
        },
        Amf3Value::Object(o) => {
            flatten3_members(&o.sealed_names, &o.sealed_values, prefix, out);
            flatten3_pairs(&o.dynamic_members, prefix, out);
        },
        Amf3Value::Xml(s) => push_text(out, prefix, s.as_str()),
        Amf3Value::ByteArray(b) => {
            let mut t = "bytes:".to_string();
            push_decimal(&mut t, b.len() as u64);
            push_text(out, prefix, t.as_str());
        },
    }
    assert(entries_view(out@) =~= before + flat3(v@, prefix@));
}

fn flatten3_pairs(s: &Vec<(String, Amf3Value)>, prefix: &str, out: &mut Vec<Entry>)
    ensures
        entries_view(final(out)@) == entries_view(old(out)@) + flat3_pairs(
            crate::amf3::pairs_view(s@),
            prefix@,
        ),
    decreases s, 0int,
{
    let ghost all = crate::amf3::pairs_view(s@);
    let ghost before = entries_view(out@);
    let ghost goal = before + flat3_pairs(all, prefix@);
    let mut i: usize = 0;
    assert(all.skip(0) =~= all);
    while i < s.len()
        invariant
            i <= s@.len(),
            all == crate::amf3::pairs_view(s@),
            goal == entries_view(out@) + flat3_pairs(all.skip(i as int), prefix@),
        decreases s@.len() - i,
    {
        let ghost rest = all.skip(i as int);
        let ghost done = entries_view(out@);
        proof {
            assert(decreases_to!(s => s@[i as int].1));
            assert(rest[0] == (s@[i as int].0@, s@[i as int].1@));
            assert(rest.drop_first() =~= all.skip(i + 1));
        }
        let key = make_member_key(prefix, s[i].0.as_str());
        flatten3(&s[i].1, key.as_str(), out);
        proof {
            let head = flat3(rest[0].1, key@);
            let more = flat3_pairs(all.skip(i + 1), prefix@);
            assert(done + (head + more) =~= done + head + more);
        }
        i += 1;
    }
    assert(flat3_pairs(all.skip(i as int), prefix@) =~= Seq::empty());
    assert(entries_view(out@) =~= goal);
}

fn flatten3_items(s: &Vec<Amf3Value>, prefix: &str, out: &mut Vec<Entry>)
    ensures
        entries_view(final(out)@) == entries_view(old(out)@) + flat3_items(
            crate::amf3::items_view(s@),
            prefix@,
            0,
        ),
    decreases s, 0int,
{
    let ghost all = crate::amf3::items_view(s@);
    let ghost before = entries_view(out@);
    let ghost goal = before + flat3_items(all, prefix@, 0);
    let mut i: usize = 0;
    assert(all.skip(0) =~= all);
    while i < s.len()
        invariant
            i <= s@.len(),
            all == crate::amf3::items_view(s@),
            goal == entries_view(out@) + flat3_items(all.skip(i as int), prefix@, i as nat),
        decreases s@.len() - i,
    {
        let ghost rest = all.skip(i as int);
        let ghost done = entries_view(out@);
        proof {
            assert(decreases_to!(s => s@[i as int]));
            assert(rest[0] == s@[i as int]@);
            assert(rest.drop_first() =~= all.skip(i + 1));
        }
        let key = make_item_key(prefix, i);
        flatten3(&s[i], key.as_str(), out);
        proof {
            let head = flat3(rest[0], key@);
            let more = flat3_items(all.skip(i + 1), prefix@, (i + 1) as nat);
            assert(done + (head + more) =~= done + head + more);
        }
        i += 1;
    }
    assert(flat3_items(all.skip(i as int), prefix@, i as nat) =~= Seq::empty());
    assert(entries_view(out@) =~= goal);
}

fn flatten3_members(names: &Vec<String>, s: &Vec<Amf3Value>, prefix: &str, out: &mut Vec<Entry>)
    ensures
        entries_view(final(out)@) == entries_view(old(out)@) + flat3_members(
            texts_view(names@),
            crate::amf3::items_view(s@),
            prefix@,
        ),
    decreases s, 0int,
{
    let ghost all = crate::amf3::items_view(s@);
    let ghost keys = texts_view(names@);
    let ghost before = entries_view(out@);
    let ghost goal = before + flat3_members(keys, all, prefix@);
    let mut i: usize = 0;
    assert(all.skip(0) =~= all);
    assert(keys.skip(0) =~= keys);
    while i < s.len() && i < names.len()
        invariant
            i <= s@.len(),
            i <= names@.len(),
            all == crate::amf3::items_view(s@),
            keys == texts_view(names@),
            goal == entries_view(out@) + flat3_members(
                keys.skip(i as int),
                all.skip(i as int),
                prefix@,
            ),
        decreases s@.len() - i,
    {
        let ghost rest = all.skip(i as int);
        let ghost done = entries_view(out@);
        proof {
            assert(decreases_to!(s => s@[i as int]));
            assert(rest[0] == s@[i as int]@);
            assert(rest.drop_first() =~= all.skip(i + 1));
            assert(keys.skip(i as int)[0] == names@[i as int]@);
            assert(keys.skip(i as int).drop_first() =~= keys.skip(i + 1));
        }
        let key = make_member_key(prefix, names[i].as_str());
        flatten3(&s[i], key.as_str(), out);
        proof {
            let head = flat3(rest[0], key@);
            let more = flat3_members(keys.skip(i + 1), all.skip(i + 1), prefix@);
            assert(done + (head + more) =~= done + head + more);
        }
        i += 1;
    }
    assert(flat3_members(keys.skip(i as int), all.skip(i as int), prefix@) =~= Seq::empty());
    assert(entries_view(out@) =~= goal);
}

// ---- AMF0 -----------------------------------------------------------------

/// An AMF0 value laid flat.
pub open spec fn flat(v: AmfTree, prefix: Seq<char>) -> Seq<(Seq<char>, Leaf)>
    decreases v, 1int,
{
    match v {
        AmfTree::Number(n) => seq![(prefix, Leaf::Number(n))],
        AmfTree::Boolean(b) => seq![(prefix, Leaf::Text(truth(b)))],
        AmfTree::String(s) => seq![(prefix, Leaf::Text(s))],
        AmfTree::Object(p) => flat_pairs(p, prefix),
        AmfTree::Null => seq![(prefix, Leaf::Text("null"@))],
        AmfTree::Undefined => seq![(prefix, Leaf::Text("undefined"@))],
        AmfTree::Reference(i) => seq![(prefix, Leaf::Text("ref:"@ + decimal(i as nat)))],
        AmfTree::EcmaArray(p) => flat_pairs(p, prefix),
        AmfTree::StrictArray(a) => flat_items(a, prefix, 0),
        AmfTree::Date { time_ms, tz } => seq![(prefix, Leaf::Date { time_ms, tz })],
        AmfTree::Unsupported => seq![(prefix, Leaf::Text("unsupported"@))],
        AmfTree::Xml(s) => seq![(prefix, Leaf::Text(s))],
        AmfTree::TypedObject { class_name, body } => flat_pairs(body, prefix),
        AmfTree::AvmPlus(w) => flat3(w, prefix),
    }
}

/// Named values, each under its name.
pub open spec fn flat_pairs(s: Seq<(Seq<char>, AmfTree)>, prefix: Seq<char>) -> Seq<
    (Seq<char>, Leaf),
>
    decreases s, 0int,
{
    if s.len() == 0 {
        Seq::empty()
    } else {
        flat(s[0].1, member_key(prefix, s[0].0)) + flat_pairs(s.drop_first(), prefix)
    }
}

/// Values by index, the first under `from`.
pub open spec fn flat_items(s: Seq<AmfTree>, prefix: Seq<char>, from: nat) -> Seq<
    (Seq<char>, Leaf),
>
    decreases s, 0int,
{
    if s.len() == 0 {
        Seq::empty()
    } else {
        flat(s[0], item_key(prefix, from)) + flat_items(s.drop_first(), prefix, from + 1)
    }
}

/// Adds a value, laid flat.
pub fn flatten_amf_value(v: &AmfValue, prefix: &str, out: &mut Vec<Entry>)
    ensures
        entries_view(final(out)@) == entries_view(old(out)@) + flat(v@, prefix@),
    decreases v, 1int,
{
    let ghost before = entries_view(out@);
    match v {
        AmfValue::Number(n) => push_entry(out, prefix, EntryValue::Number(*n)),
        AmfValue::Boolean(b) => push_text(out, prefix, truth_text(*b)),
        AmfValue::String(s) => push_text(out, prefix, s.as_str()),
        AmfValue::Object(p) => flatten_pairs(p, prefix, out),
        AmfValue::Null => push_text(out, prefix, "null"),
        AmfValue::Undefined => push_text(out, prefix, "undefined"),
        AmfValue::Reference(i) => {
            let mut t = "ref:".to_string();
            push_decimal(&mut t, *i as u64);
            push_text(out, prefix, t.as_str());
        },
        AmfValue::EcmaArray(p) => flatten_pairs(p, prefix, out),
        AmfValue::StrictArray(a) => flatten_items(a, prefix, out),
        AmfValue::Date { time_ms, tz } => push_entry(
            out,
            prefix,
            EntryValue::Date { time_ms: *time_ms, tz: *tz },
        ),
        AmfValue::Unsupported => push_text(out, prefix, "unsupported"),
        AmfValue::Xml(s) => push_text(out, prefix, s.as_str()),
        AmfValue::TypedObject { class_name, body } => flatten_pairs(body, prefix, out),
        AmfValue::AvmPlus(w) => flatten3(&**w, prefix, out),
    }
    assert(entries_view(out@) =~= before + flat(v@, prefix@));
}

fn flatten_pairs(s: &Vec<(String, AmfValue)>, prefix: &str, out: &mut Vec<Entry>)
    ensures
        entries_view(final(out)@) == entries_view(old(out)@) + flat_pairs(pairs_view(s@), prefix@),
    decreases s, 0int,
{
    let ghost all = pairs_view(s@);
    let ghost before = entries_view(out@);
    let ghost goal = before + flat_pairs(all, prefix@);
    let mut i: usize = 0;
    assert(all.skip(0) =~= all);
    while i < s.len()
        invariant
            i <= s@.len(),
            all == pairs_view(s@),
            goal == entries_view(out@) + flat_pairs(all.skip(i as int), prefix@),
        decreases s@.len() - i,
    {
        let ghost rest = all.skip(i as int);
        let ghost done = entries_view(out@);
        proof {
            assert(decreases_to!(s => s@[i as int].1));
            assert(rest[0] == (s@[i as int].0@, s@[i as int].1@));
            assert(rest.drop_first() =~= all.skip(i + 1));
        }
        let key = make_member_key(prefix, s[i].0.as_str());
        flatten_amf_value(&s[i].1, key.as_str(), out);
        proof {
            let head = flat(rest[0].1, key@);
            let more = flat_pairs(all.skip(i + 1), prefix@);
            assert(done + (head + more) =~= done + head + more);
        }
        i += 1;
    }
    assert(flat_pairs(all.skip(i as int), prefix@) =~= Seq::empty());
    assert(entries_view(out@) =~= goal);
}

fn flatten_items(s: &Vec<AmfValue>, prefix: &str, out: &mut Vec<Entry>)
    ensures
        entries_view(final(out)@) == entries_view(old(out)@) + flat_items(
            items_view(s@),
            prefix@,
            0,
        ),
    decreases s, 0int,
{
    let ghost all = items_view(s@);
    let ghost before = entries_view(out@);
    let ghost goal = before + flat_items(all, prefix@, 0);
    let mut i: usize = 0;
    assert(all.skip(0) =~= all);
    while i < s.len()
        invariant
            i <= s@.len(),
            all == items_view(s@),
            goal == entries_view(out@) + flat_items(all.skip(i as int), prefix@, i as nat),
        decreases s@.len() - i,
    {
        let ghost rest = all.skip(i as int);
        let ghost done = entries_view(out@);
        proof {
            assert(decreases_to!(s => s@[i as int]));
            assert(rest[0] == s@[i as int]@);
            assert(rest.drop_first() =~= all.skip(i + 1));
        }
        let key = make_item_key(prefix, i);
        flatten_amf_value(&s[i], key.as_str(), out);
        proof {
            let head = flat(rest[0], key@);
            let more = flat_items(all.skip(i + 1), prefix@, (i + 1) as nat);
            assert(done + (head + more) =~= done + head + more);
        }
        i += 1;
    }
    assert(flat_items(all.skip(i as int), prefix@, i as nat) =~= Seq::empty());
    assert(entries_view(out@) =~= goal);
}

} // verus!
