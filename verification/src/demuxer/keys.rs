//! The keys that entries stand under.
use vstd::prelude::*;
use vstd::utf8::*;
use crate::amf0::AmfTree;
use crate::amf3::Amf3Tree;
use crate::demuxer::entries::{flat, flat3, flat3_items, flat3_members, flat3_pairs, flat_items,
    flat_pairs, item_key, member_key, Leaf};
use crate::demuxer::facts::{cue_behind, digits, next_cue, spelled_number, starts, stop_from};
use crate::demuxer::harvest::under;
use crate::text::{decimal, digit};

verus! {

/// The bytes of two texts, one behind the other.
pub proof fn lemma_utf8_add(a: Seq<char>, b: Seq<char>)
    ensures
        encode_utf8(a + b) == encode_utf8(a) + encode_utf8(b),
    decreases a.len(),
{
    if a.len() == 0 {
        assert(a + b =~= b);
        assert(encode_utf8(a) + encode_utf8(b) =~= encode_utf8(b));
    } else {
        lemma_utf8_add(a.drop_first(), b);
        assert((a + b).drop_first() =~= a.drop_first() + b);
        let head = encode_scalar(a[0] as u32);
        assert(head + (encode_utf8(a.drop_first()) + encode_utf8(b)) =~= head + encode_utf8(
            a.drop_first(),
        ) + encode_utf8(b));
    }
}

pub proof fn lemma_starts_add(a: Seq<char>, b: Seq<char>)
    ensures
        starts(a + b, a),
{
    lemma_utf8_add(a, b);
    let x = encode_utf8(a);
    assert(x =~= (x + encode_utf8(b)).subrange(0, x.len() as int));
}

pub proof fn lemma_stop()
    ensures
        encode_utf8("."@) == seq![0x2Eu8],
{
    reveal_strlit(".");
    assert("."@ =~= seq!['.']);
    let rest = "."@.drop_first();
    assert(rest =~= Seq::empty());
    assert(encode_utf8(rest) =~= Seq::empty());
    assert(encode_scalar(0x2E) =~= seq![0x2Eu8]) by {
        assert(0x2Eu32 & 0x7F == 0x2E) by (bit_vector);
    }
    assert(encode_utf8("."@) =~= encode_scalar(0x2E));
}

/// A member stands under what it is a member of.
pub proof fn lemma_member_is_under(prefix: Seq<char>, name: Seq<char>)
    ensures
        under(member_key(prefix, name), prefix),
        under(prefix, prefix),
{
    let rest = "."@ + name;
    assert(member_key(prefix, name) =~= prefix + rest);
    lemma_starts_add(prefix, rest);
    lemma_utf8_add(prefix, rest);
    lemma_utf8_add("."@, name);
    lemma_stop();
    let n = encode_utf8(prefix).len() as int;
    assert(encode_utf8(prefix + rest)[n] == 0x2E);
    assert(prefix + Seq::<char>::empty() =~= prefix);
    lemma_starts_add(prefix, Seq::empty());
}

/// A key is `prefix`, or goes on behind it as a member or an item does.
pub open spec fn grown(key: Seq<char>, prefix: Seq<char>) -> bool {
    let n = prefix.len() as int;
    &&& n <= key.len()
    &&& key.take(n) == prefix
    &&& key.len() == n || key[n] == '.' || key[n] == '['
}

/// All keys are grown from a prefix.
pub open spec fn all_grown(s: Seq<(Seq<char>, Leaf)>, prefix: Seq<char>) -> bool {
    forall|i: int| 0 <= i < s.len() ==> grown((#[trigger] s[i]).0, prefix)
}

proof fn lemma_bracket()
    ensures
        encode_utf8("["@) == seq![0x5Bu8],
{
    reveal_strlit("[");
    assert("["@ =~= seq!['[']);
    let rest = "["@.drop_first();
    assert(rest =~= Seq::empty());
    assert(encode_utf8(rest) =~= Seq::empty());
    assert(encode_scalar(0x5B) =~= seq![0x5Bu8]) by {
        assert(0x5Bu32 & 0x7F == 0x5B) by (bit_vector);
    }
    assert(encode_utf8("["@) =~= encode_scalar(0x5B));
}

/// A key that is grown from a prefix stands under it.
pub proof fn lemma_grown_is_under(key: Seq<char>, prefix: Seq<char>)
    requires
        grown(key, prefix),
    ensures
        under(key, prefix),
{
    let n = prefix.len() as int;
    if key.len() == n {
        assert(key =~= prefix);
        lemma_member_is_under(prefix, prefix);
    } else if key[n] == '.' {
        reveal_strlit(".");
        assert(key =~= member_key(prefix, key.skip(n + 1)));
        lemma_member_is_under(prefix, key.skip(n + 1));
    } else {
        let tail = key.skip(n + 1);
        let rest = "["@ + tail;
        reveal_strlit("[");
        assert(key =~= prefix + rest);
        lemma_starts_add(prefix, rest);
        lemma_utf8_add(prefix, rest);
        lemma_utf8_add("["@, tail);
        lemma_bracket();
        assert(encode_utf8(prefix + rest)[encode_utf8(prefix).len() as int] == 0x5B);
    }
}

/// What is grown from a member or an item is grown from what it belongs to.
proof fn lemma_grown_inside(s: Seq<(Seq<char>, Leaf)>, inner: Seq<char>, prefix: Seq<char>)
    requires
        all_grown(s, inner),
        grown(inner, prefix),
        inner.len() > prefix.len(),
    ensures
        all_grown(s, prefix),
{
    assert forall|i: int| 0 <= i < s.len() implies grown((#[trigger] s[i]).0, prefix) by {
        let key = s[i].0;
        let n = prefix.len() as int;
        assert(key.take(n) =~= key.take(inner.len() as int).take(n));
        assert(key[n] == key.take(inner.len() as int)[n]);
    }
}

proof fn lemma_parts_are_grown(prefix: Seq<char>, name: Seq<char>, index: nat)
    ensures
        grown(member_key(prefix, name), prefix),
        member_key(prefix, name).len() > prefix.len(),
        grown(item_key(prefix, index), prefix),
        item_key(prefix, index).len() > prefix.len(),
{
    reveal_strlit(".");
    reveal_strlit("[");
    let n = prefix.len() as int;
    assert(member_key(prefix, name).take(n) =~= prefix);
    assert(item_key(prefix, index).take(n) =~= prefix);
}

proof fn lemma_both_grown(a: Seq<(Seq<char>, Leaf)>, b: Seq<(Seq<char>, Leaf)>, prefix: Seq<char>)
    requires
        all_grown(a, prefix),
        all_grown(b, prefix),
    ensures
        all_grown(a + b, prefix),
{
    assert forall|i: int| 0 <= i < (a + b).len() implies grown((#[trigger] (a + b)[i]).0, prefix) by {
        if i < a.len() {
            assert((a + b)[i] == a[i]);
        } else {
            assert((a + b)[i] == b[i - a.len()]);
        }
    }
}

/// The keys of an AMF3 value laid flat are all grown from its own.
pub proof fn lemma_flat3_keys(v: Amf3Tree, prefix: Seq<char>)
    ensures
        all_grown(flat3(v, prefix), prefix),
    decreases v, 1int,
{
    assert(prefix.take(prefix.len() as int) =~= prefix);
    match v {
        Amf3Tree::Array { assoc, dense } => {
            lemma_flat3_pairs_keys(assoc, prefix);
            lemma_flat3_items_keys(dense, prefix, 0);
            lemma_both_grown(flat3_pairs(assoc, prefix), flat3_items(dense, prefix, 0), prefix);
        },
        Amf3Tree::Object { sealed_names, sealed_values, dynamic_members, .. } => {
            lemma_flat3_members_keys(sealed_names, sealed_values, prefix);
            lemma_flat3_pairs_keys(dynamic_members, prefix);
            lemma_both_grown(
                flat3_members(sealed_names, sealed_values, prefix),
                flat3_pairs(dynamic_members, prefix),
                prefix,
            );
        },
        _ => {},
    }
}

proof fn lemma_flat3_pairs_keys(s: Seq<(Seq<char>, Amf3Tree)>, prefix: Seq<char>)
    ensures
        all_grown(flat3_pairs(s, prefix), prefix),
    decreases s, 0int,
{
    if s.len() > 0 {
        let inner = member_key(prefix, s[0].0);
        lemma_parts_are_grown(prefix, s[0].0, 0);
        lemma_flat3_keys(s[0].1, inner);
        lemma_grown_inside(flat3(s[0].1, inner), inner, prefix);
        lemma_flat3_pairs_keys(s.drop_first(), prefix);
        lemma_both_grown(flat3(s[0].1, inner), flat3_pairs(s.drop_first(), prefix), prefix);
    }
}

proof fn lemma_flat3_items_keys(s: Seq<Amf3Tree>, prefix: Seq<char>, from: nat)
    ensures
        all_grown(flat3_items(s, prefix, from), prefix),
    decreases s, 0int,
{
    if s.len() > 0 {
        let inner = item_key(prefix, from);
        lemma_parts_are_grown(prefix, prefix, from);
        lemma_flat3_keys(s[0], inner);
        lemma_grown_inside(flat3(s[0], inner), inner, prefix);
        lemma_flat3_items_keys(s.drop_first(), prefix, from + 1);
        lemma_both_grown(flat3(s[0], inner), flat3_items(s.drop_first(), prefix, from + 1), prefix);
    }
}

proof fn lemma_flat3_members_keys(names: Seq<Seq<char>>, values: Seq<Amf3Tree>, prefix: Seq<char>)
    ensures
        all_grown(flat3_members(names, values, prefix), prefix),
    decreases values, 0int,
{
    if values.len() > 0 && names.len() > 0 {
        let inner = member_key(prefix, names[0]);
        let rest = flat3_members(names.drop_first(), values.drop_first(), prefix);
        lemma_parts_are_grown(prefix, names[0], 0);
        lemma_flat3_keys(values[0], inner);
        lemma_grown_inside(flat3(values[0], inner), inner, prefix);
        lemma_flat3_members_keys(names.drop_first(), values.drop_first(), prefix);
        lemma_both_grown(flat3(values[0], inner), rest, prefix);
    }
}

/// The keys of a value laid flat are all grown from its own.
pub proof fn lemma_flat_keys(v: AmfTree, prefix: Seq<char>)
    ensures
        all_grown(flat(v, prefix), prefix),
    decreases v, 1int,
{
    assert(prefix.take(prefix.len() as int) =~= prefix);
    match v {
        AmfTree::Object(p) => lemma_flat_pairs_keys(p, prefix),
        AmfTree::EcmaArray(p) => lemma_flat_pairs_keys(p, prefix),
        AmfTree::StrictArray(a) => lemma_flat_items_keys(a, prefix, 0),
        AmfTree::TypedObject { class_name, body } => lemma_flat_pairs_keys(body, prefix),
        AmfTree::AvmPlus(w) => lemma_flat3_keys(w, prefix),
        _ => {},
    }
}

proof fn lemma_flat_pairs_keys(s: Seq<(Seq<char>, AmfTree)>, prefix: Seq<char>)
    ensures
        all_grown(flat_pairs(s, prefix), prefix),
    decreases s, 0int,
{
    if s.len() > 0 {
        let inner = member_key(prefix, s[0].0);
        lemma_parts_are_grown(prefix, s[0].0, 0);
        lemma_flat_keys(s[0].1, inner);
        lemma_grown_inside(flat(s[0].1, inner), inner, prefix);
        lemma_flat_pairs_keys(s.drop_first(), prefix);
        lemma_both_grown(flat(s[0].1, inner), flat_pairs(s.drop_first(), prefix), prefix);
    }
}

proof fn lemma_flat_items_keys(s: Seq<AmfTree>, prefix: Seq<char>, from: nat)
    ensures
        all_grown(flat_items(s, prefix, from), prefix),
    decreases s, 0int,
{
    if s.len() > 0 {
        let inner = item_key(prefix, from);
        lemma_parts_are_grown(prefix, prefix, from);
        lemma_flat_keys(s[0], inner);
        lemma_grown_inside(flat(s[0], inner), inner, prefix);
        lemma_flat_items_keys(s.drop_first(), prefix, from + 1);
        lemma_both_grown(flat(s[0], inner), flat_items(s.drop_first(), prefix, from + 1), prefix);
    }
}

/// Members with different names have different keys.
pub proof fn lemma_member_names(prefix: Seq<char>, a: Seq<char>, b: Seq<char>)
    ensures
        member_key(prefix, a) == member_key(prefix, b) <==> a == b,
{
    reveal_strlit(".");
    let x = member_key(prefix, a);
    let y = member_key(prefix, b);
    assert(x.skip(prefix.len() as int + 1) =~= a);
    assert(y.skip(prefix.len() as int + 1) =~= b);
}

// ---- numbers in keys --------------------------------------------------------

pub proof fn lemma_decimal_digits(n: nat, i: int)
    requires
        0 <= i < decimal(n).len(),
    ensures
        decimal(n)[i] != '.',
    decreases n,
{
    if n >= 10 && i < decimal(n / 10).len() {
        lemma_decimal_digits(n / 10, i);
    }
}

/// Different numbers are spelled differently.
pub proof fn lemma_decimal_injective(a: nat, b: nat)
    requires
        decimal(a) == decimal(b),
    ensures
        a == b,
    decreases a,
{
    lemma_decimal_len(a);
    lemma_decimal_len(b);
    assert(decimal(a).last() == decimal(b).last());
    assert(digit((a % 10) as int) == digit((b % 10) as int));
    if a >= 10 && b >= 10 {
        assert(decimal(a).drop_last() =~= decimal(a / 10));
        assert(decimal(b).drop_last() =~= decimal(b / 10));
        lemma_decimal_injective(a / 10, b / 10);
    }
}

pub proof fn lemma_decimal_len(n: nat)
    ensures
        decimal(n).len() >= 1,
        n >= 10 <==> decimal(n).len() >= 2,
        decimal(n).last() == digit((n % 10) as int),
    decreases n,
{
    if n >= 10 {
        lemma_decimal_len(n / 10);
    }
}

pub proof fn lemma_digit_byte(d: int)
    requires
        0 <= d < 10,
    ensures
        encode_utf8(seq![digit(d)]) == seq![(0x30 + d) as u8],
{
    let c = digit(d) as u32;
    let one = seq![digit(d)];
    assert(one.drop_first() =~= Seq::empty());
    assert(encode_utf8(one.drop_first()) =~= Seq::empty());
    assert(c == 0x30 + d);
    assert(c & 0x7F == c) by (bit_vector)
        requires
            c < 0x80u32,
    ;
    assert(encode_scalar(c) =~= seq![(0x30 + d) as u8]);
    assert(encode_utf8(one) =~= encode_scalar(c));
}

/// The bytes of a number in decimal are digits that spell it.
pub proof fn lemma_decimal_bytes(n: nat)
    ensures
        digits(encode_utf8(decimal(n))) == Some(n),
        encode_utf8(decimal(n)).len() > 0,
        forall|i: int|
            0 <= i < encode_utf8(decimal(n)).len() ==> 0x30 <= #[trigger] encode_utf8(decimal(n))[i]
                <= 0x39,
    decreases n,
{
    let d = (n % 10) as int;
    lemma_digit_byte(d);
    let b = (0x30 + d) as u8;
    if n < 10 {
        let one = seq![b];
        assert(one.drop_last() =~= Seq::empty());
        assert(digits(one.drop_last()) == Some(0nat));
    } else {
        lemma_decimal_bytes(n / 10);
        let head = encode_utf8(decimal(n / 10));
        assert(decimal(n) =~= decimal(n / 10) + seq![digit(d)]);
        lemma_utf8_add(decimal(n / 10), seq![digit(d)]);
        let all = encode_utf8(decimal(n));
        assert(all =~= head.push(b));
        assert(all.drop_last() =~= head);
    }
}

pub proof fn lemma_stop_from(s: Seq<u8>, from: int, to: int)
    requires
        0 <= from <= to < s.len(),
        s[to] == 0x2E,
        forall|i: int| from <= i < to ==> s[i] != 0x2E,
    ensures
        stop_from(s, from) == to,
    decreases to - from,
{
    if from < to {
        lemma_stop_from(s, from + 1, to);
    }
}

/// A key that starts with `front`, a number in decimal and a full stop has that number there.
pub proof fn lemma_numbered(key: Seq<char>, front: Seq<char>, id: u32)
    requires
        starts(key, front + decimal(id as nat) + "."@),
    ensures
        starts(key, front),
        ({
            let s = encode_utf8(key);
            let from = encode_utf8(front).len() as int;
            spelled_number(s.subrange(from, stop_from(s, from))) == Some(id)
        }),
{
    let s = encode_utf8(key);
    let number = decimal(id as nat);
    let x = encode_utf8(front);
    let y = encode_utf8(number);
    let start = front + number + "."@;
    assert(start =~= front + (number + "."@));
    lemma_utf8_add(front, number + "."@);
    lemma_utf8_add(number, "."@);
    lemma_stop();
    lemma_decimal_bytes(id as nat);
    let z = encode_utf8(start);
    assert(z =~= x + (y + seq![0x2Eu8]));
    assert(z =~= s.subrange(0, z.len() as int));
    assert forall|i: int| 0 <= i < z.len() implies s[i] == #[trigger] z[i] by {
        assert(s.subrange(0, z.len() as int)[i] == s[i]);
    }
    let from = x.len() as int;
    let to = from + y.len();
    assert(x =~= s.subrange(0, from)) by {
        assert forall|i: int| 0 <= i < from implies s[i] == x[i] by {
            assert(z[i] == x[i]);
        }
    }
    assert(s.subrange(from, to) =~= y) by {
        assert forall|i: int| from <= i < to implies s[i] == y[i - from] by {
            assert(z[i] == y[i - from]);
        }
    }
    assert(z[to] == 0x2E);
    assert forall|i: int| from <= i < to implies s[i] != 0x2E by {
        assert(s.subrange(from, to)[i - from] == y[i - from]);
    }
    lemma_stop_from(s, from, to);
    assert(y[0] != 0x2B);
}

/// The number of a new cue point is in no key, as long as it is one of 32 bits.
pub proof fn law_cue_numbers_are_new(s: Seq<(Seq<char>, Leaf)>, i: int)
    requires
        0 <= i < s.len(),
        next_cue(s) <= u32::MAX,
    ensures
        !starts(s[i].0, "cuepoint."@ + decimal(next_cue(s)) + "."@),
{
    lemma_cue_bound(s, i);
    if starts(s[i].0, "cuepoint."@ + decimal(next_cue(s)) + "."@) {
        lemma_numbered(s[i].0, "cuepoint."@, next_cue(s) as u32);
    }
}

proof fn lemma_cue_bound(s: Seq<(Seq<char>, Leaf)>, i: int)
    requires
        0 <= i < s.len(),
    ensures
        cue_behind(s[i].0) <= next_cue(s),
    decreases s.len(),
{
    if i < s.len() - 1 {
        lemma_cue_bound(s.drop_last(), i);
        assert(s.drop_last()[i] == s[i]);
    }
}

} // verus!
