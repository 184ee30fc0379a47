//! What the metadata of a file that was written reads as.
use vstd::prelude::*;
use vstd::utf8::*;
use crate::amf0::AmfTree;
use crate::color_info::{
    cll_properties, color_fault, color_object, config_properties, emit_color, group,
    mdcv_properties, no_mdcv, small, ColorInfo, HdrCll,
};
use crate::demuxer::entries::{flat, flat_pairs, member_key, truth, Leaf};
use crate::demuxer::facts::{properties, property, script, shown_name, Facts};
use crate::demuxer::harvest::{audio_noted, layout, mark, noted, speakers_in, under, without};
use crate::demuxer::keys::{
    lemma_decimal_digits, lemma_decimal_injective, lemma_flat_keys, lemma_grown_is_under,
    lemma_member_is_under, lemma_member_names, lemma_numbered, lemma_starts_add,
};
use crate::demuxer::session::number_entry;
use crate::demuxer::written::{law_metadata_comes_back, law_properties_survive};
use crate::demuxer::stream::{finite_only, lookup_bool, lookup_f64, lookup_u32, whole};
use crate::double::{lemma_of_int_order, lemma_trunc_of_int, Double};
use crate::script::meta::{number, tree, trees, Meta};
use crate::script::{emit_script, track_info};
use crate::script::track_info::{track_map, track_properties, MediaKind, TrackInfo};
use crate::text::{decimal, lower};
use crate::typed_meta::{
    audio_track, colors_in, field_key, given, has_colors, has_track, lookup, no_config, of_track,
    track_ids, track_key, track_of, video_track, Bag, TypedAudioTrackInfo, TypedVideoTrackInfo,
};

verus! {

// ---- one entry under a key --------------------------------------------------

/// Under `key` there is the number `v` and nothing else.
pub open spec fn says(s: Seq<(Seq<char>, Leaf)>, key: Seq<char>, v: Option<Double>) -> bool {
    &&& v matches Some(d) ==> s.contains((key, Leaf::Number(d)))
    &&& forall|i: int|
        0 <= i < s.len() && (#[trigger] s[i]).0 == key ==> v is Some && s[i].1
            == Leaf::Number(v->0)
}

proof fn lemma_lookup_says(
    s: Seq<(Seq<char>, Leaf)>,
    readings: Seq<Option<Double>>,
    key: Seq<char>,
    v: Option<Double>,
    from: int,
)
    requires
        0 <= from <= s.len(),
        says(s, key, v),
        forall|i: int| 0 <= i < from ==> (#[trigger] s[i]).0 != key,
    ensures
        lookup_f64(s, readings, key, from) == finite_only(v),
        lookup_u32(s, readings, key, from) == whole(v),
    decreases s.len() - from,
{
    if from == s.len() {
        if let Some(d) = v {
            let i = choose|i: int| 0 <= i < s.len() && s[i] == (key, Leaf::Number(d));
            assert(s[i].0 == key);
        }
    } else if s[from].0 == key {
        lemma_lookup_same(s, readings, key, v, from);
    } else {
        lemma_lookup_says(s, readings, key, v, from + 1);
    }
}

proof fn lemma_lookup_same(
    s: Seq<(Seq<char>, Leaf)>,
    readings: Seq<Option<Double>>,
    key: Seq<char>,
    v: Option<Double>,
    from: int,
)
    requires
        0 <= from <= s.len(),
        says(s, key, v),
    ensures
        lookup_f64(s, readings, key, from) == finite_only(v) || lookup_f64(s, readings, key, from)
            is None,
        lookup_u32(s, readings, key, from) == whole(v) || lookup_u32(s, readings, key, from) is None,
        from < s.len() && s[from].0 == key ==> lookup_f64(s, readings, key, from) == finite_only(v)
            && lookup_u32(s, readings, key, from) == whole(v),
    decreases s.len() - from,
{
    if from < s.len() {
        lemma_lookup_same(s, readings, key, v, from + 1);
    }
}

/// What one of two runs says under a key of which the other says nothing.
proof fn lemma_says_add(
    a: Seq<(Seq<char>, Leaf)>,
    b: Seq<(Seq<char>, Leaf)>,
    key: Seq<char>,
    v: Option<Double>,
)
    ensures
        says(a, key, v) && says(b, key, None) ==> says(a + b, key, v),
        says(a, key, None) && says(b, key, v) ==> says(a + b, key, v),
{
    let s = a + b;
    if let Some(d) = v {
        let e = (key, Leaf::Number(d));
        if a.contains(e) {
            let i = choose|i: int| 0 <= i < a.len() && a[i] == e;
            assert(s[i] == e);
        }
        if b.contains(e) {
            let i = choose|i: int| 0 <= i < b.len() && b[i] == e;
            assert(s[a.len() + i] == e);
        }
    }
    assert forall|i: int| 0 <= i < s.len() implies #[trigger] s[i] == (if i < a.len() {
        a[i]
    } else {
        b[i - a.len()]
    }) by {}
}

/// An entry says what is in it.
proof fn lemma_says_one(key: Seq<char>, v: Option<Double>, other: Seq<char>)
    ensures
        says(number_entry(key, v), key, v),
        key != other ==> says(number_entry(key, v), other, None),
{
    if let Some(d) = v {
        assert(number_entry(key, v)[0] == (key, Leaf::Number(d)));
    }
}

// ---- what was dropped -------------------------------------------------------

/// What is left stands under nothing that was dropped.
proof fn lemma_without(s: Seq<(Seq<char>, Leaf)>, prefix: Seq<char>, i: int)
    requires
        0 <= i < without(s, prefix).len(),
    ensures
        !under(without(s, prefix)[i].0, prefix),
    decreases s.len(),
{
    if s.len() > 0 && (under(s.last().0, prefix) || i < without(s.drop_last(), prefix).len()) {
        lemma_without(s.drop_last(), prefix, i);
    }
}

/// What is left says nothing of a member of what was dropped.
proof fn lemma_without_says(s: Seq<(Seq<char>, Leaf)>, prefix: Seq<char>, key: Seq<char>)
    requires
        under(key, prefix),
    ensures
        says(without(s, prefix), key, None),
{
    assert forall|i: int| 0 <= i < without(s, prefix).len() implies (#[trigger] without(
        s,
        prefix,
    )[i]).0 != key by {
        lemma_without(s, prefix, i);
    }
}

// ---- laying properties flat -------------------------------------------------

proof fn lemma_flat_add(
    a: Seq<(Seq<char>, AmfTree)>,
    b: Seq<(Seq<char>, AmfTree)>,
    prefix: Seq<char>,
)
    ensures
        flat_pairs(a + b, prefix) == flat_pairs(a, prefix) + flat_pairs(b, prefix),
    decreases a.len(),
{
    if a.len() == 0 {
        assert(a + b =~= b);
        assert(flat_pairs(a, prefix) + flat_pairs(b, prefix) =~= flat_pairs(b, prefix));
    } else {
        lemma_flat_add(a.drop_first(), b, prefix);
        assert((a + b).drop_first() =~= a.drop_first() + b);
        let head = flat(a[0].1, member_key(prefix, a[0].0));
        assert(head + (flat_pairs(a.drop_first(), prefix) + flat_pairs(b, prefix)) =~= head
            + flat_pairs(a.drop_first(), prefix) + flat_pairs(b, prefix));
    }
}

/// Properties that are numbers, laid flat.
spec fn laid(p: Seq<(Seq<char>, Meta)>, prefix: Seq<char>) -> Seq<(Seq<char>, Leaf)> {
    flat_pairs(trees(p), prefix)
}

proof fn lemma_laid_add(p: Seq<(Seq<char>, Meta)>, q: Seq<(Seq<char>, Meta)>, prefix: Seq<char>)
    ensures
        laid(p + q, prefix) == laid(p, prefix) + laid(q, prefix),
{
    assert(trees(p + q) =~= trees(p) + trees(q));
    lemma_flat_add(trees(p), trees(q), prefix);
}

proof fn lemma_laid_number(name: Seq<char>, v: Option<Double>, prefix: Seq<char>)
    ensures
        laid(number(name, v), prefix) == number_entry(member_key(prefix, name), v),
{
    let t = trees(number(name, v));
    if let Some(d) = v {
        assert(t[0] == (name, AmfTree::Number(d)));
        assert(t.drop_first() =~= Seq::empty());
        assert(flat_pairs(t.drop_first(), prefix) =~= Seq::empty());
        let key = member_key(prefix, name);
        assert(flat(AmfTree::Number(d), key) == seq![(key, Leaf::Number(d))]);
        assert(flat_pairs(t, prefix) =~= number_entry(key, v));
    } else {
        assert(flat_pairs(t, prefix) =~= number_entry(member_key(prefix, name), v));
    }
}

/// Numbers by name, as far as they are there.
spec fn listed(f: Seq<(Seq<char>, Option<Double>)>) -> Seq<(Seq<char>, Meta)>
    decreases f.len(),
{
    if f.len() == 0 {
        Seq::empty()
    } else {
        listed(f.drop_last()) + number(f.last().0, f.last().1)
    }
}

/// No name comes twice.
spec fn distinct(f: Seq<(Seq<char>, Option<Double>)>) -> bool {
    forall|i: int, j: int| 0 <= i < j < f.len() ==> (#[trigger] f[i]).0 != (#[trigger] f[j]).0
}

proof fn lemma_listed_push(
    f: Seq<(Seq<char>, Option<Double>)>,
    p: Seq<(Seq<char>, Meta)>,
    name: Seq<char>,
    v: Option<Double>,
)
    requires
        listed(f) == p,
    ensures
        listed(f.push((name, v))) == p + number(name, v),
{
    assert(f.push((name, v)).drop_last() =~= f);
}

/// Under a name that is not among them, numbers laid flat say nothing.
proof fn lemma_absent(f: Seq<(Seq<char>, Option<Double>)>, prefix: Seq<char>, name: Seq<char>)
    requires
        forall|i: int| 0 <= i < f.len() ==> (#[trigger] f[i]).0 != name,
    ensures
        says(laid(listed(f), prefix), member_key(prefix, name), None),
    decreases f.len(),
{
    let key = member_key(prefix, name);
    if f.len() == 0 {
        assert(trees(listed(f)) =~= Seq::empty());
        assert(laid(listed(f), prefix) =~= Seq::empty());
    } else {
        let rest = f.drop_last();
        let (last, v) = f.last();
        lemma_absent(rest, prefix, name);
        lemma_laid_add(listed(rest), number(last, v), prefix);
        lemma_laid_number(last, v, prefix);
        lemma_member_names(prefix, last, name);
        lemma_says_one(member_key(prefix, last), v, key);
        lemma_says_add(
            laid(listed(rest), prefix),
            number_entry(member_key(prefix, last), v),
            key,
            None,
        );
    }
}

/// Under each of their names, numbers laid flat say just that number.
proof fn lemma_present(f: Seq<(Seq<char>, Option<Double>)>, prefix: Seq<char>, i: int)
    requires
        distinct(f),
        0 <= i < f.len(),
    ensures
        says(laid(listed(f), prefix), member_key(prefix, f[i].0), f[i].1),
    decreases f.len(),
{
    let key = member_key(prefix, f[i].0);
    let rest = f.drop_last();
    let (last, v) = f.last();
    lemma_laid_add(listed(rest), number(last, v), prefix);
    lemma_laid_number(last, v, prefix);
    lemma_says_one(member_key(prefix, last), v, key);
    if i < rest.len() {
        lemma_present(rest, prefix, i);
        lemma_member_names(prefix, last, f[i].0);
    } else {
        lemma_absent(rest, prefix, last);
    }
    lemma_says_add(
        laid(listed(rest), prefix),
        number_entry(member_key(prefix, last), v),
        key,
        f[i].1,
    );
}

/// Properties that are numbers.
spec fn all_numbers(p: Seq<(Seq<char>, Meta)>) -> bool {
    forall|i: int| 0 <= i < p.len() ==> (#[trigger] p[i]).1 is Number
}

/// A key is that of a member of what stands at a prefix.
spec fn behind(key: Seq<char>, prefix: Seq<char>) -> bool {
    key.len() > prefix.len() && key.take(prefix.len() as int) == prefix && key[prefix.len() as int]
        == '.'
}

proof fn lemma_behind(prefix: Seq<char>, name: Seq<char>)
    ensures
        behind(member_key(prefix, name), prefix),
{
    reveal_strlit(".");
    let k = member_key(prefix, name);
    assert(k.take(prefix.len() as int) =~= prefix);
}

/// Numbers laid flat stand behind their prefix.
proof fn lemma_laid_keys(p: Seq<(Seq<char>, Meta)>, prefix: Seq<char>, i: int)
    requires
        all_numbers(p),
        0 <= i < laid(p, prefix).len(),
    ensures
        behind(laid(p, prefix)[i].0, prefix),
    decreases p.len(),
{
    let t = trees(p);
    let rest = p.drop_first();
    assert(t.drop_first() =~= trees(rest));
    assert(t[0] == (p[0].0, tree(p[0].1)));
    let d = p[0].1->Number_0;
    let key = member_key(prefix, p[0].0);
    assert(flat(AmfTree::Number(d), key) == seq![(key, Leaf::Number(d))]);
    assert(laid(p, prefix) == seq![(key, Leaf::Number(d))] + laid(rest, prefix));
    if i == 0 {
        lemma_behind(prefix, p[0].0);
    } else {
        lemma_laid_keys(rest, prefix, i - 1);
    }
}

/// Numbers laid flat say nothing of keys that do not stand behind their prefix.
proof fn lemma_laid_apart(p: Seq<(Seq<char>, Meta)>, prefix: Seq<char>, key: Seq<char>)
    requires
        all_numbers(p),
        !behind(key, prefix),
    ensures
        says(laid(p, prefix), key, None),
{
    assert forall|i: int| 0 <= i < laid(p, prefix).len() implies (#[trigger] laid(
        p,
        prefix,
    )[i]).0 != key by {
        lemma_laid_keys(p, prefix, i);
    }
}

// ---- colours ----------------------------------------------------------------

/// The groups of a description of colours, laid flat.
spec fn laid_group(name: Seq<char>, p: Option<Seq<(Seq<char>, Meta)>>) -> Seq<(Seq<char>, Leaf)> {
    match p {
        Some(q) => laid(q, member_key("colorinfo"@, name)),
        None => Seq::empty(),
    }
}

proof fn lemma_laid_group(name: Seq<char>, p: Option<Seq<(Seq<char>, Meta)>>)
    ensures
        laid(group(name, p), "colorinfo"@) == laid_group(name, p),
{
    let t = trees(group(name, p));
    let prefix = "colorinfo"@;
    if let Some(q) = p {
        let key = member_key(prefix, name);
        assert(t[0] == (name, AmfTree::Object(trees(q))));
        assert(t.drop_first() =~= Seq::empty());
        assert(flat_pairs(t.drop_first(), prefix) =~= Seq::empty());
        assert(flat(AmfTree::Object(trees(q)), key) == flat_pairs(trees(q), key));
        assert(flat_pairs(t, prefix) =~= laid(q, key));
    } else {
        assert(flat_pairs(t, prefix) =~= Seq::empty());
    }
}

/// The properties of each group that is there.
spec fn config_group(ci: ColorInfo) -> Option<Seq<(Seq<char>, Meta)>> {
    match ci.color_config {
        Some(c) => Some(config_properties(c)),
        None => None,
    }
}

spec fn cll_group(ci: ColorInfo) -> Option<Seq<(Seq<char>, Meta)>> {
    match ci.hdr_cll {
        Some(c) => Some(cll_properties(c)),
        None => None,
    }
}

spec fn mdcv_group(ci: ColorInfo) -> Option<Seq<(Seq<char>, Meta)>> {
    match ci.hdr_mdcv {
        Some(m) => Some(mdcv_properties(m)),
        None => None,
    }
}

/// The entries behind a description of colours.
spec fn with_colors(s: Seq<(Seq<char>, Leaf)>, ci: ColorInfo) -> Seq<(Seq<char>, Leaf)> {
    without(s, "colorinfo"@) + (if laid_colors(ci).len() == 0 {
        seq![("colorinfo"@, Leaf::Text(""@))]
    } else {
        laid_colors(ci)
    })
}

/// A description of colours, laid flat.
spec fn laid_colors(ci: ColorInfo) -> Seq<(Seq<char>, Leaf)> {
    laid_group("colorConfig"@, config_group(ci)) + laid_group("hdrCll"@, cll_group(ci))
        + laid_group("hdrMdcv"@, mdcv_group(ci))
}

proof fn lemma_lower_name()
    ensures
        lower("colorInfo"@) == "colorinfo"@,
{
    reveal_strlit("colorInfo");
    reveal_strlit("colorinfo");
    assert(lower("colorInfo"@) =~= "colorinfo"@);
}

proof fn lemma_with_colors(s: Seq<(Seq<char>, Leaf)>, ci: ColorInfo)
    ensures
        noted(s, "colorInfo"@, tree(color_object(ci))) == with_colors(s, ci),
{
    lemma_lower_name();
    let prefix = "colorinfo"@;
    let a = group("colorConfig"@, config_group(ci));
    let b = group("hdrCll"@, cll_group(ci));
    let c = group("hdrMdcv"@, mdcv_group(ci));
    assert(color_object(ci) == Meta::Object(a + b + c));
    lemma_laid_add(a + b, c, prefix);
    lemma_laid_add(a, b, prefix);
    lemma_laid_group("colorConfig"@, config_group(ci));
    lemma_laid_group("hdrCll"@, cll_group(ci));
    lemma_laid_group("hdrMdcv"@, mdcv_group(ci));
    assert(flat(AmfTree::Object(trees(a + b + c)), prefix) == flat_pairs(trees(a + b + c), prefix));
    assert(flat(tree(color_object(ci)), prefix) == laid_colors(ci));
}

/// A key of one group does not stand behind another.
proof fn lemma_groups_apart(name: Seq<char>)
    ensures
        ({
            let p = "colorinfo"@;
            let a = member_key(member_key(p, "colorConfig"@), name);
            let b = member_key(member_key(p, "hdrCll"@), name);
            let c = member_key(member_key(p, "hdrMdcv"@), name);
            &&& !behind(a, member_key(p, "hdrCll"@)) && !behind(a, member_key(p, "hdrMdcv"@))
            &&& !behind(b, member_key(p, "colorConfig"@)) && !behind(b, member_key(p, "hdrMdcv"@))
            &&& !behind(c, member_key(p, "colorConfig"@)) && !behind(c, member_key(p, "hdrCll"@))
        }),
{
    reveal_strlit("colorinfo");
    reveal_strlit(".");
    reveal_strlit("colorConfig");
    reveal_strlit("hdrCll");
    reveal_strlit("hdrMdcv");
    let p = "colorinfo"@;
    let x = member_key(p, "colorConfig"@);
    let y = member_key(p, "hdrCll"@);
    let z = member_key(p, "hdrMdcv"@);
    let a = member_key(x, name);
    let b = member_key(y, name);
    let c = member_key(z, name);
    assert(x[10] == 'c' && y[10] == 'h' && z[10] == 'h' && y[13] == 'C' && z[13] == 'M');
    assert(a[10] == 'c' && b[10] == 'h' && c[10] == 'h' && b[13] == 'C' && c[13] == 'M');
    assert(behind(a, y) ==> a.take(y.len() as int)[10] == y[10]);
    assert(behind(a, z) ==> a.take(z.len() as int)[10] == z[10]);
    assert(behind(b, x) ==> b.take(x.len() as int)[10] == x[10]);
    assert(behind(b, z) ==> b.take(z.len() as int)[13] == z[13]);
    assert(behind(c, x) ==> c.take(x.len() as int)[10] == x[10]);
    assert(behind(c, y) ==> c.take(y.len() as int)[13] == y[13]);
}

proof fn lemma_all_numbers(ci: ColorInfo)
    ensures
        config_group(ci) matches Some(p) ==> all_numbers(p),
        cll_group(ci) matches Some(p) ==> all_numbers(p),
        mdcv_group(ci) matches Some(p) ==> all_numbers(p),
{
}

/// What the entries behind a description of colours say under a key of a group.
proof fn lemma_colors_say(
    s: Seq<(Seq<char>, Leaf)>,
    ci: ColorInfo,
    name: Seq<char>,
    v: Option<Double>,
)
    ensures
        ({
            let p = "colorinfo"@;
            let e = with_colors(s, ci);
            let a = member_key(member_key(p, "colorConfig"@), name);
            let b = member_key(member_key(p, "hdrCll"@), name);
            let c = member_key(member_key(p, "hdrMdcv"@), name);
            &&& says(laid_group("colorConfig"@, config_group(ci)), a, v) ==> says(e, a, v)
            &&& says(laid_group("hdrCll"@, cll_group(ci)), b, v) ==> says(e, b, v)
            &&& says(laid_group("hdrMdcv"@, mdcv_group(ci)), c, v) ==> says(e, c, v)
        }),
{
    let p = "colorinfo"@;
    let w = without(s, p);
    let l = laid_group("colorConfig"@, config_group(ci));
    let m = laid_group("hdrCll"@, cll_group(ci));
    let n = laid_group("hdrMdcv"@, mdcv_group(ci));
    let a = member_key(member_key(p, "colorConfig"@), name);
    let b = member_key(member_key(p, "hdrCll"@), name);
    let c = member_key(member_key(p, "hdrMdcv"@), name);
    lemma_groups_apart(name);
    lemma_all_numbers(ci);
    if let Some(q) = config_group(ci) {
        lemma_laid_apart(q, member_key(p, "colorConfig"@), b);
        lemma_laid_apart(q, member_key(p, "colorConfig"@), c);
    }
    if let Some(q) = cll_group(ci) {
        lemma_laid_apart(q, member_key(p, "hdrCll"@), a);
        lemma_laid_apart(q, member_key(p, "hdrCll"@), c);
    }
    if let Some(q) = mdcv_group(ci) {
        lemma_laid_apart(q, member_key(p, "hdrMdcv"@), a);
        lemma_laid_apart(q, member_key(p, "hdrMdcv"@), b);
    }
    assert forall|k: Seq<char>| k == a || k == b || k == c implies #[trigger] says(w, k, None) by {
        let g = if k == a {
            "colorConfig"@
        } else if k == b {
            "hdrCll"@
        } else {
            "hdrMdcv"@
        };
        let rest = g + "."@ + name;
        assert(member_key(member_key(p, g), name) =~= member_key(p, rest));
        lemma_member_is_under(p, rest);
        lemma_without_says(s, p, k);
    }
    assert(says(w, a, None) && says(w, b, None) && says(w, c, None));
    lemma_says_add(l, m, a, v);
    lemma_says_add(l + m, n, a, v);
    lemma_says_add(w, l + m + n, a, v);
    lemma_says_add(l, m, b, v);
    lemma_says_add(l + m, n, b, v);
    lemma_says_add(w, l + m + n, b, v);
    lemma_says_add(l, m, c, None);
    lemma_says_add(l + m, n, c, v);
    lemma_says_add(w, l + m + n, c, v);
    if (l + m + n).len() == 0 {
        let none = seq![(p, Leaf::Text(""@))];
        reveal_strlit(".");
        assert(a.len() > p.len() && b.len() > p.len() && c.len() > p.len());
        assert(says(none, a, None) && says(none, b, None) && says(none, c, None));
        lemma_says_add(w, none, a, None);
        lemma_says_add(w, none, b, None);
        lemma_says_add(w, none, c, None);
        assert(l.len() == 0 && m.len() == 0 && n.len() == 0);
    }
}

/// A description of colours without groups in which nothing is given.
pub open spec fn tidied(ci: ColorInfo) -> ColorInfo {
    ColorInfo {
        color_config: match ci.color_config {
            Some(c) => given(c, no_config()),
            None => None,
        },
        hdr_cll: match ci.hdr_cll {
            Some(c) => given(c, HdrCll { max_fall: None, max_cll: None }),
            None => None,
        },
        hdr_mdcv: match ci.hdr_mdcv {
            Some(m) => given(m, no_mdcv()),
            None => None,
        },
    }
}

proof fn lemma_small_back(n: Option<u8>)
    ensures
        crate::typed_meta::byte(whole(small(n))) == n,
{
    if let Some(v) = n {
        lemma_of_int_order(v as nat, u32::MAX as nat);
        lemma_trunc_of_int(v as nat);
    }
}

/// The keys that colours are read by are those that they are laid flat under.
proof fn lemma_color_keys()
    ensures
        "colorinfo.colorConfig.bitDepth"@ == color_key("colorConfig"@, "bitDepth"@),
        "colorinfo.colorConfig.colorPrimaries"@ == color_key("colorConfig"@, "colorPrimaries"@),
        "colorinfo.colorConfig.transferCharacteristics"@ == color_key(
            "colorConfig"@,
            "transferCharacteristics"@,
        ),
        "colorinfo.colorConfig.matrixCoefficients"@ == color_key(
            "colorConfig"@,
            "matrixCoefficients"@,
        ),
        "colorinfo.hdrCll.maxFall"@ == color_key("hdrCll"@, "maxFall"@),
        "colorinfo.hdrCll.maxCLL"@ == color_key("hdrCll"@, "maxCLL"@),
        "colorinfo.hdrMdcv.redX"@ == color_key("hdrMdcv"@, "redX"@),
        "colorinfo.hdrMdcv.redY"@ == color_key("hdrMdcv"@, "redY"@),
        "colorinfo.hdrMdcv.greenX"@ == color_key("hdrMdcv"@, "greenX"@),
        "colorinfo.hdrMdcv.greenY"@ == color_key("hdrMdcv"@, "greenY"@),
        "colorinfo.hdrMdcv.blueX"@ == color_key("hdrMdcv"@, "blueX"@),
        "colorinfo.hdrMdcv.blueY"@ == color_key("hdrMdcv"@, "blueY"@),
        "colorinfo.hdrMdcv.whitePointX"@ == color_key("hdrMdcv"@, "whitePointX"@),
        "colorinfo.hdrMdcv.whitePointY"@ == color_key("hdrMdcv"@, "whitePointY"@),
        "colorinfo.hdrMdcv.maxLuminance"@ == color_key("hdrMdcv"@, "maxLuminance"@),
        "colorinfo.hdrMdcv.minLuminance"@ == color_key("hdrMdcv"@, "minLuminance"@),
{
    reveal_strlit("colorinfo");
    reveal_strlit(".");
    reveal_strlit("colorConfig");
    assert("colorinfo.colorConfig.bitDepth"@ =~= color_key("colorConfig"@, "bitDepth"@)) by {
        reveal_strlit("bitDepth");
        reveal_strlit("colorinfo.colorConfig.bitDepth");
    }
    assert("colorinfo.colorConfig.colorPrimaries"@
        =~= color_key("colorConfig"@, "colorPrimaries"@)) by {
        reveal_strlit("colorPrimaries");
        reveal_strlit("colorinfo.colorConfig.colorPrimaries");
    }
    assert("colorinfo.colorConfig.transferCharacteristics"@
        =~= color_key("colorConfig"@, "transferCharacteristics"@)) by {
        reveal_strlit("transferCharacteristics");
        reveal_strlit("colorinfo.colorConfig.transferCharacteristics");
    }
    assert("colorinfo.colorConfig.matrixCoefficients"@
        =~= color_key("colorConfig"@, "matrixCoefficients"@)) by {
        reveal_strlit("matrixCoefficients");
        reveal_strlit("colorinfo.colorConfig.matrixCoefficients");
    }
    reveal_strlit("hdrCll");
    assert("colorinfo.hdrCll.maxFall"@ =~= color_key("hdrCll"@, "maxFall"@)) by {
        reveal_strlit("maxFall");
        reveal_strlit("colorinfo.hdrCll.maxFall");
    }
    assert("colorinfo.hdrCll.maxCLL"@ =~= color_key("hdrCll"@, "maxCLL"@)) by {
        reveal_strlit("maxCLL");
        reveal_strlit("colorinfo.hdrCll.maxCLL");
    }
    reveal_strlit("hdrMdcv");
    assert("colorinfo.hdrMdcv.redX"@ =~= color_key("hdrMdcv"@, "redX"@)) by {
        reveal_strlit("redX");
        reveal_strlit("colorinfo.hdrMdcv.redX");
    }
    assert("colorinfo.hdrMdcv.redY"@ =~= color_key("hdrMdcv"@, "redY"@)) by {
        reveal_strlit("redY");
        reveal_strlit("colorinfo.hdrMdcv.redY");
    }
    assert("colorinfo.hdrMdcv.greenX"@ =~= color_key("hdrMdcv"@, "greenX"@)) by {
        reveal_strlit("greenX");
        reveal_strlit("colorinfo.hdrMdcv.greenX");
    }
    assert("colorinfo.hdrMdcv.greenY"@ =~= color_key("hdrMdcv"@, "greenY"@)) by {
        reveal_strlit("greenY");
        reveal_strlit("colorinfo.hdrMdcv.greenY");
    }
    assert("colorinfo.hdrMdcv.blueX"@ =~= color_key("hdrMdcv"@, "blueX"@)) by {
        reveal_strlit("blueX");
        reveal_strlit("colorinfo.hdrMdcv.blueX");
    }
    assert("colorinfo.hdrMdcv.blueY"@ =~= color_key("hdrMdcv"@, "blueY"@)) by {
        reveal_strlit("blueY");
        reveal_strlit("colorinfo.hdrMdcv.blueY");
    }
    assert("colorinfo.hdrMdcv.whitePointX"@ =~= color_key("hdrMdcv"@, "whitePointX"@)) by {
        reveal_strlit("whitePointX");
        reveal_strlit("colorinfo.hdrMdcv.whitePointX");
    }
    assert("colorinfo.hdrMdcv.whitePointY"@ =~= color_key("hdrMdcv"@, "whitePointY"@)) by {
        reveal_strlit("whitePointY");
        reveal_strlit("colorinfo.hdrMdcv.whitePointY");
    }
    assert("colorinfo.hdrMdcv.maxLuminance"@ =~= color_key("hdrMdcv"@, "maxLuminance"@)) by {
        reveal_strlit("maxLuminance");
        reveal_strlit("colorinfo.hdrMdcv.maxLuminance");
    }
    assert("colorinfo.hdrMdcv.minLuminance"@ =~= color_key("hdrMdcv"@, "minLuminance"@)) by {
        reveal_strlit("minLuminance");
        reveal_strlit("colorinfo.hdrMdcv.minLuminance");
    }
}

/// The key of a number of a group.
spec fn color_key(group_name: Seq<char>, name: Seq<char>) -> Seq<char> {
    member_key(member_key("colorinfo"@, group_name), name)
}

/// What is read under a key of a group is what the group says there.
proof fn lemma_color_lookup(
    s: Seq<(Seq<char>, Leaf)>,
    readings: Seq<Option<Double>>,
    ci: ColorInfo,
    name: Seq<char>,
    v: Option<Double>,
)
    ensures
        ({
            let e = with_colors(s, ci);
            let a = color_key("colorConfig"@, name);
            let b = color_key("hdrCll"@, name);
            let c = color_key("hdrMdcv"@, name);
            &&& says(laid_group("colorConfig"@, config_group(ci)), a, v) ==> lookup_u32(
                e,
                readings,
                a,
                0,
            ) == whole(v)
            &&& says(laid_group("hdrCll"@, cll_group(ci)), b, v) ==> lookup_f64(e, readings, b, 0)
                == finite_only(v)
            &&& says(laid_group("hdrMdcv"@, mdcv_group(ci)), c, v) ==> lookup_f64(e, readings, c, 0)
                == finite_only(v)
        }),
{
    let e = with_colors(s, ci);
    lemma_colors_say(s, ci, name, v);
    if says(e, color_key("colorConfig"@, name), v) {
        lemma_lookup_says(e, readings, color_key("colorConfig"@, name), v, 0);
    }
    if says(e, color_key("hdrCll"@, name), v) {
        lemma_lookup_says(e, readings, color_key("hdrCll"@, name), v, 0);
    }
    if says(e, color_key("hdrMdcv"@, name), v) {
        lemma_lookup_says(e, readings, color_key("hdrMdcv"@, name), v, 0);
    }
}

/// The group `colorConfig` that is read is the one that was written.
proof fn lemma_config_read(s: Seq<(Seq<char>, Leaf)>, readings: Seq<Option<Double>>, ci: ColorInfo)
    requires
        color_fault(ci) is None,
    ensures
        crate::typed_meta::config_in(Bag { entries: with_colors(s, ci), readings }) == (match ci.color_config {
            Some(c) => c,
            None => no_config(),
        }),
{
    let c = match ci.color_config {
        Some(c) => c,
        None => no_config(),
    };
    let x = member_key("colorinfo"@, "colorConfig"@);
    reveal_strlit("bitDepth");
    assert("bitDepth"@.len() == 8);
    reveal_strlit("colorPrimaries");
    assert("colorPrimaries"@.len() == 14);
    reveal_strlit("transferCharacteristics");
    assert("transferCharacteristics"@.len() == 23);
    reveal_strlit("matrixCoefficients");
    assert("matrixCoefficients"@.len() == 18);
    let f0 = Seq::<(Seq<char>, Option<Double>)>::empty();
    let p0 = Seq::<(Seq<char>, Meta)>::empty();
    lemma_listed_push(f0, p0, "bitDepth"@, small(c.bit_depth));
    let f1 = f0.push(("bitDepth"@, small(c.bit_depth)));
    let p1 = p0 + number("bitDepth"@, small(c.bit_depth));
    lemma_listed_push(f1, p1, "colorPrimaries"@, small(c.color_primaries));
    let f2 = f1.push(("colorPrimaries"@, small(c.color_primaries)));
    let p2 = p1 + number("colorPrimaries"@, small(c.color_primaries));
    lemma_listed_push(f2, p2, "transferCharacteristics"@, small(c.transfer_characteristics));
    let f3 = f2.push(("transferCharacteristics"@, small(c.transfer_characteristics)));
    let p3 = p2 + number("transferCharacteristics"@, small(c.transfer_characteristics));
    lemma_listed_push(f3, p3, "matrixCoefficients"@, small(c.matrix_coefficients));
    let f4 = f3.push(("matrixCoefficients"@, small(c.matrix_coefficients)));
    let p4 = p3 + number("matrixCoefficients"@, small(c.matrix_coefficients));
    assert(p4 =~= config_properties(c));
    assert(distinct(f4));
    lemma_color_keys();
    lemma_present(f4, x, 0);
    lemma_color_lookup(s, readings, ci, "bitDepth"@, small(c.bit_depth));
    lemma_small_back(c.bit_depth);
    lemma_present(f4, x, 1);
    lemma_color_lookup(s, readings, ci, "colorPrimaries"@, small(c.color_primaries));
    lemma_small_back(c.color_primaries);
    lemma_present(f4, x, 2);
    lemma_color_lookup(
        s,
        readings,
        ci,
        "transferCharacteristics"@,
        small(c.transfer_characteristics),
    );
    lemma_small_back(c.transfer_characteristics);
    lemma_present(f4, x, 3);
    lemma_color_lookup(s, readings, ci, "matrixCoefficients"@, small(c.matrix_coefficients));
    lemma_small_back(c.matrix_coefficients);
}

/// The group `hdrCll` that is read is the one that was written.
proof fn lemma_cll_read(s: Seq<(Seq<char>, Leaf)>, readings: Seq<Option<Double>>, ci: ColorInfo)
    requires
        color_fault(ci) is None,
    ensures
        crate::typed_meta::cll_in(Bag { entries: with_colors(s, ci), readings }) == (match ci.hdr_cll {
            Some(c) => c,
            None => (HdrCll { max_fall: None, max_cll: None }),
        }),
{
    let c = match ci.hdr_cll {
        Some(c) => c,
        None => (HdrCll { max_fall: None, max_cll: None }),
    };
    let x = member_key("colorinfo"@, "hdrCll"@);
    reveal_strlit("maxFall");
    assert("maxFall"@.len() == 7);
    reveal_strlit("maxCLL");
    assert("maxCLL"@.len() == 6);
    let f0 = Seq::<(Seq<char>, Option<Double>)>::empty();
    let p0 = Seq::<(Seq<char>, Meta)>::empty();
    lemma_listed_push(f0, p0, "maxFall"@, c.max_fall);
    let f1 = f0.push(("maxFall"@, c.max_fall));
    let p1 = p0 + number("maxFall"@, c.max_fall);
    lemma_listed_push(f1, p1, "maxCLL"@, c.max_cll);
    let f2 = f1.push(("maxCLL"@, c.max_cll));
    let p2 = p1 + number("maxCLL"@, c.max_cll);
    assert(p2 =~= cll_properties(c));
    assert(distinct(f2));
    lemma_color_keys();
    lemma_present(f2, x, 0);
    lemma_color_lookup(s, readings, ci, "maxFall"@, c.max_fall);
    lemma_present(f2, x, 1);
    lemma_color_lookup(s, readings, ci, "maxCLL"@, c.max_cll);
}

/// The group `hdrMdcv` that is read is the one that was written.
proof fn lemma_mdcv_read(s: Seq<(Seq<char>, Leaf)>, readings: Seq<Option<Double>>, ci: ColorInfo)
    requires
        color_fault(ci) is None,
    ensures
        crate::typed_meta::mdcv_in(Bag { entries: with_colors(s, ci), readings }) == (match ci.hdr_mdcv {
            Some(c) => c,
            None => no_mdcv(),
        }),
{
    let c = match ci.hdr_mdcv {
        Some(c) => c,
        None => no_mdcv(),
    };
    let x = member_key("colorinfo"@, "hdrMdcv"@);
    reveal_strlit("redX");
    assert("redX"@.len() == 4);
    reveal_strlit("redY");
    assert("redY"@.len() == 4);
    reveal_strlit("greenX");
    assert("greenX"@.len() == 6);
    reveal_strlit("greenY");
    assert("greenY"@.len() == 6);
    reveal_strlit("blueX");
    assert("blueX"@.len() == 5);
    reveal_strlit("blueY");
    assert("blueY"@.len() == 5);
    reveal_strlit("whitePointX");
    assert("whitePointX"@.len() == 11);
    reveal_strlit("whitePointY");
    assert("whitePointY"@.len() == 11);
    reveal_strlit("maxLuminance");
    assert("maxLuminance"@.len() == 12);
    reveal_strlit("minLuminance");
    assert("minLuminance"@.len() == 12);
    assert("redX"@[3] != "redY"@[3]);
    assert("greenX"@[5] != "greenY"@[5]);
    assert("blueX"@[4] != "blueY"@[4]);
    assert("whitePointX"@[10] != "whitePointY"@[10]);
    assert("maxLuminance"@[1] != "minLuminance"@[1]);
    let f0 = Seq::<(Seq<char>, Option<Double>)>::empty();
    let p0 = Seq::<(Seq<char>, Meta)>::empty();
    lemma_listed_push(f0, p0, "redX"@, c.red_x);
    let f1 = f0.push(("redX"@, c.red_x));
    let p1 = p0 + number("redX"@, c.red_x);
    lemma_listed_push(f1, p1, "redY"@, c.red_y);
    let f2 = f1.push(("redY"@, c.red_y));
    let p2 = p1 + number("redY"@, c.red_y);
    lemma_listed_push(f2, p2, "greenX"@, c.green_x);
    let f3 = f2.push(("greenX"@, c.green_x));
    let p3 = p2 + number("greenX"@, c.green_x);
    lemma_listed_push(f3, p3, "greenY"@, c.green_y);
    let f4 = f3.push(("greenY"@, c.green_y));
    let p4 = p3 + number("greenY"@, c.green_y);
    lemma_listed_push(f4, p4, "blueX"@, c.blue_x);
    let f5 = f4.push(("blueX"@, c.blue_x));
    let p5 = p4 + number("blueX"@, c.blue_x);
    lemma_listed_push(f5, p5, "blueY"@, c.blue_y);
    let f6 = f5.push(("blueY"@, c.blue_y));
    let p6 = p5 + number("blueY"@, c.blue_y);
    lemma_listed_push(f6, p6, "whitePointX"@, c.white_point_x);
    let f7 = f6.push(("whitePointX"@, c.white_point_x));
    let p7 = p6 + number("whitePointX"@, c.white_point_x);
    lemma_listed_push(f7, p7, "whitePointY"@, c.white_point_y);
    let f8 = f7.push(("whitePointY"@, c.white_point_y));
    let p8 = p7 + number("whitePointY"@, c.white_point_y);
    lemma_listed_push(f8, p8, "maxLuminance"@, c.max_luminance);
    let f9 = f8.push(("maxLuminance"@, c.max_luminance));
    let p9 = p8 + number("maxLuminance"@, c.max_luminance);
    lemma_listed_push(f9, p9, "minLuminance"@, c.min_luminance);
    let f10 = f9.push(("minLuminance"@, c.min_luminance));
    let p10 = p9 + number("minLuminance"@, c.min_luminance);
    assert(p10 =~= mdcv_properties(c));
    assert(distinct(f10));
    lemma_color_keys();
    lemma_present(f10, x, 0);
    lemma_color_lookup(s, readings, ci, "redX"@, c.red_x);
    lemma_present(f10, x, 1);
    lemma_color_lookup(s, readings, ci, "redY"@, c.red_y);
    lemma_present(f10, x, 2);
    lemma_color_lookup(s, readings, ci, "greenX"@, c.green_x);
    lemma_present(f10, x, 3);
    lemma_color_lookup(s, readings, ci, "greenY"@, c.green_y);
    lemma_present(f10, x, 4);
    lemma_color_lookup(s, readings, ci, "blueX"@, c.blue_x);
    lemma_present(f10, x, 5);
    lemma_color_lookup(s, readings, ci, "blueY"@, c.blue_y);
    lemma_present(f10, x, 6);
    lemma_color_lookup(s, readings, ci, "whitePointX"@, c.white_point_x);
    lemma_present(f10, x, 7);
    lemma_color_lookup(s, readings, ci, "whitePointY"@, c.white_point_y);
    lemma_present(f10, x, 8);
    lemma_color_lookup(s, readings, ci, "maxLuminance"@, c.max_luminance);
    lemma_present(f10, x, 9);
    lemma_color_lookup(s, readings, ci, "minLuminance"@, c.min_luminance);
}

/// A group stands behind the name of the colours.
proof fn lemma_group_keys(name: Seq<char>, p: Option<Seq<(Seq<char>, Meta)>>)
    requires
        p matches Some(q) ==> all_numbers(q),
    ensures
        forall|i: int|
            0 <= i < laid_group(name, p).len() ==> (#[trigger] laid_group(name, p)[i]).0
                != "colorinfo"@,
{
    reveal_strlit(".");
    if let Some(q) = p {
        let prefix = member_key("colorinfo"@, name);
        assert forall|i: int| 0 <= i < laid_group(name, p).len() implies (#[trigger] laid_group(
            name,
            p,
        )[i]).0 != "colorinfo"@ by {
            lemma_laid_keys(q, prefix, i);
        }
    }
}

proof fn lemma_lookup_nowhere(s: Seq<(Seq<char>, Leaf)>, key: Seq<char>, from: int)
    requires
        forall|i: int| 0 <= i < s.len() ==> (#[trigger] s[i]).0 != key,
    ensures
        lookup(s, key, from) is None,
    decreases s.len() - from,
{
    if 0 <= from < s.len() {
        lemma_lookup_nowhere(s, key, from + 1);
    }
}

/// Colours that were written are not taken for colours that were taken back.
proof fn lemma_colors_are_no_reset(s: Seq<(Seq<char>, Leaf)>, ci: ColorInfo)
    ensures
        lookup(with_colors(s, ci), "colorinfo"@, 0) != Some(Leaf::Text("undefined"@)),
{
    let p = "colorinfo"@;
    let w = without(s, p);
    let e = with_colors(s, ci);
    lemma_member_is_under(p, p);
    assert forall|i: int| 0 <= i < w.len() implies (#[trigger] w[i]).0 != p by {
        lemma_without(s, p, i);
    }
    let laid = laid_colors(ci);
    if laid.len() == 0 {
        lemma_empty_is_not_undefined();
        assert(e.last() == (p, Leaf::Text(""@)));
        lemma_lookup_last(e, p, 0);
    } else {
        let l = laid_group("colorConfig"@, config_group(ci));
        let m = laid_group("hdrCll"@, cll_group(ci));
        let n = laid_group("hdrMdcv"@, mdcv_group(ci));
        lemma_all_numbers(ci);
        lemma_group_keys("colorConfig"@, config_group(ci));
        lemma_group_keys("hdrCll"@, cll_group(ci));
        lemma_group_keys("hdrMdcv"@, mdcv_group(ci));
        assert forall|i: int| 0 <= i < e.len() implies (#[trigger] e[i]).0 != p by {
            let j = i - w.len();
            if i < w.len() {
                assert(e[i] == w[i]);
            } else if j < l.len() {
                assert(e[i] == l[j]);
            } else if j < l.len() + m.len() {
                assert(e[i] == m[j - l.len()]);
            } else {
                assert(e[i] == n[j - l.len() - m.len()]);
            }
        }
        lemma_lookup_nowhere(e, p, 0);
    }
}

proof fn lemma_empty_is_not_undefined()
    ensures
        ""@ != "undefined"@,
{
    reveal_strlit("");
    reveal_strlit("undefined");
    assert(""@.len() != "undefined"@.len());
}

/// Whatever is sent as colours, it is known that there were some.
pub proof fn law_colors_are_known(s: Seq<(Seq<char>, Leaf)>, v: AmfTree)
    ensures
        has_colors(noted(s, "colorInfo"@, v)),
{
    lemma_lower_name();
    let p = "colorinfo"@;
    let e = noted(s, "colorInfo"@, v);
    let k = without(s, p).len() as int;
    lemma_flat_keys(v, p);
    lemma_member_is_under(p, p);
    assert(mark(v, p).len() > 0);
    assert(e[k] == mark(v, p)[0]);
    if flat(v, p).len() > 0 {
        lemma_grown_is_under(flat(v, p)[0].0, p);
    }
    assert(under(e[k].0, p));
}

/// The bytes of the name of the colours: letters, and nothing that ends a part of a key.
proof fn lemma_color_bytes()
    ensures
        encode_utf8("colorinfo"@).len() == 9,
        encode_utf8("colorinfo"@)[0] == 0x63,
        forall|i: int|
            0 <= i < 9 ==> #[trigger] encode_utf8("colorinfo"@)[i] != 0x2E && encode_utf8(
                "colorinfo"@,
            )[i] != 0x5B,
{
    reveal_strlit("colorinfo");
    let p = "colorinfo"@;
    assert(is_ascii_chars(p));
    is_ascii_chars_encode_utf8(p);
    assert(p[0] as u8 == 0x63);
    assert forall|i: int| 0 <= i < 9 implies #[trigger] encode_utf8(p)[i] != 0x2E && encode_utf8(
        p,
    )[i] != 0x5B by {
        assert(p[i] as u8 == encode_utf8(p)[i]);
    }
}

/// What stands under the name of the colours stands under no name but that one and those under
/// it.
proof fn lemma_under_colors(key: Seq<char>, name: Seq<char>)
    requires
        under(key, "colorinfo"@),
        !under(name, "colorinfo"@),
    ensures
        !under(key, name),
{
    let p = "colorinfo"@;
    lemma_color_bytes();
    let kb = encode_utf8(key);
    let pb = encode_utf8(p);
    let nb = encode_utf8(name);
    if under(key, name) {
        assert(pb =~= kb.subrange(0, 9));
        assert(nb =~= kb.subrange(0, nb.len() as int));
        if nb.len() < 9 {
            assert(kb[nb.len() as int] == pb[nb.len() as int]);
        } else {
            assert(pb =~= nb.subrange(0, 9));
            assert(nb.len() > 9 ==> nb[9] == kb[9]);
        }
    }
}

/// What does not stand under a prefix is still there without what does.
proof fn lemma_without_keeps(s: Seq<(Seq<char>, Leaf)>, prefix: Seq<char>, i: int)
    requires
        0 <= i < s.len(),
        !under(s[i].0, prefix),
    ensures
        without(s, prefix).contains(s[i]),
    decreases s.len(),
{
    let rest = without(s.drop_last(), prefix);
    if i == s.len() - 1 {
        assert(rest.push(s.last())[rest.len() as int] == s[i]);
    } else {
        lemma_without_keeps(s.drop_last(), prefix, i);
        let j = choose|j: int| 0 <= j < rest.len() && rest[j] == s[i];
        assert(without(s, prefix)[j] == s[i]);
    }
}

proof fn lemma_colors_stay(s: Seq<(Seq<char>, Leaf)>, prefix: Seq<char>, more: Seq<(Seq<char>, Leaf)>)
    requires
        has_colors(s),
        !under(prefix, "colorinfo"@),
    ensures
        has_colors(without(s, prefix) + more),
{
    let i = choose|i: int| 0 <= i < s.len() && under((#[trigger] s[i]).0, "colorinfo"@);
    lemma_under_colors(s[i].0, prefix);
    lemma_without_keeps(s, prefix, i);
    let w = without(s, prefix);
    let j = choose|j: int| 0 <= j < w.len() && w[j] == s[i];
    assert((w + more)[j] == s[i]);
}

/// Once colours were sent it stays known that there were some: colours that are sent later, values
/// of other names, and configurations of speakers leave it so.
pub proof fn law_colors_stay_known(
    s: Seq<(Seq<char>, Leaf)>,
    name: Seq<char>,
    v: AmfTree,
    body: Seq<u8>,
)
    requires
        has_colors(s),
        lower(name) == "colorinfo"@ || !under(lower(name), "colorinfo"@),
    ensures
        has_colors(noted(s, name, v)),
        has_colors(audio_noted(s, body)),
{
    if lower(name) == "colorinfo"@ {
        lemma_lower_name();
        law_colors_are_known(s, v);
    } else {
        lemma_colors_stay(s, lower(name), mark(v, lower(name)));
    }
    if let Some(c) = speakers_in(body) {
        let speakers = "multichannelconfig"@;
        assert(!under(speakers, "colorinfo"@)) by {
            lemma_color_bytes();
            reveal_strlit("multichannelconfig");
            assert(is_ascii_chars(speakers));
            is_ascii_chars_encode_utf8(speakers);
            assert(speakers[0] as u8 == 0x6D);
        }
        lemma_colors_stay(s, speakers, layout(c));
    }
}

/// Colours that were written read back as they were, but for groups in which nothing was given;
/// they are known, and not taken for a reset. Written again, they are the same bytes.
pub proof fn law_colors_read_back(
    s: Seq<(Seq<char>, Leaf)>,
    readings: Seq<Option<Double>>,
    ci: ColorInfo,
)
    requires
        color_fault(ci) is None,
    ensures
        ({
            let entries = noted(s, "colorInfo"@, tree(color_object(ci)));
            let read = colors_in(Bag { entries, readings });
            &&& has_colors(entries)
            &&& lookup(entries, "colorinfo"@, 0) != Some(Leaf::Text("undefined"@))
            &&& read == tidied(ci)
            &&& ci == tidied(ci) ==> emit_color(read) == emit_color(ci)
        }),
{
    lemma_with_colors(s, ci);
    law_colors_are_known(s, tree(color_object(ci)));
    lemma_colors_are_no_reset(s, ci);
    lemma_config_read(s, readings, ci);
    lemma_cll_read(s, readings, ci);
    lemma_mdcv_read(s, readings, ci);
}

proof fn lemma_lookup_last(s: Seq<(Seq<char>, Leaf)>, key: Seq<char>, from: int)
    requires
        0 <= from < s.len(),
        s.last().0 == key,
        forall|i: int| 0 <= i < s.len() - 1 ==> (#[trigger] s[i]).0 != key,
    ensures
        lookup(s, key, from) == Some(s.last().1),
    decreases s.len() - from,
{
    if from < s.len() - 1 {
        lemma_lookup_last(s, key, from + 1);
    }
}

/// The entries when a text has taken the place of the colours.
pub open spec fn with_text(s: Seq<(Seq<char>, Leaf)>, t: Seq<char>) -> Seq<(Seq<char>, Leaf)> {
    without(s, "colorinfo"@).push(("colorinfo"@, Leaf::Text(t)))
}

/// Under a key of a group, a text in place of the colours reads as nothing.
proof fn lemma_reset_lookup(
    s: Seq<(Seq<char>, Leaf)>,
    t: Seq<char>,
    readings: Seq<Option<Double>>,
    group_name: Seq<char>,
    name: Seq<char>,
)
    ensures
        ({
            let e = with_text(s, t);
            let key = color_key(group_name, name);
            lookup_f64(e, readings, key, 0) is None && lookup_u32(e, readings, key, 0) is None
        }),
{
    let p = "colorinfo"@;
    let e = with_text(s, t);
    let key = color_key(group_name, name);
    let rest = group_name + "."@ + name;
    assert(key =~= member_key(p, rest));
    lemma_member_is_under(p, rest);
    lemma_without_says(s, p, key);
    reveal_strlit(".");
    assert(key.len() > p.len());
    assert(says(e, key, None));
    lemma_lookup_says(e, readings, key, None, 0);
}

/// No colours.
pub open spec fn no_colors() -> ColorInfo {
    ColorInfo { color_config: None, hdr_cll: None, hdr_mdcv: None }
}

/// A text in place of the colours is all that is read of them.
proof fn lemma_text_for_colors(
    s: Seq<(Seq<char>, Leaf)>,
    t: Seq<char>,
    readings: Seq<Option<Double>>,
)
    ensures
        has_colors(with_text(s, t)),
        lookup(with_text(s, t), "colorinfo"@, 0) == Some(Leaf::Text(t)),
        colors_in(Bag { entries: with_text(s, t), readings }) == no_colors(),
{
    let p = "colorinfo"@;
    let w = without(s, p);
    let entries = with_text(s, t);
    lemma_member_is_under(p, p);
    assert(under(entries[entries.len() - 1].0, p));
    assert forall|i: int| 0 <= i < entries.len() - 1 implies (#[trigger] entries[i]).0 != p by {
        lemma_without(s, p, i);
        assert(entries[i] == w[i]);
    }
    lemma_lookup_last(entries, p, 0);
    lemma_color_keys();
    lemma_reset_lookup(s, t, readings, "colorConfig"@, "bitDepth"@);
    lemma_reset_lookup(s, t, readings, "colorConfig"@, "colorPrimaries"@);
    lemma_reset_lookup(s, t, readings, "colorConfig"@, "transferCharacteristics"@);
    lemma_reset_lookup(s, t, readings, "colorConfig"@, "matrixCoefficients"@);
    lemma_reset_lookup(s, t, readings, "hdrCll"@, "maxFall"@);
    lemma_reset_lookup(s, t, readings, "hdrCll"@, "maxCLL"@);
    lemma_reset_lookup(s, t, readings, "hdrMdcv"@, "redX"@);
    lemma_reset_lookup(s, t, readings, "hdrMdcv"@, "redY"@);
    lemma_reset_lookup(s, t, readings, "hdrMdcv"@, "greenX"@);
    lemma_reset_lookup(s, t, readings, "hdrMdcv"@, "greenY"@);
    lemma_reset_lookup(s, t, readings, "hdrMdcv"@, "blueX"@);
    lemma_reset_lookup(s, t, readings, "hdrMdcv"@, "blueY"@);
    lemma_reset_lookup(s, t, readings, "hdrMdcv"@, "whitePointX"@);
    lemma_reset_lookup(s, t, readings, "hdrMdcv"@, "whitePointY"@);
    lemma_reset_lookup(s, t, readings, "hdrMdcv"@, "maxLuminance"@);
    lemma_reset_lookup(s, t, readings, "hdrMdcv"@, "minLuminance"@);
}

/// Colours that were taken back read as such, and as none.
pub proof fn law_color_reset_reads_back(s: Seq<(Seq<char>, Leaf)>, readings: Seq<Option<Double>>)
    ensures
        ({
            let entries = noted(s, "colorInfo"@, AmfTree::Undefined);
            &&& has_colors(entries)
            &&& lookup(entries, "colorinfo"@, 0) == Some(Leaf::Text("undefined"@))
            &&& colors_in(Bag { entries, readings }) == no_colors()
        }),
{
    lemma_lower_name();
    assert(flat(AmfTree::Undefined, "colorinfo"@) == seq![
        ("colorinfo"@, Leaf::Text("undefined"@)),
    ]);
    assert(noted(s, "colorInfo"@, AmfTree::Undefined) =~= with_text(s, "undefined"@));
    lemma_text_for_colors(s, "undefined"@, readings);
}

/// Colours in which there is nothing, such as an empty object, are known, are not taken for a
/// reset, and read as none.
pub proof fn law_empty_colors_read_back(
    s: Seq<(Seq<char>, Leaf)>,
    readings: Seq<Option<Double>>,
    v: AmfTree,
)
    requires
        flat(v, "colorinfo"@).len() == 0,
    ensures
        ({
            let entries = noted(s, "colorInfo"@, v);
            &&& has_colors(entries)
            &&& lookup(entries, "colorinfo"@, 0) != Some(Leaf::Text("undefined"@))
            &&& colors_in(Bag { entries, readings }) == no_colors()
        }),
{
    lemma_lower_name();
    lemma_empty_is_not_undefined();
    assert(noted(s, "colorInfo"@, v) =~= with_text(s, ""@));
    lemma_text_for_colors(s, ""@, readings);
}

/// An empty object and an empty associative array have nothing in them.
pub proof fn law_empty_object_is_flat(key: Seq<char>)
    ensures
        flat(AmfTree::Object(Seq::empty()), key).len() == 0,
        flat(AmfTree::EcmaArray(Seq::empty()), key).len() == 0,
{
    let none = Seq::<(Seq<char>, AmfTree)>::empty();
    assert(flat_pairs(none, key).len() == 0);
    assert(flat(AmfTree::Object(none), key) == flat_pairs(none, key));
    assert(flat(AmfTree::EcmaArray(none), key) == flat_pairs(none, key));
}

// ---- tracks -----------------------------------------------------------------

/// A property of a track is of no other.
proof fn lemma_tracks_apart(map: Seq<char>, a: u32, b: u32, name: Seq<char>)
    requires
        a != b,
    ensures
        !behind(field_key(map, a, name), track_key(map, b)),
{
    reveal_strlit(".");
    let x = decimal(a as nat);
    let y = decimal(b as nat);
    let n = map.len() as int + 1;
    let key = field_key(map, a, name);
    let prefix = track_key(map, b);
    if behind(key, prefix) {
        assert forall|i: int| 0 <= i < x.len() && i < y.len() implies x[i] == y[i] by {
            assert(key[n + i] == x[i]);
            assert(prefix[n + i] == y[i]);
            assert(key.take(prefix.len() as int)[n + i] == prefix[n + i]);
        }
        assert(key[n + x.len()] == '.');
        assert(key[n + y.len()] == '.');
        if x.len() < y.len() {
            assert(key.take(prefix.len() as int)[n + x.len()] == prefix[n + x.len()]);
            lemma_decimal_digits(b as nat, x.len() as int);
        } else if y.len() < x.len() {
            assert(key[n + y.len()] == x[y.len() as int]);
            lemma_decimal_digits(a as nat, y.len() as int);
        }
        assert(x =~= y);
        lemma_decimal_injective(a as nat, b as nat);
    }
}

/// The properties of tracks, laid flat.
spec fn laid_tracks(map: Seq<char>, s: Seq<(u32, TrackInfo)>, kind: MediaKind) -> Seq<
    (Seq<char>, Leaf),
>
    decreases s.len(),
{
    if s.len() == 0 {
        Seq::empty()
    } else {
        laid(track_properties(s[0].1, kind), track_key(map, s[0].0)) + laid_tracks(
            map,
            s.drop_first(),
            kind,
        )
    }
}

proof fn lemma_laid_tracks(map: Seq<char>, s: Seq<(u32, TrackInfo)>, kind: MediaKind)
    ensures
        flat(tree(track_map(s, kind)), map) == laid_tracks(map, s, kind),
    decreases s.len(),
{
    let p = track_map(s, kind)->Object_0;
    let t = trees(p);
    assert(flat(AmfTree::Object(t), map) == flat_pairs(t, map));
    if s.len() == 0 {
        assert(flat_pairs(t, map) =~= Seq::empty());
    } else {
        let rest = s.drop_first();
        lemma_laid_tracks(map, rest, kind);
        let q = track_map(rest, kind)->Object_0;
        assert(p.drop_first() =~= q);
        assert(t.drop_first() =~= trees(q));
        assert(flat(AmfTree::Object(trees(q)), map) == flat_pairs(trees(q), map));
        let r = track_properties(s[0].1, kind);
        assert(t[0] == (decimal(s[0].0 as nat), AmfTree::Object(trees(r))));
        let key = track_key(map, s[0].0);
        assert(flat(AmfTree::Object(trees(r)), key) == flat_pairs(trees(r), key));
    }
}

/// Of a property of one track, the other tracks say nothing.
proof fn lemma_tracks_say(
    map: Seq<char>,
    s: Seq<(u32, TrackInfo)>,
    kind: MediaKind,
    id: u32,
    k: int,
    name: Seq<char>,
    v: Option<Double>,
)
    requires
        forall|i: int| 0 <= i < s.len() && i != k ==> (#[trigger] s[i]).0 != id,
        0 <= k < s.len() ==> s[k].0 == id && says(
            laid(track_properties(s[k].1, kind), track_key(map, id)),
            field_key(map, id, name),
            v,
        ),
        !(0 <= k < s.len()) ==> v is None,
    ensures
        says(laid_tracks(map, s, kind), field_key(map, id, name), v),
    decreases s.len(),
{
    if s.len() > 0 {
        let rest = s.drop_first();
        let key = field_key(map, id, name);
        let head = laid(track_properties(s[0].1, kind), track_key(map, s[0].0));
        let tail = laid_tracks(map, rest, kind);
        if k == 0 {
            lemma_tracks_say(map, rest, kind, id, -1, name, None);
        } else {
            assert(0 < k < s.len() ==> rest[k - 1] == s[k]);
            lemma_tracks_say(map, rest, kind, id, k - 1, name, v);
            lemma_tracks_apart(map, id, s[0].0, name);
            lemma_laid_apart(track_properties(s[0].1, kind), track_key(map, s[0].0), key);
        }
        lemma_says_add(head, tail, key, v);
    }
}

proof fn lemma_whole_back(n: Option<u32>)
    ensures
        whole(track_info::whole(n)) == n,
{
    if let Some(v) = n {
        lemma_of_int_order(v as nat, u32::MAX as nat);
        lemma_trunc_of_int(v as nat);
    }
}

/// Entries that do not stand under a map say nothing of its tracks.
proof fn lemma_outside(s: Seq<(Seq<char>, Leaf)>, map: Seq<char>, id: u32, name: Seq<char>)
    requires
        forall|i: int| 0 <= i < s.len() ==> !under((#[trigger] s[i]).0, map),
    ensures
        says(s, field_key(map, id, name), None),
{
    let rest = decimal(id as nat) + "."@ + name;
    assert(field_key(map, id, name) =~= member_key(map, rest));
    lemma_member_is_under(map, rest);
}

/// A track of which something is said has a property.
proof fn lemma_has_track(
    s: Seq<(Seq<char>, Leaf)>,
    map: Seq<char>,
    id: u32,
    name: Seq<char>,
    v: Option<Double>,
)
    requires
        id > 0,
        v is Some,
        says(s, field_key(map, id, name), v),
    ensures
        has_track(s, map, id),
{
    let key = field_key(map, id, name);
    let e = (key, Leaf::Number(v->0));
    let i = choose|i: int| 0 <= i < s.len() && s[i] == e;
    let start = track_key(map, id) + "."@;
    assert(key =~= start + name);
    lemma_starts_add(start, name);
    assert(of_track(s[i].0, map, id));
}

/// What the entries of a file say of a property of a track.
proof fn lemma_field_says(
    before: Seq<(Seq<char>, Leaf)>,
    after: Seq<(Seq<char>, Leaf)>,
    map: Seq<char>,
    s: Seq<(u32, TrackInfo)>,
    kind: MediaKind,
    k: int,
    name: Seq<char>,
    v: Option<Double>,
)
    requires
        0 <= k < s.len(),
        forall|i: int| 0 <= i < s.len() && i != k ==> (#[trigger] s[i]).0 != s[k].0,
        says(
            laid(track_properties(s[k].1, kind), track_key(map, s[k].0)),
            field_key(map, s[k].0, name),
            v,
        ),
        forall|i: int| 0 <= i < before.len() ==> !under((#[trigger] before[i]).0, map),
        forall|i: int| 0 <= i < after.len() ==> !under((#[trigger] after[i]).0, map),
    ensures
        says(
            before + flat(tree(track_map(s, kind)), map) + after,
            field_key(map, s[k].0, name),
            v,
        ),
{
    let key = field_key(map, s[k].0, name);
    let mid = laid_tracks(map, s, kind);
    lemma_laid_tracks(map, s, kind);
    lemma_tracks_say(map, s, kind, s[k].0, k, name, v);
    lemma_outside(before, map, s[k].0, name);
    lemma_outside(after, map, s[k].0, name);
    lemma_says_add(before, mid, key, v);
    lemma_says_add(before + mid, after, key, v);
}

/// A track of video in a map that was written reads back as it was, if something was said of it
/// and no other track has its id. Numbers that are not finite are left out.
pub proof fn law_video_track_reads_back(
    before: Seq<(Seq<char>, Leaf)>,
    after: Seq<(Seq<char>, Leaf)>,
    readings: Seq<Option<Double>>,
    s: Seq<(u32, TrackInfo)>,
    k: int,
)
    requires
        0 <= k < s.len(),
        s[k].0 > 0,
        forall|i: int| 0 <= i < s.len() && i != k ==> (#[trigger] s[i]).0 != s[k].0,
        track_properties(s[k].1, MediaKind::Video).len() > 0,
        forall|i: int|
            0 <= i < before.len() ==> !under((#[trigger] before[i]).0, "videotrackidinfomap"@),
        forall|i: int|
            0 <= i < after.len() ==> !under((#[trigger] after[i]).0, "videotrackidinfomap"@),
    ensures
        ({
            let map = flat(tree(track_map(s, MediaKind::Video)), "videotrackidinfomap"@);
            let t = s[k].1;
            video_track(Bag { entries: before + map + after, readings }, s[k].0) == Some(
                TypedVideoTrackInfo {
                    track_id: s[k].0,
                    width: t.width,
                    height: t.height,
                    video_data_rate_kbps: finite_only(t.video_data_rate_kbps),
                    framerate: finite_only(t.framerate),
                    video_codec_id: t.video_codec_id,
                },
            )
        }),
{
    let map = "videotrackidinfomap"@;
    let t = s[k].1;
    let id = s[k].0;
    let e = before + flat(tree(track_map(s, MediaKind::Video)), map) + after;
    let x = track_key(map, id);
    reveal_strlit("width");
    assert("width"@.len() == 5);
    reveal_strlit("height");
    assert("height"@.len() == 6);
    reveal_strlit("videodatarate");
    assert("videodatarate"@.len() == 13);
    reveal_strlit("framerate");
    assert("framerate"@.len() == 9);
    reveal_strlit("videocodecid");
    assert("videocodecid"@.len() == 12);
    reveal_strlit("videoframerate");
    assert("videoframerate"@.len() == 14);
    let f0 = Seq::<(Seq<char>, Option<Double>)>::empty();
    let p0 = Seq::<(Seq<char>, Meta)>::empty();
    lemma_listed_push(f0, p0, "width"@, track_info::whole(t.width));
    let f1 = f0.push(("width"@, track_info::whole(t.width)));
    let p1 = p0 + number("width"@, track_info::whole(t.width));
    lemma_listed_push(f1, p1, "height"@, track_info::whole(t.height));
    let f2 = f1.push(("height"@, track_info::whole(t.height)));
    let p2 = p1 + number("height"@, track_info::whole(t.height));
    lemma_listed_push(f2, p2, "videodatarate"@, t.video_data_rate_kbps);
    let f3 = f2.push(("videodatarate"@, t.video_data_rate_kbps));
    let p3 = p2 + number("videodatarate"@, t.video_data_rate_kbps);
    lemma_listed_push(f3, p3, "framerate"@, t.framerate);
    let f4 = f3.push(("framerate"@, t.framerate));
    let p4 = p3 + number("framerate"@, t.framerate);
    lemma_listed_push(f4, p4, "videocodecid"@, track_info::whole(t.video_codec_id));
    let f5 = f4.push(("videocodecid"@, track_info::whole(t.video_codec_id)));
    let p5 = p4 + number("videocodecid"@, track_info::whole(t.video_codec_id));
    assert(p5 =~= track_properties(t, MediaKind::Video));
    assert(distinct(f5));
    lemma_present(f5, x, 0);
    lemma_field_says(
        before,
        after,
        map,
        s,
        MediaKind::Video,
        k,
        "width"@,
        track_info::whole(t.width),
    );
    lemma_lookup_says(e, readings, field_key(map, id, "width"@), track_info::whole(t.width), 0);
    if t.width is Some {
        lemma_has_track(e, map, id, "width"@, track_info::whole(t.width));
    }
    lemma_whole_back(t.width);
    lemma_present(f5, x, 1);
    lemma_field_says(
        before,
        after,
        map,
        s,
        MediaKind::Video,
        k,
        "height"@,
        track_info::whole(t.height),
    );
    lemma_lookup_says(e, readings, field_key(map, id, "height"@), track_info::whole(t.height), 0);
    if t.height is Some {
        lemma_has_track(e, map, id, "height"@, track_info::whole(t.height));
    }
    lemma_whole_back(t.height);
    lemma_present(f5, x, 2);
    lemma_field_says(
        before,
        after,
        map,
        s,
        MediaKind::Video,
        k,
        "videodatarate"@,
        t.video_data_rate_kbps,
    );
    lemma_lookup_says(e, readings, field_key(map, id, "videodatarate"@), t.video_data_rate_kbps, 0);
    if t.video_data_rate_kbps is Some {
        lemma_has_track(e, map, id, "videodatarate"@, t.video_data_rate_kbps);
    }
    lemma_present(f5, x, 3);
    lemma_field_says(before, after, map, s, MediaKind::Video, k, "framerate"@, t.framerate);
    lemma_lookup_says(e, readings, field_key(map, id, "framerate"@), t.framerate, 0);
    if t.framerate is Some {
        lemma_has_track(e, map, id, "framerate"@, t.framerate);
    }
    lemma_present(f5, x, 4);
    lemma_field_says(
        before,
        after,
        map,
        s,
        MediaKind::Video,
        k,
        "videocodecid"@,
        track_info::whole(t.video_codec_id),
    );
    lemma_lookup_says(
        e,
        readings,
        field_key(map, id, "videocodecid"@),
        track_info::whole(t.video_codec_id),
        0,
    );
    if t.video_codec_id is Some {
        lemma_has_track(e, map, id, "videocodecid"@, track_info::whole(t.video_codec_id));
    }
    lemma_whole_back(t.video_codec_id);
    lemma_absent(f5, x, "videoframerate"@);
    lemma_field_says(before, after, map, s, MediaKind::Video, k, "videoframerate"@, None);
    lemma_lookup_says(e, readings, field_key(map, id, "videoframerate"@), None, 0);
}

/// A track of audio in a map that was written reads back as it was, if something was said of it
/// and no other track has its id. Numbers that are not finite are left out.
pub proof fn law_audio_track_reads_back(
    before: Seq<(Seq<char>, Leaf)>,
    after: Seq<(Seq<char>, Leaf)>,
    readings: Seq<Option<Double>>,
    s: Seq<(u32, TrackInfo)>,
    k: int,
)
    requires
        0 <= k < s.len(),
        s[k].0 > 0,
        forall|i: int| 0 <= i < s.len() && i != k ==> (#[trigger] s[i]).0 != s[k].0,
        track_properties(s[k].1, MediaKind::Audio).len() > 0,
        forall|i: int|
            0 <= i < before.len() ==> !under((#[trigger] before[i]).0, "audiotrackidinfomap"@),
        forall|i: int|
            0 <= i < after.len() ==> !under((#[trigger] after[i]).0, "audiotrackidinfomap"@),
    ensures
        ({
            let map = flat(tree(track_map(s, MediaKind::Audio)), "audiotrackidinfomap"@);
            let t = s[k].1;
            audio_track(Bag { entries: before + map + after, readings }, s[k].0) == Some(
                TypedAudioTrackInfo {
                    track_id: s[k].0,
                    audio_data_rate_kbps: finite_only(t.audio_data_rate_kbps),
                    channels: t.channels,
                    audio_sample_rate: finite_only(t.audio_sample_rate),
                    audio_codec_id: t.audio_codec_id,
                },
            )
        }),
{
    let map = "audiotrackidinfomap"@;
    let t = s[k].1;
    let id = s[k].0;
    let e = before + flat(tree(track_map(s, MediaKind::Audio)), map) + after;
    let x = track_key(map, id);
    reveal_strlit("audiodatarate");
    assert("audiodatarate"@.len() == 13);
    reveal_strlit("channels");
    assert("channels"@.len() == 8);
    reveal_strlit("samplerate");
    assert("samplerate"@.len() == 10);
    reveal_strlit("audiocodecid");
    assert("audiocodecid"@.len() == 12);
    let f0 = Seq::<(Seq<char>, Option<Double>)>::empty();
    let p0 = Seq::<(Seq<char>, Meta)>::empty();
    lemma_listed_push(f0, p0, "audiodatarate"@, t.audio_data_rate_kbps);
    let f1 = f0.push(("audiodatarate"@, t.audio_data_rate_kbps));
    let p1 = p0 + number("audiodatarate"@, t.audio_data_rate_kbps);
    lemma_listed_push(f1, p1, "channels"@, track_info::whole(t.channels));
    let f2 = f1.push(("channels"@, track_info::whole(t.channels)));
    let p2 = p1 + number("channels"@, track_info::whole(t.channels));
    lemma_listed_push(f2, p2, "samplerate"@, t.audio_sample_rate);
    let f3 = f2.push(("samplerate"@, t.audio_sample_rate));
    let p3 = p2 + number("samplerate"@, t.audio_sample_rate);
    lemma_listed_push(f3, p3, "audiocodecid"@, track_info::whole(t.audio_codec_id));
    let f4 = f3.push(("audiocodecid"@, track_info::whole(t.audio_codec_id)));
    let p4 = p3 + number("audiocodecid"@, track_info::whole(t.audio_codec_id));
    assert(p4 =~= track_properties(t, MediaKind::Audio));
    assert(distinct(f4));
    lemma_present(f4, x, 0);
    lemma_field_says(
        before,
        after,
        map,
        s,
        MediaKind::Audio,
        k,
        "audiodatarate"@,
        t.audio_data_rate_kbps,
    );
    lemma_lookup_says(e, readings, field_key(map, id, "audiodatarate"@), t.audio_data_rate_kbps, 0);
    if t.audio_data_rate_kbps is Some {
        lemma_has_track(e, map, id, "audiodatarate"@, t.audio_data_rate_kbps);
    }
    lemma_present(f4, x, 1);
    lemma_field_says(
        before,
        after,
        map,
        s,
        MediaKind::Audio,
        k,
        "channels"@,
        track_info::whole(t.channels),
    );
    lemma_lookup_says(
        e,
        readings,
        field_key(map, id, "channels"@),
        track_info::whole(t.channels),
        0,
    );
    if t.channels is Some {
        lemma_has_track(e, map, id, "channels"@, track_info::whole(t.channels));
    }
    lemma_whole_back(t.channels);
    lemma_present(f4, x, 2);
    lemma_field_says(
        before,
        after,
        map,
        s,
        MediaKind::Audio,
        k,
        "samplerate"@,
        t.audio_sample_rate,
    );
    lemma_lookup_says(e, readings, field_key(map, id, "samplerate"@), t.audio_sample_rate, 0);
    if t.audio_sample_rate is Some {
        lemma_has_track(e, map, id, "samplerate"@, t.audio_sample_rate);
    }
    lemma_present(f4, x, 3);
    lemma_field_says(
        before,
        after,
        map,
        s,
        MediaKind::Audio,
        k,
        "audiocodecid"@,
        track_info::whole(t.audio_codec_id),
    );
    lemma_lookup_says(
        e,
        readings,
        field_key(map, id, "audiocodecid"@),
        track_info::whole(t.audio_codec_id),
        0,
    );
    if t.audio_codec_id is Some {
        lemma_has_track(e, map, id, "audiocodecid"@, track_info::whole(t.audio_codec_id));
    }
    lemma_whole_back(t.audio_codec_id);
}

// ---- the properties of the file ---------------------------------------------

/// Under `key` there is `leaf` and nothing else.
pub open spec fn only(s: Seq<(Seq<char>, Leaf)>, key: Seq<char>, leaf: Leaf) -> bool {
    &&& s.contains((key, leaf))
    &&& forall|i: int| 0 <= i < s.len() && (#[trigger] s[i]).0 == key ==> s[i].1 == leaf
}

proof fn lemma_lookup_only(s: Seq<(Seq<char>, Leaf)>, key: Seq<char>, leaf: Leaf, from: int)
    requires
        0 <= from <= s.len(),
        only(s, key, leaf),
        forall|i: int| 0 <= i < from ==> (#[trigger] s[i]).0 != key,
    ensures
        lookup(s, key, from) == Some(leaf),
    decreases s.len() - from,
{
    if from == s.len() {
        let i = choose|i: int| 0 <= i < s.len() && s[i] == (key, leaf);
        assert(s[i].0 == key);
    } else if s[from].0 != key {
        lemma_lookup_only(s, key, leaf, from + 1);
    }
}

/// A truth value is that of the first entry.
proof fn lemma_lookup_truth(s: Seq<(Seq<char>, Leaf)>, key: Seq<char>, b: bool, from: int)
    requires
        0 <= from <= s.len(),
        lookup(s, key, from) == Some(Leaf::Text(truth(b))),
    ensures
        lookup_bool(s, key, from) == Some(b),
    decreases s.len() - from,
{
    reveal_strlit("true");
    reveal_strlit("false");
    assert("true"@.len() != "false"@.len());
    if from < s.len() && s[from].0 != key {
        lemma_lookup_truth(s, key, b, from + 1);
    }
}

/// What a property is laid flat as.
pub open spec fn shown(p: (Seq<char>, AmfTree)) -> Seq<(Seq<char>, Leaf)> {
    flat(p.1, shown_name(p.0, p.1))
}

/// Every entry comes from before, or from a property.
proof fn lemma_entry_source(f: Facts, s: Seq<(Seq<char>, AmfTree)>, e: (Seq<char>, Leaf)) -> (j: int)
    requires
        properties(f, s).entries.contains(e),
    ensures
        f.entries.contains(e) || (0 <= j < s.len() && shown(s[j]).contains(e)),
    decreases s.len(),
{
    if s.len() == 0 {
        0
    } else {
        let g = property(f, s[0].0, s[0].1);
        let rest = s.drop_first();
        let j = lemma_entry_source(g, rest, e);
        if g.entries.contains(e) {
            if !f.entries.contains(e) {
                assert(g.entries =~= f.entries + shown(s[0]));
                let i = choose|i: int| 0 <= i < g.entries.len() && g.entries[i] == e;
                assert(i >= f.entries.len()) by {
                    if i < f.entries.len() {
                        assert(f.entries[i] == e);
                    }
                }
                assert(shown(s[0])[i - f.entries.len()] == e);
            }
            0
        } else {
            assert(rest[j] == s[j + 1]);
            j + 1
        }
    }
}

/// A number, a truth value, a text or a date that was written as metadata reads back as it was,
/// if no other property is laid flat under its name.
pub proof fn law_scalars_read_back(
    bag: Seq<(Seq<char>, Meta)>,
    readings: Seq<Option<Double>>,
    i: int,
)
    requires
        emit_script("onMetaData"@, Meta::EcmaArray(bag)).fault is None,
        0 <= i < bag.len(),
        forall|j: int, e: (Seq<char>, Leaf)|
            0 <= j < bag.len() && j != i && #[trigger] shown(trees(bag)[j]).contains(e) ==> e.0
                != bag[i].0,
    ensures
        ({
            let s = script(Facts::none(), emit_script("onMetaData"@, Meta::EcmaArray(bag)).bytes).entries;
            let key = bag[i].0;
            match bag[i].1 {
                Meta::Number(n) => lookup_f64(s, readings, key, 0) == finite_only(Some(n))
                    && lookup_u32(s, readings, key, 0) == whole(Some(n)),
                Meta::Boolean(b) => lookup_bool(s, key, 0) == Some(b),
                Meta::String(t) => lookup(s, key, 0) == Some(Leaf::Text(t)),
                Meta::Date { time_ms, tz } => lookup(s, key, 0) == Some(Leaf::Date { time_ms, tz }),
                _ => true,
            }
        }),
{
    let f = Facts::none();
    let t = trees(bag);
    let key = bag[i].0;
    let s = properties(f, t).entries;
    law_metadata_comes_back(f, bag);
    assert(t[i] == (key, tree(bag[i].1)));
    let leaf = match bag[i].1 {
        Meta::Number(n) => Leaf::Number(n),
        Meta::Boolean(b) => Leaf::Text(truth(b)),
        Meta::String(x) => Leaf::Text(x),
        Meta::Date { time_ms, tz } => Leaf::Date { time_ms, tz },
        _ => Leaf::Text(Seq::empty()),
    };
    if bag[i].1 is Number || bag[i].1 is Boolean || bag[i].1 is String || bag[i].1 is Date {
        assert(shown(t[i]) =~= seq![(key, leaf)]);
        assert(shown(t[i])[0] == (key, leaf));
        law_properties_survive(f, t, i, (key, leaf));
        assert forall|k: int| 0 <= k < s.len() && (#[trigger] s[k]).0 == key implies s[k].1
            == leaf by {
            let j = lemma_entry_source(f, t, s[k]);
            assert(shown(t[j]).contains(s[k]));
            assert(j == i);
        }
        assert(only(s, key, leaf));
        lemma_lookup_only(s, key, leaf, 0);
        if let Meta::Number(n) = bag[i].1 {
            lemma_lookup_says(s, readings, key, Some(n), 0);
        }
        if let Meta::Boolean(b) = bag[i].1 {
            lemma_lookup_truth(s, key, b, 0);
        }
    }
}

// ---- the list of tracks -----------------------------------------------------

/// The track that a key is read as is the one that it is of a property of.
proof fn lemma_track_of(key: Seq<char>, map: Seq<char>, id: u32)
    requires
        of_track(key, map, id),
    ensures
        track_of(key, map) == Some(id),
{
    assert(track_key(map, id) + "."@ =~= map + "."@ + decimal(id as nat) + "."@);
    lemma_numbered(key, map + "."@, id);
}

proof fn lemma_listed_tracks(s: Seq<(Seq<char>, Leaf)>, map: Seq<char>, n: nat)
    requires
        n <= s.len(),
    ensures
        track_ids(s, map, n).no_duplicates(),
        forall|id: u32|
            #[trigger] track_ids(s, map, n).contains(id) <==> exists|i: int|
                0 <= i < n && of_track((#[trigger] s[i]).0, map, id),
    decreases n,
{
    let ids = track_ids(s, map, n);
    if n > 0 {
        let m = (n - 1) as nat;
        let before = track_ids(s, map, m);
        lemma_listed_tracks(s, map, m);
        let key = s[n - 1].0;
        let last = track_of(key, map);
        assert(ids == (match last {
            Some(id) => if before.contains(id) {
                before
            } else {
                before.push(id)
            },
            None => before,
        }));
        assert forall|id: u32| #[trigger] ids.contains(id) <==> before.contains(id) || of_track(
            key,
            map,
            id,
        ) by {
            if of_track(key, map, id) {
                lemma_track_of(key, map, id);
            }
            if ids.contains(id) && !before.contains(id) {
                let j = choose|j: int| 0 <= j < ids.len() && ids[j] == id;
                assert(j == before.len()) by {
                    if j < before.len() {
                        assert(before[j] == id);
                    }
                }
                assert(last == Some(id));
            }
            if before.contains(id) {
                let j = choose|j: int| 0 <= j < before.len() && before[j] == id;
                assert(ids[j] == id);
            }
            if of_track(key, map, id) && !before.contains(id) {
                assert(ids[before.len() as int] == id);
            }
        }
        assert forall|id: u32| #[trigger] ids.contains(id) <==> exists|i: int|
            0 <= i < n && of_track((#[trigger] s[i]).0, map, id) by {
            assert(ids.contains(id) <==> before.contains(id) || of_track(key, map, id));
            if before.contains(id) {
                let i = choose|i: int| 0 <= i < m && of_track((#[trigger] s[i]).0, map, id);
                assert(of_track(s[i].0, map, id));
            }
            if exists|i: int| 0 <= i < n && of_track((#[trigger] s[i]).0, map, id) {
                let i = choose|i: int| 0 <= i < n && of_track((#[trigger] s[i]).0, map, id);
                if i < m {
                    assert(before.contains(id));
                }
            }
        }
    }
}

/// Every track with a property is listed, each once, and no other is.
pub proof fn law_tracks_are_listed(s: Seq<(Seq<char>, Leaf)>, map: Seq<char>)
    ensures
        track_ids(s, map, s.len()).no_duplicates(),
        forall|id: u32|
            #[trigger] track_ids(s, map, s.len()).contains(id) <==> has_track(s, map, id),
{
    lemma_listed_tracks(s, map, s.len());
}

} // verus!
