//! What a file says of itself in script tags.
use vstd::prelude::*;
use vstd::string::*;
use vstd::utf8::*;
use crate::amf0::{fields, items_view, member, pairs_view, parse_amf0_value, AmfTree, AmfValue};
use crate::amf0::decode::value;
use crate::demuxer::entries::{
    entries_view, flat, flatten_amf_value, push_text, Entry, Leaf,
};
use crate::double::Double;
use crate::text::{decimal, push_decimal, same_text};

verus! {

// ---- the table of keyframes -----------------------------------------------

/// Where the keyframes of a file are.
#[derive(Debug, PartialEq, Eq)]
pub struct KeyframeIndex {
    /// The place of each keyframe's tag, in bytes from the start of the file.
    pub file_positions: Vec<u64>,
    /// The time of each keyframe in seconds.
    pub times_seconds: Vec<Double>,
}

/// What a table is, apart from how it is held in memory.
#[verifier::ext_equal]
pub struct Toc {
    pub positions: Seq<u64>,
    pub times: Seq<Double>,
}

impl View for KeyframeIndex {
    type V = Toc;

    open spec fn view(&self) -> Toc {
        Toc { positions: self.file_positions@, times: self.times_seconds@ }
    }
}

impl Clone for KeyframeIndex {
    fn clone(&self) -> (r: Self)
        ensures
            r@ == self@,
    {
        let file_positions = self.file_positions.clone();
        let times_seconds = self.times_seconds.clone();
        assert(file_positions@ =~= self.file_positions@);
        assert(times_seconds@ =~= self.times_seconds@);
        KeyframeIndex { file_positions, times_seconds }
    }
}

/// No time is after a later one.
pub open spec fn ascending(times: Seq<Double>) -> bool {
    forall|i: int, j: int|
        0 <= i < j < times.len() ==> (#[trigger] times[i]).rank() <= (#[trigger] times[j]).rank()
}

impl Toc {
    /// There is an entry, each has a place and a time, and the times are finite and in order.
    pub open spec fn well_formed(self) -> bool {
        &&& self.times.len() > 0
        &&& self.times.len() == self.positions.len()
        &&& forall|i: int| 0 <= i < self.times.len() ==> (#[trigger] self.times[i]).finite()
        &&& ascending(self.times)
    }
}

/// The place that a number stands for.
pub open spec fn position(n: Double) -> Option<u64> {
    if n.within(Double { bits: 0x43F0_0000_0000_0000 }) {
        Some(
            if n.trunc() <= u64::MAX {
                n.trunc() as u64
            } else {
                u64::MAX
            },
        )
    } else {
        None
    }
}

/// Every item is a finite number.
pub open spec fn all_finite(a: Seq<AmfTree>) -> bool {
    forall|i: int| 0 <= i < a.len() ==> (#[trigger] a[i] matches AmfTree::Number(n) && n.finite())
}

/// Every item is a number that stands for a place.
pub open spec fn all_positions(a: Seq<AmfTree>) -> bool {
    forall|i: int|
        0 <= i < a.len() ==> (#[trigger] a[i] matches AmfTree::Number(n) && position(n) is Some)
}

/// The numbers of a run of numbers.
pub open spec fn numbers(a: Seq<AmfTree>) -> Seq<Double> {
    Seq::new(a.len(), |i: int| a[i]->Number_0)
}

/// The places that a run of numbers stands for.
pub open spec fn positions(a: Seq<AmfTree>) -> Seq<u64> {
    Seq::new(a.len(), |i: int| position(a[i]->Number_0)->0)
}

/// An array that can stand in a table: of finite numbers, and of places if it is called so.
pub open spec fn sound(name: Seq<char>, v: AmfTree) -> bool {
    v matches AmfTree::StrictArray(a) ==> all_finite(a) && (name == "filepositions"@
        ==> all_positions(a))
}

/// The last array called `name`.
pub open spec fn last_array(s: Seq<(Seq<char>, AmfTree)>, name: Seq<char>) -> Option<Seq<AmfTree>>
    decreases s.len(),
{
    if s.len() == 0 {
        None
    } else if s.last().0 == name && s.last().1 is StrictArray {
        Some(s.last().1->StrictArray_0)
    } else {
        last_array(s.drop_last(), name)
    }
}

/// The table in named values: the arrays `filepositions` and `times`, of the same length and not
/// empty, the times in order. There is no table if any array beside them holds what is not a
/// finite number.
pub open spec fn table(s: Seq<(Seq<char>, AmfTree)>) -> Option<Toc> {
    if forall|i: int| 0 <= i < s.len() ==> sound((#[trigger] s[i]).0, s[i].1) {
        match (last_array(s, "filepositions"@), last_array(s, "times"@)) {
            (Some(p), Some(t)) => if p.len() > 0 && p.len() == t.len() && ascending(numbers(t)) {
                Some(Toc { positions: positions(p), times: numbers(t) })
            } else {
                None
            },
            _ => None,
        }
    } else {
        None
    }
}

/// The table in an object or associative array.
pub open spec fn keyframes(v: AmfTree) -> Option<Toc> {
    match v {
        AmfTree::Object(s) => table(s),
        AmfTree::EcmaArray(s) => table(s),
        _ => None,
    }
}

fn finite_numbers(a: &Vec<AmfValue>) -> (r: Option<Vec<Double>>)
    ensures
        r is Some <==> all_finite(items_view(a@)),
        r matches Some(v) ==> v@ == numbers(items_view(a@)),
{
    let ghost s = items_view(a@);
    let mut out: Vec<Double> = Vec::new();
    let mut i: usize = 0;
    while i < a.len()
        invariant
            i <= a@.len(),
            s == items_view(a@),
            out@.len() == i,
            forall|j: int|
                0 <= j < i ==> (#[trigger] s[j] matches AmfTree::Number(n) && n.finite() && out@[j]
                    == n),
        decreases a@.len() - i,
    {
        assert(s[i as int] == a@[i as int]@);
        match &a[i] {
            AmfValue::Number(n) => {
                if !n.is_finite() {
                    return None;
                }
                out.push(*n);
            },
            _ => {
                return None;
            },
        }
        i += 1;
    }
    assert(out@ =~= numbers(s));
    Some(out)
}

fn all_places(nums: &Vec<Double>, Ghost(s): Ghost<Seq<AmfTree>>) -> (r: Option<Vec<u64>>)
    requires
        all_finite(s),
        nums@ == numbers(s),
    ensures
        r is Some <==> all_positions(s),
        r matches Some(v) ==> v@ == positions(s),
{
    let mut out: Vec<u64> = Vec::new();
    let mut i: usize = 0;
    while i < nums.len()
        invariant
            i <= nums@.len(),
            nums@ == numbers(s),
            all_finite(s),
            out@.len() == i,
            forall|j: int|
                0 <= j < i ==> (#[trigger] s[j] matches AmfTree::Number(n) && position(n) == Some(
                    out@[j],
                )),
        decreases nums@.len() - i,
    {
        assert(s[i as int] is Number && s[i as int]->Number_0 == nums@[i as int]);
        match nums[i].to_u64() {
            Some(p) => {
                out.push(p);
            },
            None => {
                return None;
            },
        }
        i += 1;
    }
    assert(out@ =~= positions(s));
    Some(out)
}

fn in_order(times: &Vec<Double>) -> (r: bool)
    ensures
        r == ascending(times@),
{
    let mut i: usize = 1;
    while i < times.len()
        invariant
            1 <= i,
            i <= times@.len() || times@.len() == 0,
            forall|a: int, b: int|
                0 <= a < b < i && b < times@.len() ==> (#[trigger] times@[a]).rank() <= (
                #[trigger] times@[b]).rank(),
        decreases times@.len() - i,
    {
        if times[i].less(times[i - 1]) {
            assert(times@[i - 1].rank() > times@[i as int].rank());
            return false;
        }
        i += 1;
    }
    true
}

/// Reads a table of keyframes.
pub fn parse_keyframes_object(v: &AmfValue) -> (r: Option<KeyframeIndex>)
    ensures
        match (r, keyframes(v@)) {
            (Some(k), Some(t)) => k@ == t && t.well_formed(),
            (None, None) => true,
            _ => false,
        },
{
    let body: &Vec<(String, AmfValue)> = match v {
        AmfValue::Object(b) => b,
        AmfValue::EcmaArray(b) => b,
        _ => {
            return None;
        },
    };
    let ghost s = pairs_view(body@);
    let mut file_positions: Option<Vec<u64>> = None;
    let mut times: Option<Vec<Double>> = None;
    let mut i: usize = 0;
    while i < body.len()
        invariant
            i <= body@.len(),
            s == pairs_view(body@),
            keyframes(v@) == table(s),
            forall|j: int| 0 <= j < i ==> sound((#[trigger] s[j]).0, s[j].1),
            match (file_positions, last_array(s.take(i as int), "filepositions"@)) {
                (Some(p), Some(a)) => p@ == positions(a),
                (None, None) => true,
                _ => false,
            },
            match (times, last_array(s.take(i as int), "times"@)) {
                (Some(t), Some(a)) => t@ == numbers(a) && all_finite(a),
                (None, None) => true,
                _ => false,
            },
        decreases body@.len() - i,
    {
        proof {
            let next = s.take(i + 1);
            assert(next.last() == s[i as int]);
            assert(next.drop_last() =~= s.take(i as int));
            assert(s[i as int] == (body@[i as int].0@, body@[i as int].1@));
            reveal_strlit("times");
            reveal_strlit("filepositions");
            assert("times"@.len() != "filepositions"@.len());
        }
        let name = body[i].0.as_str();
        if let AmfValue::StrictArray(a) = &body[i].1 {
            let ghost items = items_view(a@);
            match finite_numbers(a) {
                None => {
                    assert(!sound(s[i as int].0, s[i as int].1));
                    return None;
                },
                Some(nums) => {
                    if same_text(name, "filepositions") {
                        match all_places(&nums, Ghost(items)) {
                            None => {
                                assert(!sound(s[i as int].0, s[i as int].1));
                                return None;
                            },
                            Some(p) => {
                                file_positions = Some(p);
                            },
                        }
                    } else if same_text(name, "times") {
                        times = Some(nums);
                    }
                },
            }
        }
        i += 1;
    }
    assert(s.take(s.len() as int) =~= s);
    match (file_positions, times) {
        (Some(file_positions), Some(times_seconds)) => {
            if file_positions.len() == 0 || file_positions.len() != times_seconds.len() {
                return None;
            }
            if !in_order(&times_seconds) {
                return None;
            }
            Some(KeyframeIndex { file_positions, times_seconds })
        },
        _ => None,
    }
}

// ---- encryption -------------------------------------------------------------

/// How a file says it is encrypted.
#[derive(Debug, PartialEq, Eq)]
pub struct EncryptionHeadline {
    pub version: Option<Double>,
    pub method: Option<String>,
    pub algorithm: Option<String>,
    /// Bytes of the key.
    pub key_length: Option<Double>,
    pub key_subtype: Option<String>,
}

/// What a headline is, apart from how it is held in memory.
#[verifier::ext_equal]
pub struct Headline {
    pub version: Option<Double>,
    pub method: Option<Seq<char>>,
    pub algorithm: Option<Seq<char>>,
    pub key_length: Option<Double>,
    pub key_subtype: Option<Seq<char>>,
}

/// The text of an optional string.
pub open spec fn text_view(s: Option<String>) -> Option<Seq<char>> {
    match s {
        Some(t) => Some(t@),
        None => None,
    }
}

impl View for EncryptionHeadline {
    type V = Headline;

    open spec fn view(&self) -> Headline {
        Headline {
            version: self.version,
            method: text_view(self.method),
            algorithm: text_view(self.algorithm),
            key_length: self.key_length,
            key_subtype: text_view(self.key_subtype),
        }
    }
}

/// The value called `key` in what may not be there.
pub open spec fn inner(v: Option<AmfTree>, key: Seq<char>) -> Option<AmfTree> {
    match v {
        Some(w) => member(w, key),
        None => None,
    }
}

/// The text of a string.
pub open spec fn text_of(v: Option<AmfTree>) -> Option<Seq<char>> {
    match v {
        Some(AmfTree::String(s)) => Some(s),
        _ => None,
    }
}

/// The value of a number.
pub open spec fn number_of(v: Option<AmfTree>) -> Option<Double> {
    match v {
        Some(AmfTree::Number(n)) => Some(n),
        _ => None,
    }
}

/// The headline in the value of an `|AdditionalHeader` script tag.
pub open spec fn headline(v: AmfTree) -> Option<Headline> {
    let encryption = member(v, "Encryption"@);
    match encryption {
        None => None,
        Some(_) => {
            let params = inner(encryption, "Params"@);
            Some(
                Headline {
                    version: number_of(inner(encryption, "Version"@)),
                    method: text_of(inner(encryption, "Method"@)),
                    algorithm: text_of(inner(params, "EncryptionAlgorithm"@)),
                    key_length: number_of(inner(inner(params, "EncryptionParams"@), "KeyLength"@)),
                    key_subtype: text_of(inner(inner(params, "KeyInfo"@), "SubType"@)),
                },
            )
        },
    }
}

/// The tree of an optional value.
pub open spec fn tree_view(v: Option<&AmfValue>) -> Option<AmfTree> {
    match v {
        Some(w) => Some(w@),
        None => None,
    }
}

fn get_inner<'a>(v: Option<&'a AmfValue>, key: &str) -> (r: Option<&'a AmfValue>)
    ensures
        tree_view(r) == inner(tree_view(v), key@),
{
    match v {
        Some(w) => w.get(key),
        None => None,
    }
}

fn get_text(v: Option<&AmfValue>, key: &str) -> (r: Option<String>)
    ensures
        text_view(r) == text_of(inner(tree_view(v), key@)),
{
    match get_inner(v, key) {
        Some(AmfValue::String(s)) => Some(s.clone()),
        _ => None,
    }
}

fn get_number(v: Option<&AmfValue>, key: &str) -> (r: Option<Double>)
    ensures
        r == number_of(inner(tree_view(v), key@)),
{
    match get_inner(v, key) {
        Some(AmfValue::Number(n)) => Some(*n),
        _ => None,
    }
}

/// Reads the headline in the value of an `|AdditionalHeader` script tag.
pub fn parse_additional_header(v: &AmfValue) -> (r: Option<EncryptionHeadline>)
    ensures
        match (r, headline(v@)) {
            (Some(h), Some(x)) => h@ == x,
            (None, None) => true,
            _ => false,
        },
{
    let encryption = v.get("Encryption");
    if encryption.is_none() {
        return None;
    }
    let params = get_inner(encryption, "Params");
    Some(
        EncryptionHeadline {
            version: get_number(encryption, "Version"),
            method: get_text(encryption, "Method"),
            algorithm: get_text(params, "EncryptionAlgorithm"),
            key_length: get_number(get_inner(params, "EncryptionParams"), "KeyLength"),
            key_subtype: get_text(get_inner(params, "KeyInfo"), "SubType"),
        },
    )
}

// ---- XMP --------------------------------------------------------------------

/// The text of a string or of XML.
pub open spec fn prose(v: AmfTree) -> Option<Seq<char>> {
    match v {
        AmfTree::String(s) => Some(s),
        AmfTree::Xml(s) => Some(s),
        _ => None,
    }
}

/// The first text called `liveXML`.
pub open spec fn live_text(s: Seq<(Seq<char>, AmfTree)>) -> Option<Seq<char>>
    decreases s.len(),
{
    if s.len() == 0 {
        None
    } else if s[0].0 == "liveXML"@ && prose(s[0].1) is Some {
        prose(s[0].1)
    } else {
        live_text(s.drop_first())
    }
}

/// The XMP packet in the value of an `onXMPData` script tag: its `liveXML`, or the value itself
/// where it is a text.
pub open spec fn live_xml(v: AmfTree) -> Option<Seq<char>> {
    match fields(v) {
        Some(s) => live_text(s),
        None => prose(v),
    }
}

fn get_prose(v: &AmfValue) -> (r: Option<String>)
    ensures
        text_view(r) == prose(v@),
{
    match v {
        AmfValue::String(s) => Some(s.clone()),
        AmfValue::Xml(s) => Some(s.clone()),
        _ => None,
    }
}

/// Reads the XMP packet in the value of an `onXMPData` script tag.
pub fn xmp_live_xml(v: &AmfValue) -> (r: Option<String>)
    ensures
        text_view(r) == live_xml(v@),
{
    let body: &Vec<(String, AmfValue)> = match v {
        AmfValue::Object(b) => b,
        AmfValue::EcmaArray(b) => b,
        AmfValue::TypedObject { class_name, body } => body,
        _ => {
            return get_prose(v);
        },
    };
    let ghost s = pairs_view(body@);
    let mut i: usize = 0;
    assert(s.skip(0) =~= s);
    while i < body.len()
        invariant
            i <= body@.len(),
            s == pairs_view(body@),
            live_xml(v@) == live_text(s.skip(i as int)),
        decreases body@.len() - i,
    {
        proof {
            assert(s.skip(i as int)[0] == (body@[i as int].0@, body@[i as int].1@));
            assert(s.skip(i as int).drop_first() =~= s.skip(i + 1));
        }
        if same_text(body[i].0.as_str(), "liveXML") {
            let found = get_prose(&body[i].1);
            if found.is_some() {
                return found;
            }
        }
        i += 1;
    }
    None
}

// ---- cue points -------------------------------------------------------------

/// The UTF-8 bytes of a text start with those of another.
pub open spec fn starts(s: Seq<char>, with: Seq<char>) -> bool {
    encode_utf8(with).is_prefix_of(encode_utf8(s))
}

/// Whether a text starts with another.
pub(crate) fn starts_with(s: &str, with: &str) -> (r: bool)
    ensures
        r == starts(s@, with@),
{
    let a = s.as_bytes();
    let b = with.as_bytes();
    if b.len() > a.len() {
        return false;
    }
    let mut i: usize = 0;
    while i < b.len()
        invariant
            i <= b@.len() <= a@.len(),
            a@ == encode_utf8(s@),
            b@ == encode_utf8(with@),
            forall|j: int| 0 <= j < i ==> a@[j] == b@[j],
        decreases b@.len() - i,
    {
        if a[i] != b[i] {
            return false;
        }
        i += 1;
    }
    assert(b@ =~= a@.subrange(0, b@.len() as int));
    true
}

/// The number that decimal digits spell.
pub open spec fn digits(s: Seq<u8>) -> Option<nat>
    decreases s.len(),
{
    if s.len() == 0 {
        Some(0)
    } else {
        match digits(s.drop_last()) {
            Some(n) => if 0x30 <= s.last() <= 0x39 {
                Some((10 * n + (s.last() - 0x30)) as nat)
            } else {
                None
            },
            None => None,
        }
    }
}

/// The number of 32 bits that digits spell, which a plus sign may precede.
pub open spec fn spelled_number(s: Seq<u8>) -> Option<u32> {
    let d = if s.len() > 0 && s[0] == 0x2B {
        s.skip(1)
    } else {
        s
    };
    match digits(d) {
        Some(n) => if d.len() > 0 && n <= u32::MAX {
            Some(n as u32)
        } else {
            None
        },
        None => None,
    }
}

/// The place of the first full stop from `from` on, or the end.
pub open spec fn stop_from(s: Seq<u8>, from: int) -> int
    decreases s.len() - from,
{
    if !(0 <= from < s.len()) {
        s.len() as int
    } else if s[from] == 0x2E {
        from
    } else {
        stop_from(s, from + 1)
    }
}

/// The first cue number behind that in a key, or zero where the key is not of a cue point. A
/// number that cannot be read counts as zero.
pub open spec fn cue_behind(key: Seq<char>) -> nat {
    let prefix = "cuepoint."@;
    if starts(key, prefix) {
        let s = encode_utf8(key);
        let from = encode_utf8(prefix).len() as int;
        match spelled_number(s.subrange(from, stop_from(s, from))) {
            Some(n) => (n + 1) as nat,
            None => 1,
        }
    } else {
        0
    }
}

/// The first cue number behind those in use.
pub open spec fn next_cue(s: Seq<(Seq<char>, Leaf)>) -> nat
    decreases s.len(),
{
    if s.len() == 0 {
        0
    } else {
        let n = next_cue(s.drop_last());
        let m = cue_behind(s.last().0);
        if n < m {
            m
        } else {
            n
        }
    }
}

/// More digits spell a larger number.
proof fn lemma_digits_grow(s: Seq<u8>, i: int)
    requires
        0 <= i <= s.len(),
        digits(s) is Some,
    ensures
        digits(s.take(i)) is Some,
        digits(s.take(i))->0 <= digits(s)->0,
    decreases s.len(),
{
    if i == s.len() {
        assert(s.take(i) =~= s);
    } else {
        lemma_digits_grow(s.drop_last(), i);
        assert(s.drop_last().take(i) =~= s.take(i));
    }
}

pub(crate) fn read_number(s: &[u8], from: usize, to: usize) -> (r: Option<u32>)
    requires
        from <= to <= s@.len(),
    ensures
        r == spelled_number(s@.subrange(from as int, to as int)),
{
    let ghost all = s@.subrange(from as int, to as int);
    let start: usize = if from < to && s[from] == 0x2B {
        from + 1
    } else {
        from
    };
    let ghost d = s@.subrange(start as int, to as int);
    assert(start == from + 1 ==> d =~= all.skip(1));
    if start == to {
        return None;
    }
    let mut n: u32 = 0;
    let mut i: usize = start;
    assert(d.take(0) =~= Seq::<u8>::empty());
    while i < to
        invariant
            from <= start <= i <= to <= s@.len(),
            start < to,
            all == s@.subrange(from as int, to as int),
            d == s@.subrange(start as int, to as int),
            spelled_number(all) == (match digits(d) {
                Some(n) => if n <= u32::MAX {
                    Some(n as u32)
                } else {
                    None::<u32>
                },
                None => None::<u32>,
            }),
            digits(d.take(i - start)) == Some(n as nat),
        decreases to - i,
    {
        let ghost k = i - start;
        proof {
            assert(d.take(k + 1).drop_last() =~= d.take(k));
            assert(d.take(k + 1).last() == s@[i as int]);
            if digits(d) is Some {
                lemma_digits_grow(d, k + 1);
            }
        }
        let b: u8 = s[i];
        if b < 0x30 || b > 0x39 {
            return None;
        }
        let wide: u64 = 10 * n as u64 + (b - 0x30) as u64;
        if wide > u32::MAX as u64 {
            return None;
        }
        n = wide as u32;
        i += 1;
    }
    assert(d.take(to - start) =~= d);
    Some(n)
}

pub(crate) fn find_stop(s: &[u8], from: usize) -> (r: usize)
    requires
        from <= s@.len(),
    ensures
        r == stop_from(s@, from as int),
        from <= r <= s@.len(),
{
    let mut i: usize = from;
    while i < s.len()
        invariant
            from <= i <= s@.len(),
            stop_from(s@, from as int) == stop_from(s@, i as int),
        decreases s@.len() - i,
    {
        if s[i] == 0x2E {
            return i;
        }
        i += 1;
    }
    i
}

fn read_cue(key: &str) -> (r: u64)
    ensures
        r == cue_behind(key@),
        r <= 0x1_0000_0000,
{
    let prefix = "cuepoint.";
    if !starts_with(key, prefix) {
        return 0;
    }
    let s = key.as_bytes();
    let from: usize = prefix.as_bytes().len();
    let to: usize = find_stop(s, from);
    match read_number(s, from, to) {
        Some(n) => n as u64 + 1,
        None => 1,
    }
}

fn count_cues(entries: &Vec<Entry>) -> (r: u64)
    ensures
        r == next_cue(entries_view(entries@)),
{
    let ghost s = entries_view(entries@);
    let mut n: u64 = 0;
    let mut i: usize = 0;
    assert(s.take(0) =~= Seq::<(Seq<char>, Leaf)>::empty());
    while i < entries.len()
        invariant
            i <= entries@.len(),
            s == entries_view(entries@),
            n == next_cue(s.take(i as int)),
        decreases entries@.len() - i,
    {
        proof {
            assert(s.take(i + 1).drop_last() =~= s.take(i as int));
            assert(s.take(i + 1).last() == entries@[i as int]@);
        }
        let m: u64 = read_cue(entries[i].key.as_str());
        if n < m {
            n = m;
        }
        i += 1;
    }
    assert(s.take(s.len() as int) =~= s);
    n
}

// ---- script tags ------------------------------------------------------------

/// What script tags said.
#[derive(Debug, PartialEq, Eq)]
pub struct Discovery {
    pub entries: Vec<Entry>,
    /// The length of the file in seconds.
    pub duration: Option<Double>,
    pub keyframes: Option<KeyframeIndex>,
    pub encryption: Option<EncryptionHeadline>,
    pub xmp: Option<String>,
}

/// What script tags said, apart from how it is held in memory.
#[verifier::ext_equal]
pub struct Facts {
    pub entries: Seq<(Seq<char>, Leaf)>,
    pub duration: Option<Double>,
    pub keyframes: Option<Toc>,
    pub encryption: Option<Headline>,
    pub xmp: Option<Seq<char>>,
}

impl View for Discovery {
    type V = Facts;

    open spec fn view(&self) -> Facts {
        Facts {
            entries: entries_view(self.entries@),
            duration: self.duration,
            keyframes: match self.keyframes {
                Some(k) => Some(k@),
                None => None,
            },
            encryption: match self.encryption {
                Some(h) => Some(h@),
                None => None,
            },
            xmp: text_view(self.xmp),
        }
    }
}

impl Facts {
    /// Nothing was said.
    pub open spec fn none() -> Facts {
        Facts {
            entries: Seq::empty(),
            duration: None,
            keyframes: None,
            encryption: None,
            xmp: None,
        }
    }

    /// A table of keyframes is in order.
    pub open spec fn well_formed(self) -> bool {
        self.keyframes matches Some(t) ==> t.well_formed()
    }

    pub open spec fn with(self, more: Seq<(Seq<char>, Leaf)>) -> Facts {
        Facts { entries: self.entries + more, ..self }
    }
}

/// The bits of the least number of seconds whose microseconds are no signed number of 64 bits.
pub const DURATION_LIMIT: u64 = 0x42A0_C6F7_A0B5_ED8D;

/// A number that can be the length of a file.
pub open spec fn plausible(n: Double) -> bool {
    0 <= n.rank() < DURATION_LIMIT
}

/// The key under which a property is laid flat: the maps of what each track is go by names in
/// lower case.
pub open spec fn shown_name(name: Seq<char>, v: AmfTree) -> Seq<char> {
    if fields(v) is Some && name == "videoTrackIdInfoMap"@ {
        "videotrackidinfomap"@
    } else if fields(v) is Some && name == "audioTrackIdInfoMap"@ {
        "audiotrackidinfomap"@
    } else {
        name
    }
}

/// One property of `onMetaData`: the first table of keyframes is kept apart, the first length
/// is noted, and all else is laid flat.
pub open spec fn property(f: Facts, name: Seq<char>, v: AmfTree) -> Facts {
    if name == "keyframes"@ && (v is Object || v is EcmaArray) {
        Facts {
            keyframes: if f.keyframes is None {
                keyframes(v)
            } else {
                f.keyframes
            },
            ..f
        }
    } else {
        let g = f.with(flat(v, shown_name(name, v)));
        match v {
            AmfTree::Number(n) => if name == "duration"@ && f.duration is None && plausible(n) {
                Facts { duration: Some(n), ..g }
            } else {
                g
            },
            _ => g,
        }
    }
}

/// The properties of `onMetaData`, in order.
pub open spec fn properties(f: Facts, s: Seq<(Seq<char>, AmfTree)>) -> Facts
    decreases s.len(),
{
    if s.len() == 0 {
        f
    } else {
        properties(property(f, s[0].0, s[0].1), s.drop_first())
    }
}

/// The class of a typed object.
pub open spec fn class_entry(v: AmfTree) -> Seq<(Seq<char>, Leaf)> {
    match v {
        AmfTree::TypedObject { class_name, body } => seq![
            ("scriptdata.class"@, Leaf::Text(class_name)),
        ],
        _ => Seq::empty(),
    }
}

/// The value of an `onMetaData` script tag.
pub open spec fn on_metadata(f: Facts, v: AmfTree) -> Facts {
    match fields(v) {
        Some(s) => properties(f.with(class_entry(v)), s),
        None => f,
    }
}

/// A script tag that calls `name` with `v`.
pub open spec fn call(f: Facts, name: Seq<char>, v: AmfTree) -> Facts {
    if name == "onMetaData"@ {
        on_metadata(f, v)
    } else if name == "onXMPData"@ {
        Facts {
            xmp: if live_xml(v) is Some {
                live_xml(v)
            } else {
                f.xmp
            },
            ..f
        }
    } else if name == "onCuePoint"@ {
        f.with(flat(v, "cuepoint."@ + decimal(next_cue(f.entries))))
    } else if name == "|AdditionalHeader"@ {
        Facts { encryption: headline(v), ..f }
    } else {
        f.with(
            seq![("scriptdata.name"@, Leaf::Text(name))] + flat(v, "scriptdata."@ + name),
        )
    }
}

/// The body of a script tag: a name and a value. A body that is neither says nothing.
pub open spec fn script(f: Facts, body: Seq<u8>) -> Facts {
    match value(body, 0) {
        Ok((AmfTree::String(name), p)) => match value(body, p) {
            Ok((v, q)) => call(f, name, v),
            Err(e) => f,
        },
        _ => f,
    }
}

impl Discovery {
    /// Nothing was said.
    pub fn new() -> (r: Self)
        ensures
            r@ == Facts::none(),
            r@.well_formed(),
    {
        let r = Discovery {
            entries: Vec::new(),
            duration: None,
            keyframes: None,
            encryption: None,
            xmp: None,
        };
        assert(r@ =~= Facts::none());
        r
    }

    fn take_property(&mut self, name: &str, v: &AmfValue)
        requires
            old(self)@.well_formed(),
        ensures
            final(self)@ == property(old(self)@, name@, v@),
            final(self)@.well_formed(),
    {
        let table = match v {
            AmfValue::Object(_) => true,
            AmfValue::EcmaArray(_) => true,
            _ => false,
        };
        if table && same_text(name, "keyframes") {
            if self.keyframes.is_none() {
                self.keyframes = parse_keyframes_object(v);
            }
            assert(self@ =~= property(old(self)@, name@, v@));
            return;
        }
        let nested = match v {
            AmfValue::Object(_) => true,
            AmfValue::EcmaArray(_) => true,
            AmfValue::TypedObject { class_name, body } => true,
            _ => false,
        };
        if nested && same_text(name, "videoTrackIdInfoMap") {
            flatten_amf_value(v, "videotrackidinfomap", &mut self.entries);
        } else if nested && same_text(name, "audioTrackIdInfoMap") {
            flatten_amf_value(v, "audiotrackidinfomap", &mut self.entries);
        } else {
            flatten_amf_value(v, name, &mut self.entries);
        }
        if let AmfValue::Number(n) = v {
            let low = n.less(Double { bits: 0 });
            if self.duration.is_none() && !low && n.less(Double { bits: DURATION_LIMIT }) && same_text(
                name,
                "duration",
            ) {
                self.duration = Some(*n);
            }
        }
        assert(self@ =~= property(old(self)@, name@, v@));
    }

    fn take_properties(&mut self, body: &Vec<(String, AmfValue)>)
        requires
            old(self)@.well_formed(),
        ensures
            final(self)@ == properties(old(self)@, pairs_view(body@)),
            final(self)@.well_formed(),
    {
        let ghost s = pairs_view(body@);
        let ghost goal = properties(self@, s);
        let mut i: usize = 0;
        assert(s.skip(0) =~= s);
        while i < body.len()
            invariant
                i <= body@.len(),
                s == pairs_view(body@),
                goal == properties(self@, s.skip(i as int)),
                self@.well_formed(),
            decreases body@.len() - i,
        {
            proof {
                assert(s.skip(i as int)[0] == (body@[i as int].0@, body@[i as int].1@));
                assert(s.skip(i as int).drop_first() =~= s.skip(i + 1));
            }
            self.take_property(body[i].0.as_str(), &body[i].1);
            i += 1;
        }
    }

    /// Takes in the value of an `onMetaData` script tag.
    pub fn parse_on_metadata(&mut self, v: &AmfValue)
        requires
            old(self)@.well_formed(),
        ensures
            final(self)@ == on_metadata(old(self)@, v@),
            final(self)@.well_formed(),
    {
        match v {
            AmfValue::Object(b) => {
                assert(self@.with(class_entry(v@)) =~= self@);
                self.take_properties(b);
            },
            AmfValue::EcmaArray(b) => {
                assert(self@.with(class_entry(v@)) =~= self@);
                self.take_properties(b);
            },
            AmfValue::TypedObject { class_name, body } => {
                push_text(&mut self.entries, "scriptdata.class", class_name.as_str());
                assert(self@ =~= old(self)@.with(class_entry(v@)));
                self.take_properties(body);
            },
            _ => {},
        }
    }

    fn take_call(&mut self, name: &str, v: &AmfValue)
        requires
            old(self)@.well_formed(),
        ensures
            final(self)@ == call(old(self)@, name@, v@),
            final(self)@.well_formed(),
    {
        if same_text(name, "onMetaData") {
            self.parse_on_metadata(v);
        } else if same_text(name, "onXMPData") {
            let found = xmp_live_xml(v);
            if found.is_some() {
                self.xmp = found;
            }
            assert(self@ =~= call(old(self)@, name@, v@));
        } else if same_text(name, "onCuePoint") {
            let mut key = "cuepoint.".to_string();
            push_decimal(&mut key, count_cues(&self.entries));
            flatten_amf_value(v, key.as_str(), &mut self.entries);
            assert(self@ =~= call(old(self)@, name@, v@));
        } else if same_text(name, "|AdditionalHeader") {
            self.encryption = parse_additional_header(v);
            assert(self@ =~= call(old(self)@, name@, v@));
        } else {
            push_text(&mut self.entries, "scriptdata.name", name);
            let mut key = "scriptdata.".to_string();
            key.append(name);
            flatten_amf_value(v, key.as_str(), &mut self.entries);
            assert(self@ =~= call(old(self)@, name@, v@));
        }
    }

    /// Takes in the body of a script tag.
    pub fn parse_script_body(&mut self, body: &[u8])
        requires
            old(self)@.well_formed(),
        ensures
            final(self)@ == script(old(self)@, body@),
            final(self)@.well_formed(),
    {
        match parse_amf0_value(body, 0) {
            Ok((AmfValue::String(name), p)) => {
                if let Ok((v, q)) = parse_amf0_value(body, p) {
                    self.take_call(name.as_str(), &v);
                }
            },
            _ => {},
        }
    }
}

} // verus!
