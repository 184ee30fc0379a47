//! Property values of script data, and how they are written.
use vstd::prelude::*;
use vstd::string::*;
use crate::amf0::encode::{emit_boolean, emit_date, emit_ecma_array_start, emit_name, emit_null,
    emit_number, emit_object_end, emit_object_start, emit_strict_array_number,
    emit_strict_array_start, emit_string, emit_undefined, emit_xml};
use crate::amf0::decode::value;
use crate::amf0::laws::{framed, law_read_appended, lemma_numbers_wire, number_items, strict_head, wire, wire_items,
    wire_leaf, wire_name, wire_pairs};
use crate::amf0::{write_boolean, write_date, write_ecma_array_start, write_null, write_number,
    write_object_end, write_object_start, write_property_name, write_strict_array_number,
    write_strict_array_start, write_string, write_undefined, write_xml, AmfTree};
use crate::double::{of_int, Double, INTEGER_MAX};
use crate::error::{Error, Fault};
use crate::wire::{lemma_wrote_and, wrote, Emit};

verus! {

/// The value of a property.
#[derive(Debug, PartialEq)]
pub enum MetaValue {
    Number(Double),
    Boolean(bool),
    String(String),
    Date {
        /// Milliseconds since the epoch.
        time_ms: Double,
        /// Minutes east of UTC.
        tz: i16,
    },
    /// Where the key frames of a file stand, and when they are shown. It is written as an object
    /// of two arrays.
    Keyframes {
        /// Offset of the tag of each key frame.
        file_positions: Vec<u64>,
        /// Time of each key frame in seconds, in ascending order.
        times_seconds: Vec<Double>,
    },
    /// Named values, in order.
    Object(Vec<(String, MetaValue)>),
    /// Named values behind their number.
    EcmaArray(Vec<(String, MetaValue)>),
    StrictArray(Vec<MetaValue>),
    Null,
    Undefined,
    /// Text of an XML document.
    Xml(String),
}

/// What a value is, apart from how it is held in memory.
pub enum Meta {
    Number(Double),
    Boolean(bool),
    String(Seq<char>),
    Date { time_ms: Double, tz: i16 },
    Keyframes { file_positions: Seq<u64>, times_seconds: Seq<Double> },
    Object(Seq<(Seq<char>, Meta)>),
    EcmaArray(Seq<(Seq<char>, Meta)>),
    StrictArray(Seq<Meta>),
    Null,
    Undefined,
    Xml(Seq<char>),
}

/// The values of a run.
pub open spec fn metas(s: Seq<MetaValue>) -> Seq<Meta>
    decreases s,
{
    Seq::new(s.len(), |i: int| if 0 <= i < s.len() { s[i].view() } else { Meta::Null })
}

/// The values of a run of properties.
pub open spec fn properties(s: Seq<(String, MetaValue)>) -> Seq<(Seq<char>, Meta)>
    decreases s,
{
    Seq::new(
        s.len(),
        |i: int|
            if 0 <= i < s.len() {
                (s[i].0@, s[i].1.view())
            } else {
                (Seq::empty(), Meta::Null)
            },
    )
}

/// A property behind others.
pub proof fn lemma_properties_push(s: Seq<(String, MetaValue)>, k: String, v: MetaValue)
    ensures
        properties(s.push((k, v))) == properties(s).push((k@, v@)),
{
    assert(properties(s.push((k, v))) =~= properties(s).push((k@, v@)));
}

impl MetaValue {
    /// What the value is.
    pub open spec fn view(&self) -> Meta
        decreases self,
    {
        match self {
            MetaValue::Number(n) => Meta::Number(*n),
            MetaValue::Boolean(b) => Meta::Boolean(*b),
            MetaValue::String(s) => Meta::String(s@),
            MetaValue::Date { time_ms, tz } => Meta::Date { time_ms: *time_ms, tz: *tz },
            MetaValue::Keyframes { file_positions, times_seconds } => Meta::Keyframes {
                file_positions: file_positions@,
                times_seconds: times_seconds@,
            },
            MetaValue::Object(p) => Meta::Object(properties(p@)),
            MetaValue::EcmaArray(p) => Meta::EcmaArray(properties(p@)),
            MetaValue::StrictArray(a) => Meta::StrictArray(metas(a@)),
            MetaValue::Null => Meta::Null,
            MetaValue::Undefined => Meta::Undefined,
            MetaValue::Xml(s) => Meta::Xml(s@),
        }
    }
}

fn clone_items(s: &Vec<MetaValue>) -> (r: Vec<MetaValue>)
    ensures
        metas(r@) == metas(s@),
    decreases s,
{
    let mut out: Vec<MetaValue> = Vec::new();
    let mut i: usize = 0;
    while i < s.len()
        invariant
            i <= s.len(),
            out@.len() == i,
            forall|j: int| 0 <= j < i ==> out@[j]@ == s@[j]@,
        decreases s.len() - i,
    {
        proof {
            assert(decreases_to!(s => s@[i as int]));
        }
        out.push(s[i].clone());
        i += 1;
    }
    assert(metas(out@) =~= metas(s@));
    out
}

pub(crate) fn clone_pairs(s: &Vec<(String, MetaValue)>) -> (r: Vec<(String, MetaValue)>)
    ensures
        properties(r@) == properties(s@),
    decreases s,
{
    let mut out: Vec<(String, MetaValue)> = Vec::new();
    let mut i: usize = 0;
    while i < s.len()
        invariant
            i <= s.len(),
            out@.len() == i,
            forall|j: int| 0 <= j < i ==> out@[j].0@ == s@[j].0@ && out@[j].1@ == s@[j].1@,
        decreases s.len() - i,
    {
        proof {
            assert(decreases_to!(s => s@[i as int].1));
        }
        out.push((s[i].0.clone(), s[i].1.clone()));
        i += 1;
    }
    assert(properties(out@) =~= properties(s@));
    out
}

impl Clone for MetaValue {
    fn clone(&self) -> (r: Self)
        ensures
            r@ == self@,
        decreases self,
    {
        match self {
            MetaValue::Number(n) => MetaValue::Number(*n),
            MetaValue::Boolean(b) => MetaValue::Boolean(*b),
            MetaValue::String(s) => MetaValue::String(s.clone()),
            MetaValue::Date { time_ms, tz } => MetaValue::Date { time_ms: *time_ms, tz: *tz },
            MetaValue::Keyframes { file_positions, times_seconds } => {
                let p = file_positions.clone();
                let t = times_seconds.clone();
                assert(p@ =~= file_positions@);
                assert(t@ =~= times_seconds@);
                MetaValue::Keyframes { file_positions: p, times_seconds: t }
            },
            MetaValue::Object(p) => MetaValue::Object(clone_pairs(p)),
            MetaValue::EcmaArray(p) => MetaValue::EcmaArray(clone_pairs(p)),
            MetaValue::StrictArray(a) => MetaValue::StrictArray(clone_items(a)),
            MetaValue::Null => MetaValue::Null,
            MetaValue::Undefined => MetaValue::Undefined,
            MetaValue::Xml(s) => MetaValue::Xml(s.clone()),
        }
    }
}

// ---- numbers --------------------------------------------------------------

/// A property, if there is a value for it.
pub open spec fn number(name: Seq<char>, v: Option<Double>) -> Seq<(Seq<char>, Meta)> {
    match v {
        Some(d) => seq![(name, Meta::Number(d))],
        None => Seq::empty(),
    }
}

/// Adds a property, if there is a value for it.
pub(crate) fn push_number(pairs: &mut Vec<(String, MetaValue)>, name: &str, v: Option<Double>)
    ensures
        properties(final(pairs)@) == properties(old(pairs)@) + number(name@, v),
{
    if let Some(d) = v {
        let k = name.to_string();
        proof {
            lemma_properties_push(pairs@, k, MetaValue::Number(d));
        }
        pairs.push((k, MetaValue::Number(d)));
    }
    assert(properties(pairs@) =~= properties(old(pairs)@) + number(name@, v));
}

// ---- key frames -----------------------------------------------------------

/// What is wrong with the first two neighbours, from `i` on, that are not both finite and in
/// ascending order; of one time alone, that it is not finite.
pub open spec fn times_fault(times: Seq<Double>, i: int) -> Option<Fault>
    decreases times.len() - i,
{
    if i + 1 >= times.len() {
        if times.len() == 1 && !times[0].finite() {
            Some(Fault::KeyframesTimeNotFinite)
        } else {
            None
        }
    } else if !times[i].finite() || !times[i + 1].finite() {
        Some(Fault::KeyframesTimeNotFinite)
    } else if times[i + 1].rank() < times[i].rank() {
        Some(Fault::KeyframesTimesNotAscending)
    } else {
        times_fault(times, i + 1)
    }
}

/// What stops a table of key frames from being written.
pub open spec fn keyframes_fault(positions: Seq<u64>, times: Seq<Double>) -> Option<Fault> {
    if positions.len() == 0 {
        Some(Fault::KeyframesEmpty)
    } else if positions.len() != times.len() {
        Some(Fault::KeyframesLengthMismatch)
    } else if exists|i: int| 0 <= i < positions.len() && #[trigger] positions[i]
        > INTEGER_MAX {
        Some(Fault::KeyframesPositionTooLarge)
    } else {
        times_fault(times, 0)
    }
}

proof fn lemma_times_fault(times: Seq<Double>, i: int)
    requires
        0 <= i < times.len(),
        times.len() > 1 || i == 0,
    ensures
        times_fault(times, i) is None <==> {
            &&& forall|j: int| i <= j < times.len() ==> (#[trigger] times[j]).finite() || times.len()
                > 1 && j == times.len() - 1 && i == j
            &&& forall|j: int, k: int|
                i <= j <= k < times.len() ==> (#[trigger] times[j]).rank() <= (#[trigger] times[k]).rank()
        },
    decreases times.len() - i,
{
    if i + 1 < times.len() {
        lemma_times_fault(times, i + 1);
        if times_fault(times, i) is None {
            assert forall|j: int, k: int| i <= j <= k < times.len() implies (#[trigger] times[j]).rank()
                <= (#[trigger] times[k]).rank() by {
                assert(times[i].rank() <= times[i + 1].rank());
                if j == i && k > i {
                    assert(times[i + 1].rank() <= times[k].rank());
                }
            }
        }
    }
}

/// A table of key frames can be written exactly when it is not empty, has a time for each
/// position, no position that a double would round, and finite times in ascending order.
pub proof fn law_keyframes_are_checked(positions: Seq<u64>, times: Seq<Double>)
    ensures
        keyframes_fault(positions, times) is None <==> {
            &&& positions.len() == times.len()
            &&& positions.len() > 0
            &&& forall|i: int| 0 <= i < positions.len() ==> #[trigger] positions[i] <= INTEGER_MAX
            &&& forall|i: int| 0 <= i < times.len() ==> (#[trigger] times[i]).finite()
            &&& forall|i: int, j: int|
                0 <= i <= j < times.len() ==> (#[trigger] times[i]).rank() <= (#[trigger] times[j]).rank()
        },
{
    if positions.len() == times.len() && positions.len() > 0 {
        lemma_times_fault(times, 0);
    }
}

/// Offsets as numbers.
pub open spec fn numbers(positions: Seq<u64>) -> Seq<Double> {
    Seq::new(positions.len(), |i: int| of_int(positions[i] as nat))
}

/// A table of key frames: an object of two arrays.
pub open spec fn emit_keyframes(positions: Seq<u64>, times: Seq<Double>) -> Emit {
    match keyframes_fault(positions, times) {
        Some(f) => Emit::stop(f),
        None => emit_object_start().and(emit_name("filepositions"@)).and(
            emit_strict_array_number(numbers(positions)),
        ).and(emit_name("times"@)).and(emit_strict_array_number(times)).and(emit_object_end()),
    }
}

// ---- writing --------------------------------------------------------------

/// A value.
pub open spec fn emit_meta(v: Meta) -> Emit
    decreases v,
{
    match v {
        Meta::Number(n) => emit_number(n),
        Meta::Boolean(b) => emit_boolean(b),
        Meta::String(s) => emit_string(s),
        Meta::Date { time_ms, tz } => if time_ms.finite() {
            emit_date(time_ms, tz)
        } else {
            Emit::stop(Fault::MetaDateNotFinite)
        },
        Meta::Keyframes { file_positions, times_seconds } => emit_keyframes(
            file_positions,
            times_seconds,
        ),
        Meta::Object(p) => emit_object_start().and(emit_properties(p)).and(emit_object_end()),
        Meta::EcmaArray(p) => emit_ecma_array_start((p.len() % 0x1_0000_0000) as u32).and(
            emit_properties(p),
        ).and(emit_object_end()),
        Meta::StrictArray(a) => if a.len() > 0xFFFF_FFFF {
            Emit::stop(Fault::Amf0ArrayTooLong)
        } else {
            emit_strict_array_start(a.len() as u32).and(emit_metas(a))
        },
        Meta::Null => emit_null(),
        Meta::Undefined => emit_undefined(),
        Meta::Xml(s) => emit_xml(s),
    }
}

/// Values, one behind the other.
pub open spec fn emit_metas(s: Seq<Meta>) -> Emit
    decreases s,
{
    if s.len() == 0 {
        Emit::put(Seq::empty())
    } else {
        emit_meta(s[0]).and(emit_metas(s.drop_first()))
    }
}

/// Names and values, one behind the other.
pub open spec fn emit_properties(s: Seq<(Seq<char>, Meta)>) -> Emit
    decreases s,
{
    if s.len() == 0 {
        Emit::put(Seq::empty())
    } else {
        emit_name(s[0].0).and(emit_meta(s[0].1)).and(emit_properties(s.drop_first()))
    }
}

fn check_times(times: &Vec<Double>) -> (r: Option<Fault>)
    ensures
        r == times_fault(times@, 0),
{
    if times.len() == 1 {
        if !times[0].is_finite() {
            return Some(Fault::KeyframesTimeNotFinite);
        }
        return None;
    }
    if times.len() == 0 {
        return None;
    }
    let last: usize = times.len() - 1;
    let mut i: usize = 0;
    while i < last
        invariant
            i <= last,
            last == times@.len() - 1,
            times@.len() > 1,
            times_fault(times@, 0) == times_fault(times@, i as int),
        decreases last - i,
    {
        if !times[i].is_finite() || !times[i + 1].is_finite() {
            return Some(Fault::KeyframesTimeNotFinite);
        }
        if times[i + 1].less(times[i]) {
            return Some(Fault::KeyframesTimesNotAscending);
        }
        i += 1;
    }
    None
}

fn check_keyframes(positions: &Vec<u64>, times: &Vec<Double>) -> (r: Option<Fault>)
    ensures
        r == keyframes_fault(positions@, times@),
{
    if positions.len() == 0 {
        return Some(Fault::KeyframesEmpty);
    }
    if positions.len() != times.len() {
        return Some(Fault::KeyframesLengthMismatch);
    }
    let mut i: usize = 0;
    while i < positions.len()
        invariant
            i <= positions@.len(),
            positions@.len() == times@.len(),
            positions@.len() > 0,
            forall|j: int| 0 <= j < i ==> #[trigger] positions@[j] <= INTEGER_MAX,
        decreases positions@.len() - i,
    {
        if positions[i] > INTEGER_MAX {
            return Some(Fault::KeyframesPositionTooLarge);
        }
        i += 1;
    }
    check_times(times)
}

fn to_numbers(positions: &Vec<u64>) -> (r: Vec<Double>)
    requires
        forall|i: int| 0 <= i < positions@.len() ==> #[trigger] positions@[i] <= INTEGER_MAX,
    ensures
        r@ == numbers(positions@),
{
    let mut out: Vec<Double> = Vec::new();
    let mut i: usize = 0;
    while i < positions.len()
        invariant
            i <= positions@.len(),
            out@.len() == i,
            forall|j: int| 0 <= j < positions@.len() ==> #[trigger] positions@[j] <= INTEGER_MAX,
            forall|j: int| 0 <= j < i ==> out@[j] == of_int(positions@[j] as nat),
        decreases positions@.len() - i,
    {
        out.push(Double::from_u64(positions[i]));
        i += 1;
    }
    assert(out@ =~= numbers(positions@));
    out
}

/// Appends a table of key frames.
fn write_keyframes_object(out: &mut Vec<u8>, positions: &Vec<u64>, times: &Vec<Double>) -> (r: Result<
    (),
    Error,
>)
    ensures
        wrote(old(out)@, final(out)@, r, emit_keyframes(positions@, times@)),
{
    if let Some(f) = check_keyframes(positions, times) {
        assert(out@ =~= old(out)@ + Seq::<u8>::empty());
        return Err(Error::InvalidData(f));
    }
    let offsets = to_numbers(positions);
    write_object_start(out)?;
    let ghost b1 = out@;
    let ghost e1 = emit_object_start();
    let r1 = write_property_name(out, "filepositions");
    let ghost e2 = e1.and(emit_name("filepositions"@));
    proof {
        lemma_wrote_and(old(out)@, b1, out@, Ok(()), r1, e1, emit_name("filepositions"@));
    }
    r1?;
    let ghost b2 = out@;
    let r2 = write_strict_array_number(out, offsets.as_slice());
    let ghost e3 = e2.and(emit_strict_array_number(numbers(positions@)));
    proof {
        lemma_wrote_and(
            old(out)@,
            b2,
            out@,
            Ok(()),
            r2,
            e2,
            emit_strict_array_number(numbers(positions@)),
        );
    }
    r2?;
    let ghost b3 = out@;
    let r3 = write_property_name(out, "times");
    let ghost e4 = e3.and(emit_name("times"@));
    proof {
        lemma_wrote_and(old(out)@, b3, out@, Ok(()), r3, e3, emit_name("times"@));
    }
    r3?;
    let ghost b4 = out@;
    let r4 = write_strict_array_number(out, times.as_slice());
    let ghost e5 = e4.and(emit_strict_array_number(times@));
    proof {
        lemma_wrote_and(old(out)@, b4, out@, Ok(()), r4, e4, emit_strict_array_number(times@));
    }
    r4?;
    let ghost b5 = out@;
    let r5 = write_object_end(out);
    proof {
        lemma_wrote_and(old(out)@, b5, out@, Ok(()), r5, e5, emit_object_end());
    }
    r5
}

/// Appends properties between what opens an object and what closes it.
pub(crate) fn write_framed(
    out: &mut Vec<u8>,
    pairs: &Vec<(String, MetaValue)>,
    Ghost(before): Ghost<Seq<u8>>,
    Ghost(open): Ghost<Emit>,
) -> (r: Result<(), Error>)
    requires
        wrote(before, old(out)@, Ok(()), open),
    ensures
        wrote(before, final(out)@, r, open.and(emit_properties(properties(pairs@))).and(emit_object_end())),
    decreases pairs, 1int,
{
    let ghost b = out@;
    let r = write_properties(out, pairs);
    let ghost e = emit_properties(properties(pairs@));
    proof {
        lemma_wrote_and(before, b, out@, Ok(()), r, open, e);
    }
    r?;
    let ghost c = out@;
    let s = write_object_end(out);
    proof {
        lemma_wrote_and(before, c, out@, Ok(()), s, open.and(e), emit_object_end());
    }
    s
}

/// Appends a value.
///
/// Where the value has no encoding, the bytes up to the fault stay in `out`.
pub fn write_meta_value(out: &mut Vec<u8>, value: &MetaValue) -> (r: Result<(), Error>)
    ensures
        wrote(old(out)@, final(out)@, r, emit_meta(value@)),
    decreases value, 2int,
{
    match value {
        MetaValue::Number(n) => write_number(out, *n),
        MetaValue::Boolean(b) => write_boolean(out, *b),
        MetaValue::String(s) => write_string(out, s.as_str()),
        MetaValue::Date { time_ms, tz } => {
            if !time_ms.is_finite() {
                assert(out@ =~= old(out)@ + Seq::<u8>::empty());
                return Err(Error::InvalidData(Fault::MetaDateNotFinite));
            }
            write_date(out, *time_ms, *tz)
        },
        MetaValue::Keyframes { file_positions, times_seconds } => write_keyframes_object(
            out,
            file_positions,
            times_seconds,
        ),
        MetaValue::Object(pairs) => {
            write_object_start(out)?;
            write_framed(out, pairs, Ghost(old(out)@), Ghost(emit_object_start()))
        },
        MetaValue::EcmaArray(pairs) => {
            let count: u32 = (pairs.len() as u64 % 0x1_0000_0000) as u32;
            write_ecma_array_start(out, count)?;
            write_framed(out, pairs, Ghost(old(out)@), Ghost(emit_ecma_array_start(count)))
        },
        MetaValue::StrictArray(items) => {
            if items.len() as u64 > 0xFFFF_FFFF {
                assert(out@ =~= old(out)@ + Seq::<u8>::empty());
                return Err(Error::InvalidData(Fault::Amf0ArrayTooLong));
            }
            write_strict_array_start(out, items.len() as u32)?;
            let ghost b = out@;
            let r = write_metas(out, items);
            proof {
                lemma_wrote_and(
                    old(out)@,
                    b,
                    out@,
                    Ok(()),
                    r,
                    emit_strict_array_start(items@.len() as u32),
                    emit_metas(metas(items@)),
                );
            }
            r
        },
        MetaValue::Null => write_null(out),
        MetaValue::Undefined => write_undefined(out),
        MetaValue::Xml(s) => write_xml(out, s.as_str()),
    }
}

fn write_metas(out: &mut Vec<u8>, s: &Vec<MetaValue>) -> (r: Result<(), Error>)
    ensures
        wrote(old(out)@, final(out)@, r, emit_metas(metas(s@))),
    decreases s, 0int,
{
    let ghost all = metas(s@);
    let ghost mut done = Emit::put(Seq::empty());
    let mut i: usize = 0;
    proof {
        assert(all.skip(0) =~= all);
        assert(done.and(emit_metas(all)) =~= emit_metas(all));
        assert(out@ =~= out@ + Seq::<u8>::empty());
    }
    while i < s.len()
        invariant
            i <= s.len(),
            all == metas(s@),
            wrote(old(out)@, out@, Ok(()), done),
            emit_metas(all) == done.and(emit_metas(all.skip(i as int))),
        decreases s.len() - i,
    {
        let ghost rest = all.skip(i as int);
        let ghost head = emit_meta(rest[0]);
        let ghost b = out@;
        proof {
            assert(decreases_to!(s => s@[i as int]));
            assert(rest[0] == s@[i as int]@);
        }
        let r = write_meta_value(out, &s[i]);
        proof {
            lemma_wrote_and(old(out)@, b, out@, Ok(()), r, done, head);
            assert(rest.drop_first() =~= all.skip(i + 1));
            let more = emit_metas(all.skip(i + 1));
            assert(done.and(head.and(more)) =~= done.and(head).and(more));
        }
        r?;
        proof {
            done = done.and(head);
        }
        i += 1;
    }
    assert(done.and(emit_metas(all.skip(i as int))) =~= done);
    Ok(())
}

/// Appends names and values.
///
/// Where a name or value has no encoding, the bytes up to the fault stay in `out`.
pub(crate) fn write_properties(out: &mut Vec<u8>, s: &Vec<(String, MetaValue)>) -> (r: Result<
    (),
    Error,
>)
    ensures
        wrote(old(out)@, final(out)@, r, emit_properties(properties(s@))),
    decreases s, 0int,
{
    let ghost all = properties(s@);
    let ghost mut done = Emit::put(Seq::empty());
    let mut i: usize = 0;
    proof {
        assert(all.skip(0) =~= all);
        assert(done.and(emit_properties(all)) =~= emit_properties(all));
        assert(out@ =~= out@ + Seq::<u8>::empty());
    }
    while i < s.len()
        invariant
            i <= s.len(),
            all == properties(s@),
            wrote(old(out)@, out@, Ok(()), done),
            emit_properties(all) == done.and(emit_properties(all.skip(i as int))),
        decreases s.len() - i,
    {
        let ghost rest = all.skip(i as int);
        let ghost name = emit_name(rest[0].0);
        let ghost head = name.and(emit_meta(rest[0].1));
        let ghost b = out@;
        proof {
            assert(decreases_to!(s => s@[i as int].1));
            assert(rest[0] == (s@[i as int].0@, s@[i as int].1@));
            assert(rest.drop_first() =~= all.skip(i + 1));
            let more = emit_properties(all.skip(i + 1));
            assert(done.and(head.and(more)) =~= done.and(head).and(more));
            assert(done.and(head) =~= done.and(name).and(emit_meta(rest[0].1)));
        }
        let q = write_property_name(out, s[i].0.as_str());
        proof {
            lemma_wrote_and(old(out)@, b, out@, Ok(()), q, done, name);
        }
        q?;
        let ghost c = out@;
        let r = write_meta_value(out, &s[i].1);
        proof {
            lemma_wrote_and(old(out)@, c, out@, Ok(()), r, done.and(name), emit_meta(rest[0].1));
        }
        r?;
        proof {
            done = done.and(head);
        }
        i += 1;
    }
    assert(done.and(emit_properties(all.skip(i as int))) =~= done);
    Ok(())
}

// ---- reading what was written ---------------------------------------------

/// The AMF0 value that a property value is written as.
pub open spec fn tree(v: Meta) -> AmfTree
    decreases v,
{
    match v {
        Meta::Number(n) => AmfTree::Number(n),
        Meta::Boolean(b) => AmfTree::Boolean(b),
        Meta::String(s) => AmfTree::String(s),
        Meta::Date { time_ms, tz } => AmfTree::Date { time_ms, tz },
        Meta::Keyframes { file_positions, times_seconds } => AmfTree::Object(
            keyframes_tree(file_positions, times_seconds),
        ),
        Meta::Object(p) => AmfTree::Object(trees(p)),
        Meta::EcmaArray(p) => AmfTree::EcmaArray(trees(p)),
        Meta::StrictArray(a) => AmfTree::StrictArray(item_trees(a)),
        Meta::Null => AmfTree::Null,
        Meta::Undefined => AmfTree::Undefined,
        Meta::Xml(s) => AmfTree::Xml(s),
    }
}

/// The AMF0 values of a run.
pub open spec fn item_trees(s: Seq<Meta>) -> Seq<AmfTree>
    decreases s,
{
    Seq::new(s.len(), |i: int| if 0 <= i < s.len() { tree(s[i]) } else { AmfTree::Null })
}

/// The AMF0 values of a run of properties.
pub open spec fn trees(s: Seq<(Seq<char>, Meta)>) -> Seq<(Seq<char>, AmfTree)>
    decreases s,
{
    Seq::new(
        s.len(),
        |i: int|
            if 0 <= i < s.len() {
                (s[i].0, tree(s[i].1))
            } else {
                (Seq::empty(), AmfTree::Null)
            },
    )
}

/// The two arrays of a table of key frames.
pub open spec fn keyframes_tree(positions: Seq<u64>, times: Seq<Double>) -> Seq<
    (Seq<char>, AmfTree),
> {
    seq![
        ("filepositions"@, AmfTree::StrictArray(number_items(numbers(positions)))),
        ("times"@, AmfTree::StrictArray(number_items(times))),
    ]
}

proof fn lemma_number_array_wire(s: Seq<Double>)
    requires
        emit_strict_array_number(s).fault is None,
    ensures
        wire(AmfTree::StrictArray(number_items(s))) == Some(emit_strict_array_number(s).bytes),
{
    reveal(strict_head);
    lemma_numbers_wire(s);
}

proof fn lemma_name_wire(s: Seq<char>)
    requires
        emit_name(s).fault is None,
    ensures
        wire_name(s) == Some(emit_name(s).bytes),
{
}

proof fn lemma_keyframes_wire(positions: Seq<u64>, times: Seq<Double>)
    requires
        emit_keyframes(positions, times).fault is None,
    ensures
        wire(AmfTree::Object(keyframes_tree(positions, times))) == Some(
            emit_keyframes(positions, times).bytes,
        ),
{
    reveal(framed);
    let n1 = emit_name("filepositions"@);
    let a1 = emit_strict_array_number(numbers(positions));
    let n2 = emit_name("times"@);
    let a2 = emit_strict_array_number(times);
    lemma_name_wire("filepositions"@);
    lemma_name_wire("times"@);
    lemma_number_array_wire(numbers(positions));
    lemma_number_array_wire(times);
    let all = keyframes_tree(positions, times);
    let rest = all.drop_first();
    assert(rest.drop_first() =~= Seq::empty());
    assert(wire_pairs(rest.drop_first()) == Some(Seq::<u8>::empty()));
    assert(wire_pairs(rest)->0 =~= n2.bytes + a2.bytes);
    assert(wire_pairs(all)->0 =~= n1.bytes + a1.bytes + (n2.bytes + a2.bytes));
    let end = emit_object_end().bytes;
    assert(wire(AmfTree::Object(all))->0 =~= emit_keyframes(positions, times).bytes);
}

/// Writing a value appends the bytes of the AMF0 value that it stands for.
pub proof fn law_written_as_tree(v: Meta)
    requires
        emit_meta(v).fault is None,
    ensures
        wire(tree(v)) == Some(emit_meta(v).bytes),
    decreases v, 1int,
{
    match v {
        Meta::Keyframes { file_positions, times_seconds } => {
            lemma_keyframes_wire(file_positions, times_seconds);
        },
        Meta::Object(p) => {
            reveal(framed);
            lemma_properties_wire(p);
            let end = emit_object_end().bytes;
            let b = emit_properties(p).bytes;
            assert(seq![0x03u8] + (b + end) =~= seq![0x03u8] + b + end);
        },
        Meta::EcmaArray(p) => {
            reveal(framed);
            lemma_properties_wire(p);
            let end = emit_object_end().bytes;
            let b = emit_properties(p).bytes;
            let head = emit_ecma_array_start((p.len() % 0x1_0000_0000) as u32).bytes;
            assert(head + (b + end) =~= head + b + end);
        },
        Meta::StrictArray(a) => {
            reveal(strict_head);
            lemma_metas_wire(a);
        },
        _ => {
            reveal(wire_leaf);
        },
    }
}

proof fn lemma_metas_wire(s: Seq<Meta>)
    requires
        emit_metas(s).fault is None,
    ensures
        wire_items(item_trees(s)) == Some(emit_metas(s).bytes),
    decreases s, 0int,
{
    if s.len() > 0 {
        law_written_as_tree(s[0]);
        lemma_metas_wire(s.drop_first());
        assert(item_trees(s).drop_first() =~= item_trees(s.drop_first()));
    }
}

/// Writing properties appends the bytes of the named AMF0 values that they stand for.
pub proof fn lemma_properties_wire(s: Seq<(Seq<char>, Meta)>)
    requires
        emit_properties(s).fault is None,
    ensures
        wire_pairs(trees(s)) == Some(emit_properties(s).bytes),
    decreases s, 0int,
{
    if s.len() > 0 {
        law_written_as_tree(s[0].1);
        lemma_name_wire(s[0].0);
        lemma_properties_wire(s.drop_first());
        assert(trees(s).drop_first() =~= trees(s.drop_first()));
    }
}

/// A value that was written reads back as the AMF0 value that it stands for, and reading stops
/// where writing stopped.
pub proof fn law_read_write(before: Seq<u8>, v: Meta, behind: Seq<u8>)
    requires
        emit_meta(v).fault is None,
    ensures
        value(before + emit_meta(v).bytes + behind, before.len() as int) == Ok::<
            (AmfTree, int),
            Fault,
        >((tree(v), before.len() + emit_meta(v).bytes.len() as int)),
{
    law_written_as_tree(v);
    law_read_appended(before, tree(v), behind);
}

} // verus!
