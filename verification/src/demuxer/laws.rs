//! What a file that was written gives when it is taken apart.
use vstd::prelude::*;
use crate::demuxer::packet::{audio_frame, video_frame, Frame};
use crate::demuxer::discover::{complete, found, see, Scan, MAX_DISCOVERY_TAGS};
use crate::demuxer::session::{handled, lemma_handled_keeps, told_by};
use crate::demuxer::{
    next, opened, scan, step, tag_at, tag_body, tag_end, Reader, FIRST_TAG,
};
use crate::error::{Error, Fault};
use crate::header::header_bytes;
use crate::tag::{tag_bytes, TagHeader, TagType, TAG_HEADER_LEN, UI24_MAX};
use crate::wire::be32;

verus! {

// ---- files ------------------------------------------------------------------

/// A tag to be written.
pub struct Unit {
    pub kind: TagType,
    pub timestamp_ms: u32,
    pub body: Seq<u8>,
}

impl Unit {
    /// The header that the tag is written with.
    pub open spec fn header(self) -> TagHeader {
        TagHeader {
            tag_type_raw: self.kind.code(),
            kind: Some(self.kind),
            data_size: self.body.len() as u32,
            timestamp_ms: self.timestamp_ms,
            stream_id: 0,
            filter: false,
        }
    }

    /// The bytes that the tag is written as.
    pub open spec fn bytes(self) -> Seq<u8> {
        tag_bytes(self.kind, self.timestamp_ms, 0, self.body)
    }
}

/// Every payload fits a tag.
pub open spec fn all_fit(units: Seq<Unit>) -> bool {
    forall|i: int| 0 <= i < units.len() ==> (#[trigger] units[i]).body.len() <= UI24_MAX
}

/// Tags, one behind the other.
pub open spec fn units_bytes(units: Seq<Unit>) -> Seq<u8>
    decreases units.len(),
{
    if units.len() == 0 {
        Seq::empty()
    } else {
        units[0].bytes() + units_bytes(units.drop_first())
    }
}

/// A file: the header, the size of the tag before the first, and the tags.
pub open spec fn file(has_audio: bool, has_video: bool, units: Seq<Unit>) -> Seq<u8> {
    header_bytes(has_audio, has_video) + be32(0) + units_bytes(units)
}

/// A tag that stands in an input is read as what was written.
pub proof fn law_tag_is_read(before: Seq<u8>, unit: Unit, behind: Seq<u8>)
    requires
        unit.body.len() <= UI24_MAX,
    ensures
        ({
            let input = before + (unit.bytes() + behind);
            let pos = before.len() as int;
            &&& tag_at(input, pos) == Ok::<TagHeader, Error>(unit.header())
            &&& tag_end(unit.header(), pos) == pos + unit.bytes().len()
            &&& tag_end(unit.header(), pos) <= input.len()
            &&& tag_body(input, unit.header(), pos) == unit.body
        }),
{
    let bytes = unit.bytes();
    let input = before + (bytes + behind);
    let pos = before.len() as int;
    assert(input.skip(pos) =~= bytes + behind);
    crate::tag::law_read_write(unit.kind, unit.timestamp_ms, 0, unit.body, behind);
    assert(tag_body(input, unit.header(), pos) =~= (bytes + behind).subrange(
        TAG_HEADER_LEN as int,
        TAG_HEADER_LEN + unit.body.len() as int,
    ));
}

/// What tags add, up to `left` of them, until both streams are found.
pub open spec fn see_units(units: Seq<Unit>, left: nat, st: Scan) -> Result<Scan, Error>
    decreases left,
{
    if left == 0 || complete(st) || units.len() == 0 {
        Ok(st)
    } else {
        match see(st, units[0].kind, units[0].header(), units[0].body) {
            Err(e) => Err(e),
            Ok(n) => see_units(units.drop_first(), (left - 1) as nat, n),
        }
    }
}

proof fn lemma_scan_units(before: Seq<u8>, units: Seq<Unit>, left: nat, st: Scan)
    requires
        all_fit(units),
    ensures
        scan(before + units_bytes(units), before.len() as int, left, st) == see_units(
            units,
            left,
            st,
        ),
    decreases left,
{
    let input = before + units_bytes(units);
    let pos = before.len() as int;
    if left > 0 && !complete(st) && units.len() > 0 {
        let rest = units.drop_first();
        assert(all_fit(rest)) by {
            assert forall|i: int| 0 <= i < rest.len() implies (#[trigger] rest[i]).body.len()
                <= UI24_MAX by {
                assert(rest[i] == units[i + 1]);
            }
        }
        law_tag_is_read(before, units[0], units_bytes(rest));
        let h = units[0].header();
        if let Ok(n) = see(st, units[0].kind, h, units[0].body) {
            let past = before + units[0].bytes();
            lemma_scan_units(past, rest, (left - 1) as nat, n);
            assert(past + units_bytes(rest) =~= input);
        }
    }
}

/// Opening a file that was written finds what its tags say.
#[verifier::spinoff_prover]
#[verifier::rlimit(30)]
pub proof fn law_open_written(has_audio: bool, has_video: bool, units: Seq<Unit>)
    requires
        all_fit(units),
    ensures
        opened(file(has_audio, has_video, units)) == (match see_units(
            units,
            MAX_DISCOVERY_TAGS as nat,
            Scan::none(),
        ) {
            Err(e) => Err(e),
            Ok(st) => if found(st) {
                Ok(
                    Reader {
                        input: file(has_audio, has_video, units),
                        pos: FIRST_TAG as int,
                        told: told_by(st),
                    },
                )
            } else {
                Err(Error::InvalidData(Fault::NoStreams))
            },
        }),
{
    let head = header_bytes(has_audio, has_video);
    let rest = be32(0) + units_bytes(units);
    let input = file(has_audio, has_video, units);
    assert(input =~= head + rest);
    crate::header::law_read_write(has_audio, has_video, rest);
    let before = head + be32(0);
    assert(before.len() == FIRST_TAG);
    assert(input =~= before + units_bytes(units));
    lemma_scan_units(before, units, MAX_DISCOVERY_TAGS as nat, Scan::none());
}

// ---- packets ----------------------------------------------------------------

/// A packet moves a file on, and not past its end.
pub proof fn law_next_advances(r: Reader)
    ensures
        next(r).0 is Ok ==> r.pos < next(r).1.pos <= r.input.len(),
        next(r).1.input == r.input,
        next(r).1.told.audio == r.told.audio,
        next(r).1.told.video == r.told.video,
        next(r).0 matches Err(e) && e is Eof ==> next(r).1.pos >= r.input.len(),
    decreases r.input.len() - r.pos,
{
    if let Ok(h) = tag_at(r.input, r.pos) {
        if tag_end(h, r.pos) <= r.input.len() {
            lemma_handled_keeps(r.told, h, tag_body(r.input, h, r.pos));
            let (out, n) = step(r, h);
            if let Ok(None) = out {
                law_next_advances(n);
            }
            reveal(handled);
        }
    }
}

/// Every packet belongs to a stream of the file.
pub proof fn law_packets_belong_to_streams(r: Reader)
    ensures
        next(r).0 matches Ok(f) ==> f.stream_index < r.told.stream_count(),
    decreases r.input.len() - r.pos,
{
    if let Ok(h) = tag_at(r.input, r.pos) {
        if tag_end(h, r.pos) <= r.input.len() {
            lemma_handled_keeps(r.told, h, tag_body(r.input, h, r.pos));
            let (out, n) = step(r, h);
            if let Ok(None) = out {
                law_packets_belong_to_streams(n);
            }
            reveal(handled);
        }
    }
}

/// The packets of a file from here on, up to the first error, and the error.
pub open spec fn packets(r: Reader) -> (Seq<Frame>, Error)
    decreases r.input.len() - r.pos,
{
    match next(r).0 {
        Err(e) => (Seq::empty(), e),
        Ok(f) => {
            proof {
                law_next_advances(r);
            }
            let (more, e) = packets(next(r).1);
            (seq![f] + more, e)
        },
    }
}

/// The packet that a tag gives in a file with these streams.
pub open spec fn frame_of(audio: Option<u32>, video: Option<u32>, unit: Unit) -> Option<Frame> {
    match (unit.kind, audio, video) {
        (TagType::Audio, Some(i), _) => audio_frame(i, unit.timestamp_ms, unit.body),
        (TagType::Video, _, Some(i)) => video_frame(i, unit.timestamp_ms, unit.body),
        _ => None,
    }
}

/// The packets that tags give in a file with these streams.
pub open spec fn frames(audio: Option<u32>, video: Option<u32>, units: Seq<Unit>) -> Seq<Frame>
    decreases units.len(),
{
    if units.len() == 0 {
        Seq::empty()
    } else {
        (match frame_of(audio, video, units[0]) {
            Some(f) => seq![f],
            None => Seq::empty(),
        }) + frames(audio, video, units.drop_first())
    }
}

#[verifier::spinoff_prover]
#[verifier::rlimit(40)]
proof fn lemma_packets_of_units(r: Reader, before: Seq<u8>, units: Seq<Unit>)
    requires
        all_fit(units),
        r.input == before + units_bytes(units),
        r.pos == before.len(),
    ensures
        packets(r) == (frames(r.told.audio_index(), r.told.video_index(), units), Error::Eof),
    decreases units.len(),
{
    if units.len() > 0 {
        let rest = units.drop_first();
        assert(all_fit(rest)) by {
            assert forall|i: int| 0 <= i < rest.len() implies (#[trigger] rest[i]).body.len()
                <= UI24_MAX by {
                assert(rest[i] == units[i + 1]);
            }
        }
        law_tag_is_read(before, units[0], units_bytes(rest));
        let h = units[0].header();
        let past = before + units[0].bytes();
        assert(past + units_bytes(rest) =~= r.input);
        lemma_handled_keeps(r.told, h, tag_body(r.input, h, r.pos));
        let (out, n) = step(r, h);
        lemma_packets_of_units(n, past, rest);
        assert(out == Ok::<Option<Frame>, Error>(frame_of(r.told.audio_index(), r.told.video_index(), units[0])))
            by {
            reveal(handled);
        }
        assert(n.told.audio_index() == r.told.audio_index() && n.told.video_index() == r.told.video_index());
        let more = frames(r.told.audio_index(), r.told.video_index(), rest);
        match out {
            Ok(Some(f)) => {
                assert(next(r) == (Ok::<Frame, Error>(f), n));
            },
            _ => {
                assert(next(r) == next(n));
                assert(packets(r) == packets(n));
                assert(Seq::<Frame>::empty() + more =~= more);
            },
        }
    }
}

/// A file that was opened is at its first tag.
pub proof fn law_opened_at_first_tag(input: Seq<u8>)
    ensures
        opened(input) matches Ok(r) ==> r.input == input && r.pos == FIRST_TAG,
{
}

/// A file that was written gives the packet of each of its tags, in order, and then ends.
pub proof fn law_packets_written(has_audio: bool, has_video: bool, units: Seq<Unit>, r: Reader)
    requires
        all_fit(units),
        opened(file(has_audio, has_video, units)) == Ok::<Reader, Error>(r),
    ensures
        packets(r) == (frames(r.told.audio_index(), r.told.video_index(), units), Error::Eof),
{
    let before = header_bytes(has_audio, has_video) + be32(0);
    assert(before.len() == FIRST_TAG);
    assert(r.input == before + units_bytes(units) && r.pos == FIRST_TAG) by {
        law_opened_at_first_tag(file(has_audio, has_video, units));
    }
    lemma_packets_of_units(r, before, units);
}

} // verus!
