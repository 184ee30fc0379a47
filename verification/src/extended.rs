//! Extended packets, told by their bytes.
use vstd::prelude::*;
use crate::amf0::bytes::{big_endian, law_numbers_by_bytes};
use crate::error::Fault;
use crate::ex_audio::{ExAudio, ExAudioPacketType};
use crate::ex_video::{ExFrameType, ExPacketType, ExVideo, VideoCommand};
use crate::mod_ex::{chain, emit_chain, emit_entries, emit_entry, emit_size, entry, offset_sum,
    saturated, AudioPacketModExType, ModEx, ModExPayload, VideoPacketModExType};
use crate::multichannel::{config, emit_config, names, ones, AudioChannel, AudioChannelOrder,
    Channels};
use crate::multitrack::{body_of, join, record, records, split, AvMultitrackType, Part, Track};
use crate::text::decimal;
use crate::wire::{be16, be24, be32, Emit};

verus! {

// ---- modifiers --------------------------------------------------------------

/// Where the bytes of a modifier start: behind a size of one byte, or behind the byte 255 and a size of
/// two.
pub open spec fn mod_start(body: Seq<u8>, pos: int) -> int {
    if body[pos] == 255 {
        pos + 3
    } else {
        pos + 1
    }
}

/// Where the bytes of a modifier end: there is one more than the size says.
pub open spec fn mod_end(body: Seq<u8>, pos: int) -> int {
    if body[pos] == 255 {
        pos + 4 + big_endian(body, pos + 1, 2)
    } else {
        pos + 2 + body[pos]
    }
}

/// A modifier by its bytes: its size, its bytes, and a byte whose upper half is its kind and whose lower
/// half is the kind of packet behind it. Kind 0 is an offset in nanoseconds, of three bytes.
#[verifier::spinoff_prover]
#[verifier::rlimit(40)]
pub proof fn law_modifier_by_bytes(body: Seq<u8>, pos: int)
    requires
        0 <= pos,
    ensures
        pos >= body.len() ==> entry(body, pos) == Err::<(ModEx, u8, int), Fault>(
            Fault::ModExTruncatedSize,
        ),
        pos < body.len() && body[pos] == 255 && pos + 3 > body.len() ==> entry(body, pos) == Err::<
            (ModEx, u8, int),
            Fault,
        >(Fault::ModExTruncatedLongSize),
        pos < body.len() && (body[pos] == 255 ==> pos + 3 <= body.len()) ==> {
            let start = mod_start(body, pos);
            let end = mod_end(body, pos);
            &&& end > body.len() ==> entry(body, pos) == Err::<(ModEx, u8, int), Fault>(
                Fault::ModExTruncatedData,
            )
            &&& end == body.len() ==> entry(body, pos) == Err::<(ModEx, u8, int), Fault>(
                Fault::ModExTruncatedTrailer,
            )
            &&& end < body.len() && body[end] < 16 && end - start < 3 ==> entry(body, pos) == Err::<
                (ModEx, u8, int),
                Fault,
            >(Fault::ModExShortTimestampOffset)
            &&& end < body.len() && (body[end] < 16 ==> end - start >= 3) ==> (entry(
                body,
                pos,
            ) matches Ok((e, next, p)) && e.subtype_raw == body[end] as int / 16 && next
                == body[end] as int % 16 && p == end + 1 && e.raw == body.subrange(start, end)
                && e.payload == (if body[end] < 16 {
                ModExPayload::TimestampOffsetNano { offset_ns: big_endian(body, start, 3) as u32 }
            } else {
                ModExPayload::Reserved { subtype_raw: (body[end] as int / 16) as u8 }
            }))
        },
{
    law_numbers_by_bytes(body, pos + 1, 0, 0, 0);
    if pos < body.len() && (body[pos] == 255 ==> pos + 3 <= body.len()) {
        let start = mod_start(body, pos);
        let end = mod_end(body, pos);
        if end < body.len() && end - start >= 3 {
            let raw = body.subrange(start, end);
            law_numbers_by_bytes(raw, 0, 0, 0, 0);
            law_numbers_by_bytes(body, start, 0, 0, 0);
            reveal_with_fuel(big_endian, 4);
            assert(big_endian(raw, 0, 3) == big_endian(body, start, 3));
        }
    }
}

/// Modifiers stand one behind the other for as long as each says that another follows.
pub proof fn law_modifiers_by_bytes(body: Seq<u8>, pos: int, kind: u8)
    requires
        0 <= pos,
    ensures
        kind != 7 ==> (chain(7, body, pos, kind) matches Ok((p, last, s)) && p == pos && last == kind
            && s.len() == 0),
        kind == 7 ==> (match entry(body, pos) {
            Err(f) => chain(7, body, pos, kind) == Err::<(int, u8, Seq<ModEx>), Fault>(f),
            Ok((e, next, p)) => match chain(7, body, p, next) {
                Err(f) => chain(7, body, pos, kind) == Err::<(int, u8, Seq<ModEx>), Fault>(f),
                Ok((q, last, rest)) => chain(7, body, pos, kind) matches Ok((r, l, s)) && r == q && l
                    == last && s == seq![e] + rest,
            },
        }),
{
}

/// The offset of a packet is the sum of those of its modifiers, or the largest number there is.
pub proof fn law_offsets_are_added(s: Seq<ModEx>, e: ModEx, n: nat)
    ensures
        offset_sum(Seq::empty()) == 0,
        offset_sum(s.push(e)) == offset_sum(s) + (match e.payload {
            ModExPayload::TimestampOffsetNano { offset_ns } => offset_ns as int,
            _ => 0,
        }),
        saturated(n) == (if n < 0x1_0000_0000 {
            n
        } else {
            0xFFFF_FFFF
        }),
    decreases s.len(),
{
    if s.len() > 0 {
        law_offsets_are_added(s.drop_first(), e, n);
        assert(s.push(e).drop_first() =~= s.drop_first().push(e));
    } else {
        assert(s.push(e).drop_first() =~= Seq::empty());
    }
}

/// A modifier can be written where its kind takes four bits, there are from 1 to 65536 bytes, and it is
/// an offset below a million nanoseconds, which its first three bytes spell, just where its kind is 0.
pub open spec fn writable(e: ModEx) -> bool {
    &&& 1 <= e.raw.len() <= 65536
    &&& e.subtype_raw < 16
    &&& match e.payload {
        ModExPayload::TimestampOffsetNano { offset_ns } => e.subtype_raw == 0 && e.raw.len() >= 3
            && offset_ns < 1_000_000 && big_endian(e.raw, 0, 3) == offset_ns,
        ModExPayload::Reserved { .. } => e.subtype_raw != 0,
    }
}

/// What is written for a modifier, byte by byte, and when it is refused.
pub proof fn law_modifier_written_by_bytes(e: ModEx, next: u8)
    ensures
        writable(e) <==> emit_entry(e, next).fault is None,
        writable(e) ==> emit_entry(e, next).bytes == (if e.raw.len() < 256 {
            seq![(e.raw.len() - 1) as u8]
        } else {
            seq![255u8] + be16((e.raw.len() - 1) as u16)
        }) + e.raw + seq![(e.subtype_raw * 16 + next % 16) as u8],
        e.subtype_raw >= 16 ==> emit_entry(e, next) == Emit::stop(Fault::ModExSubtypeTooWide),
        e.subtype_raw < 16 ==> (e.payload matches ModExPayload::TimestampOffsetNano { offset_ns } ==> {
            &&& e.raw.len() < 3 ==> emit_entry(e, next) == Emit::stop(
                Fault::ModExShortTimestampOffset,
            )
            &&& e.raw.len() >= 3 && offset_ns >= 1_000_000 ==> emit_entry(e, next) == Emit::stop(
                Fault::ModExOffsetTooLarge,
            )
            &&& e.raw.len() >= 3 && offset_ns < 1_000_000 && big_endian(e.raw, 0, 3) != offset_ns
                ==> emit_entry(e, next) == Emit::stop(Fault::ModExOffsetMismatch)
            &&& e.raw.len() >= 3 && offset_ns < 1_000_000 && big_endian(e.raw, 0, 3) == offset_ns
                && e.subtype_raw != 0 ==> emit_entry(e, next) == Emit::stop(
                Fault::ModExOffsetSubtype,
            )
        }),
        e.subtype_raw == 0 && e.payload is Reserved ==> emit_entry(e, next) == Emit::stop(
            Fault::ModExOffsetUntyped,
        ),
        emit_size(0) == Emit::stop(Fault::ModExBadSize),
        emit_size(e.raw.len()).fault is Some <==> !(1 <= e.raw.len() <= 65536),
{
    law_numbers_by_bytes(e.raw, 0, 0, 0, 0);
    if writable(e) {
        assert(emit_entry(e, next).bytes =~= emit_size(e.raw.len()).bytes + e.raw + seq![
            (e.subtype_raw * 16 + next % 16) as u8,
        ]);
    }
}

/// Modifiers are written one behind the other, each saying that another follows but the last, which
/// says what kind of packet does. There must be one, and that kind must be another and take four bits.
pub proof fn law_modifiers_written_in_order(s: Seq<ModEx>, e: ModEx, last: u8)
    ensures
        emit_chain(7, Seq::empty(), last) == Emit::stop(Fault::ModExNoEntries),
        s.len() > 0 && last > 15 ==> emit_chain(7, s, last) == Emit::stop(
            Fault::ModExPacketTypeTooWide,
        ),
        s.len() > 0 && last == 7 ==> emit_chain(7, s, last) == Emit::stop(Fault::ModExEndsInModEx),
        last <= 15 && last != 7 ==> emit_chain(7, seq![e], last) == emit_entry(e, last),
        last <= 15 && last != 7 && s.len() > 0 ==> emit_chain(7, seq![e] + s, last) == emit_entry(
            e,
            7,
        ).and(emit_chain(7, s, last)),
{
    assert(seq![e].drop_first() =~= Seq::empty());
    assert((seq![e] + s).drop_first() =~= s);
    let one = emit_entry(e, last);
    assert(one.bytes + Seq::<u8>::empty() =~= one.bytes);
    assert(emit_entries(7, seq![e].drop_first(), last) == Emit::put(Seq::empty()));
}

// ---- tracks -----------------------------------------------------------------

/// How many bytes stand before those of a track: its codec, where tracks differ in it, its number, and
/// its size, unless it is the only one.
pub open spec fn track_lead(layout: AvMultitrackType) -> int {
    match layout {
        AvMultitrackType::OneTrack => 1,
        AvMultitrackType::ManyTracksManyCodecs => 8,
        _ => 4,
    }
}

/// A track by its bytes: its codec, where tracks differ in it; its number; a size of three bytes, unless
/// it is the only one; and as many bytes as that.
pub open spec fn is_track(
    layout: AvMultitrackType,
    default: u32,
    body: Seq<u8>,
    pos: int,
    t: Track,
) -> bool {
    &&& t.start == pos + track_lead(layout)
    &&& t.start <= t.end <= body.len()
    &&& layout is OneTrack ==> t.end == body.len() && t.track_id == body[pos] && t.fourcc == default
    &&& layout is ManyTracks ==> t.end == t.start + big_endian(body, pos + 1, 3) && t.track_id
        == body[pos] && t.fourcc == default
    &&& layout is ManyTracksManyCodecs ==> t.fourcc == big_endian(body, pos, 4) && t.track_id
        == body[pos + 4] && t.end == t.start + big_endian(body, pos + 5, 3)
}

/// Tracks stand one behind the other from the start of a body to its end.
pub proof fn law_tracks_by_bytes(layout: AvMultitrackType, default: u32, body: Seq<u8>, pos: int)
    requires
        layout !is Reserved,
        0 <= pos,
    ensures
        records(layout, default, body, pos) matches Ok(s) ==> {
            &&& s.len() > 0
            &&& is_track(layout, default, body, pos, s[0])
            &&& forall|i: int|
                0 < i < s.len() ==> is_track(
                    layout,
                    default,
                    body,
                    s[i - 1].end,
                    #[trigger] s[i],
                )
            &&& s[s.len() - 1].end == body.len()
            &&& layout is OneTrack ==> s.len() == 1
        },
    decreases body.len() - pos,
{
    law_numbers_by_bytes(body, pos, 0, 0, 0);
    law_numbers_by_bytes(body, pos + 1, 0, 0, 0);
    law_numbers_by_bytes(body, pos + 5, 0, 0, 0);
    if let Ok(s) = records(layout, default, body, pos) {
        let end = s[0].end;
        if layout !is OneTrack && end < body.len() {
            law_tracks_by_bytes(layout, default, body, end);
            let rest = records(layout, default, body, end)->Ok_0;
            assert(s =~= seq![s[0]] + rest);
            assert forall|i: int| 0 < i < s.len() implies is_track(
                layout,
                default,
                body,
                s[i - 1].end,
                #[trigger] s[i],
            ) by {
                assert(s[i] == rest[i - 1]);
                if i > 1 {
                    assert(s[i - 1] == rest[i - 2]);
                }
            }
        }
    }
}

/// What makes a run of tracks unreadable: it ends inside the codec, the number, the size or the bytes of
/// a track. Where it does not, each track leads to the next.
pub proof fn law_tracks_are_cut_short(
    layout: AvMultitrackType,
    default: u32,
    body: Seq<u8>,
    pos: int,
)
    requires
        layout is ManyTracks || layout is ManyTracksManyCodecs || layout is OneTrack,
        0 <= pos,
    ensures
        split(layout, default, body) == records(layout, default, body, 0),
        ({
            let many = layout is ManyTracksManyCodecs;
            let id = if many {
                pos + 4
            } else {
                pos
            };
            let end = id + 4 + big_endian(body, id + 1, 3);
            &&& many && pos + 4 > body.len() ==> records(layout, default, body, pos) == Err::<
                Seq<Track>,
                Fault,
            >(Fault::MultitrackTruncatedFourCc)
            &&& (many ==> pos + 4 <= body.len()) && id >= body.len() ==> records(
                layout,
                default,
                body,
                pos,
            ) == Err::<Seq<Track>, Fault>(Fault::MultitrackTruncatedTrackId)
            &&& layout is OneTrack && id < body.len() ==> records(layout, default, body, pos) is Ok
            &&& layout !is OneTrack && id < body.len() < id + 4 ==> records(
                layout,
                default,
                body,
                pos,
            ) == Err::<Seq<Track>, Fault>(Fault::MultitrackTruncatedSize)
            &&& layout !is OneTrack && id + 4 <= body.len() < end ==> records(
                layout,
                default,
                body,
                pos,
            ) == Err::<Seq<Track>, Fault>(Fault::MultitrackOverrun)
            &&& layout !is OneTrack && end == body.len() && id + 4 <= body.len() ==> records(
                layout,
                default,
                body,
                pos,
            ) is Ok
            &&& layout !is OneTrack && id + 4 <= end < body.len() ==> (match records(
                layout,
                default,
                body,
                end,
            ) {
                Err(f) => records(layout, default, body, pos) == Err::<Seq<Track>, Fault>(f),
                Ok(rest) => records(layout, default, body, pos) matches Ok(s) && s.skip(1) == rest,
            })
        }),
{
    let id = if layout is ManyTracksManyCodecs {
        pos + 4
    } else {
        pos
    };
    law_numbers_by_bytes(body, id + 1, 0, 0, 0);
    reveal_with_fuel(big_endian, 4);
    let end = id + 4 + big_endian(body, id + 1, 3);
    if let Ok(rest) = records(layout, default, body, end) {
        if let Ok(s) = records(layout, default, body, pos) {
            if layout !is OneTrack && id + 4 <= end < body.len() {
                assert(s.skip(1) =~= rest);
            }
        }
    }
}

/// A layout that is not known has no tracks, and cannot be written.
pub proof fn law_unknown_layouts(n: u8, default: u32, body: Seq<u8>, parts: Seq<Part>)
    ensures
        split(AvMultitrackType::Reserved(n), default, body) == Err::<Seq<Track>, Fault>(
            Fault::MultitrackReservedType,
        ),
        join(AvMultitrackType::Reserved(n), parts) == Err::<Seq<u8>, Fault>(
            Fault::MultitrackReservedType,
        ),
{
}

/// Tracks are written one behind the other, in order: the codec, where they differ in it, the number,
/// the size in three bytes, unless there is only one, and the bytes.
pub proof fn law_tracks_written_in_order(layout: AvMultitrackType, parts: Seq<Part>, p: Part)
    ensures
        record(AvMultitrackType::OneTrack, p) == seq![p.track_id] + p.payload,
        record(AvMultitrackType::ManyTracks, p) == seq![p.track_id] + be24(p.payload.len() as u32)
            + p.payload,
        record(AvMultitrackType::ManyTracksManyCodecs, p) == be32(p.fourcc) + seq![p.track_id] + be24(
            p.payload.len() as u32,
        ) + p.payload,
        body_of(layout, Seq::empty()).len() == 0,
        body_of(layout, seq![p] + parts) == record(layout, p) + body_of(layout, parts),
{
    assert(record(AvMultitrackType::OneTrack, p) =~= seq![p.track_id] + p.payload);
    assert(record(AvMultitrackType::ManyTracks, p) =~= seq![p.track_id] + be24(
        p.payload.len() as u32,
    ) + p.payload);
    assert(record(AvMultitrackType::ManyTracksManyCodecs, p) =~= be32(p.fourcc) + seq![p.track_id]
        + be24(p.payload.len() as u32) + p.payload);
    assert((seq![p] + parts).drop_first() =~= parts);
}

/// When tracks can be written: there is at least one, and no other in the layout for one; in the other
/// layouts none is above 16777215 bytes.
pub proof fn law_tracks_are_joined(layout: AvMultitrackType, parts: Seq<Part>)
    requires
        layout !is Reserved,
    ensures
        layout is OneTrack && parts.len() != 1 ==> join(layout, parts) == Err::<Seq<u8>, Fault>(
            Fault::MultitrackNotOneTrack,
        ),
        layout is OneTrack && parts.len() == 1 ==> join(layout, parts) == Ok::<Seq<u8>, Fault>(
            body_of(layout, parts),
        ),
        layout !is OneTrack && parts.len() == 0 ==> join(layout, parts) == Err::<Seq<u8>, Fault>(
            Fault::MultitrackNoTracks,
        ),
        layout !is OneTrack && parts.len() > 0 ==> {
            &&& (exists|i: int|
                0 <= i < parts.len() && (#[trigger] parts[i]).payload.len() > 16777215) ==> join(
                layout,
                parts,
            ) == Err::<Seq<u8>, Fault>(Fault::MultitrackPayloadTooLong)
            &&& (forall|i: int|
                0 <= i < parts.len() ==> (#[trigger] parts[i]).payload.len() <= 16777215) ==> join(
                layout,
                parts,
            ) == Ok::<Seq<u8>, Fault>(body_of(layout, parts))
        },
{
}

// ---- codes ------------------------------------------------------------------

/// The codes of packets, frames, commands, layouts and modifiers.
pub proof fn law_packet_codes(v: u8)
    ensures
        v < 16 ==> ExAudioPacketType::of(v).code() == v,
        ExAudioPacketType::of(0) is SequenceStart,
        ExAudioPacketType::of(1) is CodedFrames,
        ExAudioPacketType::of(2) is SequenceEnd,
        ExAudioPacketType::of(4) is MultichannelConfig,
        ExAudioPacketType::of(5) is Multitrack,
        ExAudioPacketType::of(7) is ModEx,
        ExAudioPacketType::of(3) is Reserved3,
        ExAudioPacketType::of(6) is Reserved6,
        v > 7 ==> ExAudioPacketType::of(v) == ExAudioPacketType::Reserved(v),
        ExAudioPacketType::Reserved(v).code() == v as int % 16,
        v < 16 ==> ExPacketType::of(v).code() == v,
        ExPacketType::of(0) is SequenceStart,
        ExPacketType::of(1) is CodedFrames,
        ExPacketType::of(2) is SequenceEnd,
        ExPacketType::of(3) is CodedFramesX,
        ExPacketType::of(4) is Metadata,
        ExPacketType::of(5) is Mpeg2TsSequenceStart,
        ExPacketType::of(6) is Multitrack,
        ExPacketType::of(7) is ModEx,
        v > 7 ==> ExPacketType::of(v) == ExPacketType::Reserved(v),
        ExPacketType::Reserved(v).code() == v as int % 16,
        v < 8 ==> ExFrameType::of(v).code() == v,
        ExFrameType::of(1) is KeyFrame,
        ExFrameType::of(2) is InterFrame,
        ExFrameType::of(3) is DisposableInterFrame,
        ExFrameType::of(4) is GeneratedKeyFrame,
        ExFrameType::of(5) is Command,
        v == 0 || v > 5 ==> ExFrameType::of(v) == ExFrameType::Reserved(v),
        ExFrameType::Reserved(v).code() == v as int % 8,
        VideoCommand::of(v).code() == v,
        VideoCommand::of(0) is StartSeek,
        VideoCommand::of(1) is EndSeek,
        v > 1 ==> VideoCommand::of(v) == VideoCommand::Reserved(v),
        v < 16 ==> AvMultitrackType::of(v).code() == v,
        AvMultitrackType::of(0) is OneTrack,
        AvMultitrackType::of(1) is ManyTracks,
        AvMultitrackType::of(2) is ManyTracksManyCodecs,
        v > 2 ==> AvMultitrackType::of(v) == AvMultitrackType::Reserved(v),
        AvMultitrackType::Reserved(v).code() == v as int % 16,
        AudioPacketModExType::of(v).code() == v,
        AudioPacketModExType::of(0) is TimestampOffsetNano,
        v > 0 ==> AudioPacketModExType::of(v) == AudioPacketModExType::Reserved(v),
        VideoPacketModExType::of(v).code() == v,
        VideoPacketModExType::of(0) is TimestampOffsetNano,
        v > 0 ==> VideoPacketModExType::of(v) == VideoPacketModExType::Reserved(v),
{
}

// ---- headers ----------------------------------------------------------------

/// An audio packet is extended where the upper half of its first byte is 9. The lower half is its kind,
/// and modifiers may stand before it.
#[verifier::spinoff_prover]
#[verifier::rlimit(40)]
pub proof fn law_ex_audio_by_bytes(body: Seq<u8>)
    ensures
        body.len() == 0 || body[0] < 144 || body[0] > 159 ==> crate::ex_audio::header(body) == Ok::<
            Option<ExAudio>,
            Fault,
        >(None),
        body.len() > 0 && 144 <= body[0] <= 159 ==> (match chain(7, body, 1, (body[0] - 144) as u8) {
            Err(f) => crate::ex_audio::header(body) == Err::<Option<ExAudio>, Fault>(f),
            Ok((p, kind, s)) => {
                &&& kind != 5 && p + 4 > body.len() ==> crate::ex_audio::header(body) == Err::<
                    Option<ExAudio>,
                    Fault,
                >(Fault::ExAudioTruncatedFourCc)
                &&& kind == 5 && p >= body.len() ==> crate::ex_audio::header(body) == Err::<
                    Option<ExAudio>,
                    Fault,
                >(Fault::ExAudioTruncatedMultitrack)
                &&& kind == 5 && p < body.len() && body[p] as int % 16 == 5
                    ==> crate::ex_audio::header(body) == Err::<Option<ExAudio>, Fault>(
                    Fault::ExAudioNestedMultitrack,
                )
                &&& kind == 5 && p < body.len() < p + 5 && body[p] as int % 16 != 5
                    && body[p] as int / 16 != 2 ==> crate::ex_audio::header(body) == Err::<
                    Option<ExAudio>,
                    Fault,
                >(Fault::ExAudioTruncatedMultitrackFourCc)
                &&& kind != 5 && p + 4 <= body.len() ==> (crate::ex_audio::header(body) matches Ok(
                    Some(h),
                ) && h.packet_type == ExAudioPacketType::of(kind) && h.fourcc == Some(
                    big_endian(body, p, 4) as u32,
                ) && h.multitrack is None && h.bytes_consumed == p + 4 && h.mod_ex_entries == s
                    && h.timestamp_offset_nano == saturated(offset_sum(s)))
                &&& kind == 5 && p < body.len() && body[p] as int % 16 != 5 && (body[p] as int / 16
                    != 2 ==> p + 5 <= body.len()) ==> (crate::ex_audio::header(body) matches Ok(
                    Some(h),
                ) && h.packet_type is Multitrack && h.multitrack == Some(
                    AvMultitrackType::of((body[p] as int / 16) as u8),
                ) && h.mod_ex_entries == s && h.timestamp_offset_nano == saturated(offset_sum(s))
                    && (body[p] as int / 16 == 2 ==> h.fourcc is None && h.bytes_consumed == p + 1)
                    && (body[p] as int / 16 != 2 ==> h.fourcc == Some(
                    big_endian(body, p + 1, 4) as u32,
                ) && h.bytes_consumed == p + 5))
            },
        }),
{
    if body.len() > 0 && 144 <= body[0] <= 159 {
        assert(body[0] % 16 == (body[0] - 144) as u8);
        if let Ok((p, kind, s)) = chain(7, body, 1, (body[0] - 144) as u8) {
            law_numbers_by_bytes(body, p, 0, 0, 0);
            law_numbers_by_bytes(body, p + 1, 0, 0, 0);
        }
    }
}

/// The packets of `hvc1`, `avc1` and `vvc1` with a composition time: those of coded frames.
pub open spec fn has_time(kind: int, code: int) -> bool {
    kind == 1 && (code == 0x68766331 || code == 0x61766331 || code == 0x76766331)
}

/// A video packet is extended where the first bit is set. The next three bits are the kind of frame, and
/// the lower half of the first byte is the kind of packet; modifiers may stand before it. Behind the
/// codec stands the composition time, where there is one, and the command of a command frame.
#[verifier::spinoff_prover]
#[verifier::rlimit(40)]
pub proof fn law_ex_video_by_bytes(body: Seq<u8>)
    ensures
        body.len() == 0 || body[0] < 128 ==> crate::ex_video::header(body) == Ok::<
            Option<ExVideo>,
            Fault,
        >(None),
        body.len() > 0 && body[0] >= 128 ==> (match chain(7, body, 1, body[0] % 16) {
            Err(f) => crate::ex_video::header(body) == Err::<Option<ExVideo>, Fault>(f),
            Ok((p, kind, s)) => kind != 6 ==> {
                let code = big_endian(body, p, 4);
                let q = if has_time(kind as int, code) {
                    p + 7
                } else {
                    p + 4
                };
                let commands = (body[0] - 128) / 16 == 5 && kind != 4;
                let end = if commands {
                    q + 1
                } else {
                    q
                };
                &&& p + 4 > body.len() ==> crate::ex_video::header(body) == Err::<
                    Option<ExVideo>,
                    Fault,
                >(Fault::ExVideoTruncatedFourCc)
                &&& p + 4 <= body.len() < q ==> crate::ex_video::header(body) == Err::<
                    Option<ExVideo>,
                    Fault,
                >(Fault::ExVideoTruncatedCompositionTime)
                &&& q <= body.len() < end ==> crate::ex_video::header(body) == Err::<
                    Option<ExVideo>,
                    Fault,
                >(Fault::ExVideoTruncatedCommand)
                &&& end <= body.len() ==> (crate::ex_video::header(body) matches Ok(Some(h)) && {
                    &&& h.frame_type == ExFrameType::of(((body[0] - 128) / 16) as u8)
                    &&& h.packet_type == ExPacketType::of(kind)
                    &&& h.fourcc == Some(code as u32) && h.multitrack is None
                    &&& h.bytes_consumed == end && h.mod_ex_entries == s
                    &&& h.timestamp_offset_nano == saturated(offset_sum(s))
                    &&& has_time(kind as int, code) ==> (h.composition_time_offset_ms matches Some(t)
                        && t == (if body[p + 4] < 128 {
                        big_endian(body, p + 4, 3)
                    } else {
                        big_endian(body, p + 4, 3) - 0x100_0000
                    }))
                    &&& !has_time(kind as int, code) ==> h.composition_time_offset_ms is None
                    &&& commands ==> h.video_command == Some(VideoCommand::of(body[q]))
                    &&& !commands ==> h.video_command is None
                })
            },
        }),
{
    if body.len() > 0 && body[0] >= 128 {
        if let Ok((p, kind, s)) = chain(7, body, 1, body[0] % 16) {
            law_numbers_by_bytes(body, p, 0, 0, 0);
            law_numbers_by_bytes(body, p + 4, 0, 0, 0);
            reveal_with_fuel(big_endian, 4);
        }
    }
}

/// A video packet of tracks names their layout and the kind of all their packets in one byte, and then
/// their codec, unless they differ in it. It has no composition time.
#[verifier::spinoff_prover]
#[verifier::rlimit(40)]
pub proof fn law_ex_video_tracks_by_bytes(body: Seq<u8>)
    ensures
        body.len() > 0 && body[0] >= 128 ==> (chain(7, body, 1, body[0] % 16) matches Ok((p, kind, s))
            ==> (kind == 6 ==> {
            let layout = body[p] as int / 16;
            let inner = body[p] as int % 16;
            let q = if layout == 2 {
                p + 1
            } else {
                p + 5
            };
            let commands = (body[0] - 128) / 16 == 5 && inner != 4;
            let end = if commands {
                q + 1
            } else {
                q
            };
            &&& p >= body.len() ==> crate::ex_video::header(body) == Err::<Option<ExVideo>, Fault>(
                Fault::ExVideoTruncatedMultitrack,
            )
            &&& p < body.len() && inner == 6 ==> crate::ex_video::header(body) == Err::<
                Option<ExVideo>,
                Fault,
            >(Fault::ExVideoNestedMultitrack)
            &&& p < body.len() < q && inner != 6 ==> crate::ex_video::header(body) == Err::<
                Option<ExVideo>,
                Fault,
            >(Fault::ExVideoTruncatedMultitrackFourCc)
            &&& q <= body.len() < end && inner != 6 ==> crate::ex_video::header(body) == Err::<
                Option<ExVideo>,
                Fault,
            >(Fault::ExVideoTruncatedCommand)
            &&& end <= body.len() && inner != 6 ==> (crate::ex_video::header(body) matches Ok(Some(h))
                && {
                &&& h.frame_type == ExFrameType::of(((body[0] - 128) / 16) as u8)
                &&& h.packet_type == ExPacketType::of(inner as u8)
                &&& h.multitrack == Some(AvMultitrackType::of(layout as u8))
                &&& h.bytes_consumed == end && h.mod_ex_entries == s
                &&& h.timestamp_offset_nano == saturated(offset_sum(s))
                &&& h.composition_time_offset_ms is None
                &&& layout == 2 ==> h.fourcc is None
                &&& layout != 2 ==> h.fourcc == Some(big_endian(body, p + 1, 4) as u32)
                &&& commands ==> h.video_command == Some(VideoCommand::of(body[q]))
                &&& !commands ==> h.video_command is None
            })
        })),
{
    if body.len() > 0 && body[0] >= 128 {
        if let Ok((p, kind, s)) = chain(7, body, 1, body[0] % 16) {
            law_numbers_by_bytes(body, p + 1, 0, 0, 0);
        }
    }
}

/// What is written for an extended audio header: a byte and the codec. Modifiers and tracks are refused.
pub proof fn law_ex_audio_written_by_bytes(h: ExAudio)
    ensures
        ({
            let e = crate::ex_audio::emit_header(h);
            let code = h.packet_type.code();
            &&& h.mod_ex_entries.len() > 0 ==> e == Emit::stop(Fault::ExAudioEntriesNotWritten)
            &&& h.mod_ex_entries.len() == 0 && h.timestamp_offset_nano != 0 ==> e == Emit::stop(
                Fault::ExAudioOffsetWithoutEntries,
            )
            &&& h.mod_ex_entries.len() == 0 && h.timestamp_offset_nano == 0 ==> {
                &&& h.multitrack is Some ==> e == Emit::stop(Fault::ExAudioMultitrackNotWritten)
                &&& h.multitrack is None && (code == 5 || code == 7) ==> e == Emit::stop(
                    Fault::ExAudioWrapperPacketType,
                )
                &&& h.multitrack is None && code != 5 && code != 7 ==> (match h.fourcc {
                    None => e.fault == Some(Fault::ExAudioNoFourCc) && e.bytes == seq![
                        (144 + code) as u8,
                    ],
                    Some(f) => e == Emit::put(seq![(144 + code) as u8] + be32(f)),
                })
            }
        }),
{
    let e = crate::ex_audio::emit_header(h);
    assert(h.packet_type.code() < 16);
    assert(e.fault == Some(Fault::ExAudioNoFourCc) ==> e.bytes =~= seq![
        (144 + h.packet_type.code()) as u8,
    ]);
}

/// What is written for an extended video header of one track, without modifiers: a byte, the codec, the
/// composition time, where there is one, and the command of a command frame.
#[verifier::spinoff_prover]
#[verifier::rlimit(40)]
pub proof fn law_ex_video_written_by_bytes(h: ExVideo)
    requires
        h.mod_ex_entries.len() == 0,
        h.multitrack is None,
    ensures
        ({
            let e = crate::ex_video::emit_header(h);
            let kind = h.packet_type.code();
            let commands = h.frame_type is Command && h.packet_type !is Metadata;
            &&& h.timestamp_offset_nano != 0 ==> e == Emit::stop(Fault::ExVideoOffsetWithoutEntries)
            &&& h.timestamp_offset_nano == 0 && (kind == 6 || kind == 7) ==> e == Emit::stop(
                Fault::ExVideoWrapperPacketType,
            )
            &&& h.timestamp_offset_nano == 0 && kind != 6 && kind != 7 ==> {
                &&& h.fourcc is None ==> e.fault == Some(Fault::ExVideoNoFourCc)
                &&& h.fourcc matches Some(f) ==> {
                    let lead = seq![(128 + h.frame_type.code() * 16 + kind) as u8] + be32(f);
                    let timed = h.packet_type is CodedFrames && has_time(1, f as int);
                    &&& timed && h.composition_time_offset_ms is None ==> e.fault == Some(
                        Fault::ExVideoNoCompositionTime,
                    )
                    &&& !timed && h.composition_time_offset_ms is Some ==> e.fault == Some(
                        Fault::ExVideoCompositionTimeUndefined,
                    )
                    &&& timed ==> (h.composition_time_offset_ms matches Some(t) ==> {
                        &&& !(-0x80_0000 <= t < 0x80_0000) ==> e.fault == Some(
                            Fault::ExVideoCompositionTimeRange,
                        )
                        &&& -0x80_0000 <= t < 0x80_0000 && !commands && h.video_command is None ==> e
                            == Emit::put(
                            lead + be24(
                                (if t < 0 {
                                    t + 0x100_0000
                                } else {
                                    t as int
                                }) as u32,
                            ),
                        )
                    })
                    &&& !timed && h.composition_time_offset_ms is None ==> {
                        &&& commands && h.video_command is None ==> e.fault == Some(
                            Fault::ExVideoNoCommand,
                        )
                        &&& !commands && h.video_command is Some ==> e.fault == Some(
                            Fault::ExVideoCommandUndefined,
                        )
                        &&& !commands && h.video_command is None ==> e == Emit::put(lead)
                        &&& commands ==> (h.video_command matches Some(c) ==> e == Emit::put(
                            lead + seq![c.code()],
                        ))
                    }
                }
            }
        }),
{
    let e = crate::ex_video::emit_header(h);
    if e.fault is None {
        let f = h.fourcc->0;
        let lead = seq![(128 + h.frame_type.code() * 16 + h.packet_type.code()) as u8] + be32(f);
        if let Some(t) = h.composition_time_offset_ms {
            let u = (if t < 0 {
                t + 0x100_0000
            } else {
                t as int
            }) as u32;
            if h.video_command is None {
                assert(e.bytes =~= lead + be24(u));
            }
        } else if let Some(c) = h.video_command {
            assert(e.bytes =~= lead + seq![c.code()]);
        } else {
            assert(e.bytes =~= lead);
        }
    }
}

/// Modifiers are written before the rest of a video header: the first byte says that there are some, and
/// the last of them what kind of packet follows. The rest is as without them.
#[verifier::spinoff_prover]
pub proof fn law_modified_video_written(h: ExVideo)
    requires
        h.mod_ex_entries.len() > 0,
    ensures
        ({
            let e = crate::ex_video::emit_header(h);
            let kind = if h.multitrack is Some {
                6int
            } else {
                h.packet_type.code() as int
            };
            let mods = emit_chain(7, h.mod_ex_entries, kind as u8);
            let plain = crate::ex_video::emit_header(
                ExVideo { mod_ex_entries: Seq::empty(), timestamp_offset_nano: 0, ..h },
            );
            &&& h.multitrack is None && (kind == 6 || kind == 7) ==> e == Emit::stop(
                Fault::ExVideoWrapperPacketType,
            )
            &&& !(h.multitrack is None && (kind == 6 || kind == 7)) && mods.fault is Some ==> e.fault
                == mods.fault
            &&& !(h.multitrack is None && (kind == 6 || kind == 7)) && mods.fault is None ==> e.fault
                == plain.fault && e.bytes == seq![(128 + h.frame_type.code() * 16 + 7) as u8]
                + mods.bytes + plain.bytes.skip(1)
        }),
{
    let e = crate::ex_video::emit_header(h);
    let g = ExVideo { mod_ex_entries: Seq::empty(), timestamp_offset_nano: 0, ..h };
    let plain = crate::ex_video::emit_header(g);
    let kind = crate::ex_video::outer_type(h);
    let mods = emit_chain(7, h.mod_ex_entries, kind);
    let lead = seq![(128 + h.frame_type.code() * 16 + 7) as u8];
    let short = seq![(128 + h.frame_type.code() * 16 + kind) as u8];
    let body = crate::ex_video::emit_carrier(h);
    let tail = crate::ex_video::emit_command(h);
    assert(crate::ex_video::emit_carrier(g) == body);
    assert(crate::ex_video::emit_command(g) == tail);
    if !crate::ex_video::wrapper_alone(h) && mods.fault is None {
        let rest = body.and(tail).bytes;
        assert(plain.bytes =~= short + rest);
        assert(plain.bytes.skip(1) =~= rest);
        assert(e.bytes =~= lead + mods.bytes + rest);
    }
}

/// What is written for an extended video header of tracks: a byte, the layout with the kind of packet,
/// and the codec that they share. Tracks that differ in codec share none, and none has a composition
/// time here.
#[verifier::spinoff_prover]
pub proof fn law_video_tracks_written(h: ExVideo, m: AvMultitrackType)
    requires
        h.mod_ex_entries.len() == 0,
        h.timestamp_offset_nano == 0,
        h.multitrack == Some(m),
    ensures
        ({
            let e = crate::ex_video::emit_header(h);
            let kind = h.packet_type.code();
            let many = m is ManyTracksManyCodecs;
            let commands = h.frame_type is Command && h.packet_type !is Metadata;
            let lead = seq![
                (128 + h.frame_type.code() * 16 + 6) as u8,
                (m.code() * 16 + kind) as u8,
            ];
            &&& kind == 6 ==> e.fault == Some(Fault::ExVideoNestedMultitrack)
            &&& kind != 6 && many && h.fourcc is Some ==> e.fault == Some(Fault::ExVideoSharedFourCc)
            &&& kind != 6 && !many && h.fourcc is None ==> e.fault == Some(
                Fault::ExVideoNoSharedFourCc,
            )
            &&& kind != 6 && many != h.fourcc is Some && h.composition_time_offset_ms is Some ==> e.fault
                == Some(Fault::ExVideoCompositionTimeInMultitrack)
            &&& kind != 6 && many != h.fourcc is Some && h.composition_time_offset_ms is None ==> {
                let codec = if many {
                    Seq::empty()
                } else {
                    be32(h.fourcc->0)
                };
                &&& commands && h.video_command is None ==> e.fault == Some(Fault::ExVideoNoCommand)
                &&& !commands && h.video_command is Some ==> e.fault == Some(
                    Fault::ExVideoCommandUndefined,
                )
                &&& !commands && h.video_command is None ==> e == Emit::put(lead + codec)
                &&& commands ==> (h.video_command matches Some(c) ==> e == Emit::put(
                    lead + codec + seq![c.code()],
                ))
            }
        }),
{
    let e = crate::ex_video::emit_header(h);
    let lead = seq![
        (128 + h.frame_type.code() * 16 + 6) as u8,
        (m.code() * 16 + h.packet_type.code()) as u8,
    ];
    if e.fault is None {
        let codec = if m is ManyTracksManyCodecs {
            Seq::empty()
        } else {
            be32(h.fourcc->0)
        };
        if let Some(c) = h.video_command {
            assert(e.bytes =~= lead + codec + seq![c.code()]);
        } else {
            assert(e.bytes =~= lead + codec);
        }
    }
}

// ---- speakers ---------------------------------------------------------------

/// A layout of speakers by its bytes: its order, the number of channels, and the speaker of each, or
/// a mask of four bytes.
pub proof fn law_speakers_by_bytes(body: Seq<u8>)
    ensures
        body.len() < 2 ==> config(body) == Err::<Channels, Fault>(Fault::MultichannelTooShort),
        body.len() >= 2 && body[0] == 2 && body.len() < 2 + body[1] ==> config(body) == Err::<
            Channels,
            Fault,
        >(Fault::MultichannelTruncatedMapping),
        body.len() >= 2 && body[0] == 2 && body.len() >= 2 + body[1] ==> (config(body) matches Ok(c)
            && c.order is Custom && c.channel_count == body[1] && c.channel_flags is None && (
        c.mapping matches Some(m) && m.len() == body[1] && forall|i: int|
            0 <= i < body[1] ==> #[trigger] m[i] == AudioChannel::of(body[2 + i]))),
        2 <= body.len() < 6 && body[0] == 1 ==> config(body) == Err::<Channels, Fault>(
            Fault::MultichannelTruncatedFlags,
        ),
        body.len() >= 6 && body[0] == 1 ==> (config(body) matches Ok(c) && c.order is Native
            && c.channel_count == body[1] && c.mapping is None && c.channel_flags == Some(
            big_endian(body, 2, 4) as u32,
        )),
        body.len() >= 2 && body[0] == 0 ==> (config(body) matches Ok(c) && c.order is Unspecified
            && c.channel_count == body[1] && c.mapping is None && c.channel_flags is None),
        body.len() >= 2 && body[0] > 2 ==> (config(body) matches Ok(c) && c.order
            == AudioChannelOrder::Reserved(body[0]) && c.channel_count == body[1] && c.mapping is None
            && c.channel_flags is None),
{
    law_numbers_by_bytes(body, 2, 0, 0, 0);
}

/// What is written for a layout of speakers, and what is refused.
pub proof fn law_speakers_written_by_bytes(c: Channels)
    ensures
        ({
            let e = emit_config(c);
            &&& c.order is Reserved ==> e == Emit::stop(Fault::MultichannelReservedOrder)
            &&& c.order is Unspecified ==> e == (if c.mapping is None && c.channel_flags is None {
                Emit::put(seq![0u8, c.channel_count])
            } else {
                Emit::stop(Fault::MultichannelUnspecifiedExtra)
            })
            &&& c.order is Custom && c.channel_flags is Some ==> e == Emit::stop(
                Fault::MultichannelCustomFlags,
            )
            &&& c.order is Custom && c.channel_flags is None ==> (match c.mapping {
                None => e == Emit::stop(Fault::MultichannelNoMapping),
                Some(m) => if m.len() == c.channel_count {
                    e.fault is None && e.bytes.len() == 2 + m.len() && e.bytes[0] == 2 && e.bytes[1]
                        == c.channel_count && forall|i: int|
                        0 <= i < m.len() ==> #[trigger] e.bytes[2 + i] == m[i].code()
                } else {
                    e == Emit::stop(Fault::MultichannelMappingLength)
                },
            })
            &&& c.order is Native && c.mapping is Some ==> e == Emit::stop(
                Fault::MultichannelNativeMapping,
            )
            &&& c.order is Native && c.mapping is None ==> (match c.channel_flags {
                None => e == Emit::stop(Fault::MultichannelNoFlags),
                Some(f) => if f >= 0x100_0000 {
                    e == Emit::stop(Fault::MultichannelFlagsRange)
                } else if ones(f as nat) != c.channel_count {
                    e == Emit::stop(Fault::MultichannelFlagsCount)
                } else {
                    e == Emit::put(seq![1u8, c.channel_count] + be32(f))
                },
            })
        }),
{
    let e = emit_config(c);
    if e.fault is None {
        if c.order is Unspecified {
            assert(e.bytes =~= seq![0u8, c.channel_count]);
        } else if c.order is Native {
            assert(e.bytes =~= seq![1u8, c.channel_count] + be32(c.channel_flags->0));
        }
    }
}

/// The bits of a mask are counted, and its speakers are named in the order of their bits.
pub proof fn law_masks_by_bits(mask: nat, first: nat)
    ensures
        ones(0) == 0,
        ones(2 * mask) == ones(mask),
        ones(2 * mask + 1) == ones(mask) + 1,
        first < 24 ==> names(2 * mask, first) == names(mask, first + 1),
        first < 24 ==> names(2 * mask + 1, first) == seq![AudioChannel::of(first as u8).name()]
            + names(mask, first + 1),
        first >= 24 ==> names(mask, first).len() == 0,
{
    assert((2 * mask) / 2 == mask && (2 * mask) % 2 == 0);
    assert((2 * mask + 1) / 2 == mask && (2 * mask + 1) % 2 == 1);
    if first < 24 {
        assert(Seq::<Seq<char>>::empty() + names(mask, first + 1) =~= names(mask, first + 1));
    }
}

/// The names of the speakers by their codes.
pub proof fn law_speaker_names(n: u8)
    ensures
        AudioChannel::of(0).name() == "frontleft"@,
        AudioChannel::of(1).name() == "frontright"@,
        AudioChannel::of(2).name() == "frontcenter"@,
        AudioChannel::of(3).name() == "lowfrequency1"@,
        AudioChannel::of(4).name() == "backleft"@,
        AudioChannel::of(5).name() == "backright"@,
        AudioChannel::of(6).name() == "frontleftcenter"@,
        AudioChannel::of(7).name() == "frontrightcenter"@,
        AudioChannel::of(8).name() == "backcenter"@,
        AudioChannel::of(9).name() == "sideleft"@,
        AudioChannel::of(10).name() == "sideright"@,
        AudioChannel::of(11).name() == "topcenter"@,
        AudioChannel::of(12).name() == "topfrontleft"@,
        AudioChannel::of(13).name() == "topfrontcenter"@,
        AudioChannel::of(14).name() == "topfrontright"@,
        AudioChannel::of(15).name() == "topbackleft"@,
        AudioChannel::of(16).name() == "topbackcenter"@,
        AudioChannel::of(17).name() == "topbackright"@,
        AudioChannel::of(18).name() == "lowfrequency2"@,
        AudioChannel::of(19).name() == "topsideleft"@,
        AudioChannel::of(20).name() == "topsideright"@,
        AudioChannel::of(21).name() == "bottomfrontcenter"@,
        AudioChannel::of(22).name() == "bottomfrontleft"@,
        AudioChannel::of(23).name() == "bottomfrontright"@,
        AudioChannel::of(254).name() == "unused"@,
        AudioChannel::of(255).name() == "unknown"@,
        24 <= n < 254 ==> AudioChannel::of(n).name() == "reserved:"@ + decimal(n as nat),
        AudioChannel::of(n).code() == n,
        AudioChannelOrder::of(0).name() == "unspecified"@,
        AudioChannelOrder::of(1).name() == "native"@,
        AudioChannelOrder::of(2).name() == "custom"@,
        n > 2 ==> AudioChannelOrder::of(n).name() == "reserved:"@ + decimal(n as nat),
        AudioChannelOrder::of(n).code() == n,
{
}

/// The speakers by their codes.
pub proof fn law_speaker_codes(n: u8)
    ensures
        AudioChannel::of(0) is FrontLeft,
        AudioChannel::of(1) is FrontRight,
        AudioChannel::of(2) is FrontCenter,
        AudioChannel::of(3) is LowFrequency1,
        AudioChannel::of(4) is BackLeft,
        AudioChannel::of(5) is BackRight,
        AudioChannel::of(6) is FrontLeftCenter,
        AudioChannel::of(7) is FrontRightCenter,
        AudioChannel::of(8) is BackCenter,
        AudioChannel::of(9) is SideLeft,
        AudioChannel::of(10) is SideRight,
        AudioChannel::of(11) is TopCenter,
        AudioChannel::of(12) is TopFrontLeft,
        AudioChannel::of(13) is TopFrontCenter,
        AudioChannel::of(14) is TopFrontRight,
        AudioChannel::of(15) is TopBackLeft,
        AudioChannel::of(16) is TopBackCenter,
        AudioChannel::of(17) is TopBackRight,
        AudioChannel::of(18) is LowFrequency2,
        AudioChannel::of(19) is TopSideLeft,
        AudioChannel::of(20) is TopSideRight,
        AudioChannel::of(21) is BottomFrontCenter,
        AudioChannel::of(22) is BottomFrontLeft,
        AudioChannel::of(23) is BottomFrontRight,
        AudioChannel::of(254) is Unused,
        AudioChannel::of(255) is Unknown,
        24 <= n < 254 ==> AudioChannel::of(n) == AudioChannel::Reserved(n),
        AudioChannel::Reserved(n).code() == n,
        AudioChannelOrder::of(0) is Unspecified,
        AudioChannelOrder::of(1) is Native,
        AudioChannelOrder::of(2) is Custom,
        n > 2 ==> AudioChannelOrder::of(n) == AudioChannelOrder::Reserved(n),
{
}

} // verus!
