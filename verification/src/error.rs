//! What can be wrong with a byte stream or with a value to be written.
use vstd::prelude::*;
use vstd::string::*;

verus! {

/// A number in the description of a picture's colours.
#[derive(Clone, Copy, Debug, PartialEq, Eq, Structural)]
pub enum ColorField {
    MaxFall,
    MaxCll,
    RedX,
    RedY,
    GreenX,
    GreenY,
    BlueX,
    BlueY,
    WhitePointX,
    WhitePointY,
    MaxLuminance,
    MinLuminance,
}

/// The reason a byte stream is malformed, or a value has no encoding.
#[derive(Clone, Copy, Debug, PartialEq, Eq, Structural)]
pub enum Fault {
    Amf0TruncatedValue,
    Amf0TruncatedU16,
    Amf0TruncatedI16,
    Amf0TruncatedU32,
    Amf0TruncatedDouble,
    Amf0TruncatedString,
    Amf0StringNotUtf8,
    Amf0TruncatedObject,
    Amf0UnknownMarker,
    Amf0StringTooLong,
    Amf0XmlTooLong,
    Amf0ArrayTooLong,
    HeaderSignature,
    HeaderVersion,
    HeaderDataOffset,
    TagDataTooLong,
    TagStreamIdTooLarge,
    TagCompositionTimeRange,
    FilterEmptyBody,
    FilterCount,
    FilterNameUnterminated,
    FilterNameNotUtf8,
    FilterTruncatedLength,
    FilterTruncatedParams,
    FilterShortIv,
    FilterNoSelector,
    FilterTruncatedIv,
    FilterUnknownName,
    MetaDateNotFinite,
    KeyframesEmpty,
    KeyframesLengthMismatch,
    KeyframesPositionTooLarge,
    KeyframesTimeNotFinite,
    KeyframesTimesNotAscending,
    CuePointTimeNotFinite,
    ColorBitDepth,
    ColorNotFinite(ColorField),
    ColorOutOfRange(ColorField),
    ConnectCommandName,
    ConnectNotAnObject,
    OnStatusCommandName,
    OnStatusNotAnObject,
    ExAudioTruncatedMultitrack,
    ExAudioNestedMultitrack,
    ExAudioTruncatedMultitrackFourCc,
    ExAudioTruncatedFourCc,
    ExAudioEntriesNotWritten,
    ExAudioOffsetWithoutEntries,
    ExAudioMultitrackNotWritten,
    ExAudioWrapperPacketType,
    ExAudioNoFourCc,
    ExVideoTruncatedMultitrack,
    ExVideoNestedMultitrack,
    ExVideoTruncatedMultitrackFourCc,
    ExVideoTruncatedFourCc,
    ExVideoTruncatedCompositionTime,
    ExVideoTruncatedCommand,
    ExVideoOffsetWithoutEntries,
    ExVideoWrapperPacketType,
    ExVideoSharedFourCc,
    ExVideoNoSharedFourCc,
    ExVideoNoFourCc,
    ExVideoCompositionTimeInMultitrack,
    ExVideoCompositionTimeRange,
    ExVideoNoCompositionTime,
    ExVideoCompositionTimeUndefined,
    ExVideoNoCommand,
    ExVideoCommandUndefined,
    MultichannelTooShort,
    MultichannelTruncatedMapping,
    MultichannelTruncatedFlags,
    MultichannelUnspecifiedExtra,
    MultichannelCustomFlags,
    MultichannelNoMapping,
    MultichannelMappingLength,
    MultichannelNativeMapping,
    MultichannelNoFlags,
    MultichannelFlagsRange,
    MultichannelFlagsCount,
    MultichannelReservedOrder,
    MultitrackReservedType,
    MultitrackTruncatedFourCc,
    MultitrackTruncatedTrackId,
    MultitrackTruncatedSize,
    MultitrackOverrun,
    MultitrackNotOneTrack,
    MultitrackNoTracks,
    MultitrackPayloadTooLong,
    ModExTruncatedSize,
    ModExTruncatedLongSize,
    ModExTruncatedData,
    ModExTruncatedTrailer,
    ModExShortTimestampOffset,
    ModExNoEntries,
    ModExPacketTypeTooWide,
    ModExEndsInModEx,
    ModExSubtypeTooWide,
    ModExOffsetTooLarge,
    ModExOffsetMismatch,
    ModExOffsetSubtype,
    ModExOffsetUntyped,
    ModExBadSize,
    Amf3TruncatedValue,
    Amf3TruncatedDouble,
    Amf3TruncatedText,
    Amf3TextNotUtf8,
    Amf3UnknownMarker,
    Amf3StringRefOutOfRange,
    Amf3ObjectRefOutOfRange,
    Amf3ObjectRefWrongType,
    Amf3DateRefOutOfRange,
    Amf3DateRefWrongType,
    Amf3ArrayRefOutOfRange,
    Amf3ArrayRefWrongType,
    Amf3BytesRefOutOfRange,
    Amf3BytesRefWrongType,
    Amf3TruncatedBytes,
    Amf3TraitsRefOutOfRange,
    Amf3ExternalizableWithSealed,
    Amf3IntegerTooWide,
    Amf3StringTooLong,
    Amf3StringIndexTooLarge,
    Amf3XmlTooLong,
    Amf3BytesTooLong,
    Amf3DenseTooLong,
    Amf3EmptyAssocKey,
    Amf3SealedMismatch,
    Amf3TooManySealed,
    Amf3EmptyDynamicKey,
    EmptyAudioTag,
    EmptyVideoTag,
    NoStreams,
    StreamIndexRange,
}

impl ColorField {
    /// The name of the number.
    pub open spec fn text(self) -> Seq<char> {
        match self {
            ColorField::MaxFall => "maxFall"@,
            ColorField::MaxCll => "maxCLL"@,
            ColorField::RedX => "redX"@,
            ColorField::RedY => "redY"@,
            ColorField::GreenX => "greenX"@,
            ColorField::GreenY => "greenY"@,
            ColorField::BlueX => "blueX"@,
            ColorField::BlueY => "blueY"@,
            ColorField::WhitePointX => "whitePointX"@,
            ColorField::WhitePointY => "whitePointY"@,
            ColorField::MaxLuminance => "maxLuminance"@,
            ColorField::MinLuminance => "minLuminance"@,
        }
    }

    /// The name of the number.
    pub fn name(self) -> (r: &'static str)
        ensures
            r@ == self.text(),
    {
        match self {
            ColorField::MaxFall => "maxFall",
            ColorField::MaxCll => "maxCLL",
            ColorField::RedX => "redX",
            ColorField::RedY => "redY",
            ColorField::GreenX => "greenX",
            ColorField::GreenY => "greenY",
            ColorField::BlueX => "blueX",
            ColorField::BlueY => "blueY",
            ColorField::WhitePointX => "whitePointX",
            ColorField::WhitePointY => "whitePointY",
            ColorField::MaxLuminance => "maxLuminance",
            ColorField::MinLuminance => "minLuminance",
        }
    }
}

impl Fault {
    /// What is wrong, in words.
    pub open spec fn text(self) -> Seq<char> {
        match self {
            Fault::Amf0TruncatedValue => "AMF0: truncated value"@,
            Fault::Amf0TruncatedU16 => "AMF0: truncated u16"@,
            Fault::Amf0TruncatedI16 => "AMF0: truncated i16"@,
            Fault::Amf0TruncatedU32 => "AMF0: truncated u32"@,
            Fault::Amf0TruncatedDouble => "AMF0: truncated number"@,
            Fault::Amf0TruncatedString => "AMF0: truncated string"@,
            Fault::Amf0StringNotUtf8 => "AMF0: non-UTF-8 string"@,
            Fault::Amf0TruncatedObject => "AMF0: truncated object body"@,
            Fault::Amf0UnknownMarker => "AMF0: unsupported type marker"@,
            Fault::Amf0StringTooLong => "AMF0: string length exceeds UI16 max (use a long string)"@,
            Fault::Amf0XmlTooLong => "AMF0: XML length exceeds UI32 max"@,
            Fault::Amf0ArrayTooLong => "AMF0: strict-array length exceeds UI32 max"@,
            Fault::HeaderSignature => "FLV: signature mismatch"@,
            Fault::HeaderVersion => "FLV: unsupported version"@,
            Fault::HeaderDataOffset => "FLV: DataOffset must be 9 for version 1"@,
            Fault::TagDataTooLong => "FLV tag: DataSize exceeds UI24 max"@,
            Fault::TagStreamIdTooLarge => "FLV tag: StreamID exceeds UI24 max"@,
            Fault::TagCompositionTimeRange => "AVC tag: CompositionTime outside SI24 range"@,
            Fault::FilterEmptyBody => "FLV encrypted tag: empty body"@,
            Fault::FilterCount => "FLV encrypted tag: NumFilters != 1"@,
            Fault::FilterNameUnterminated => "FLV encrypted tag: unterminated FilterName"@,
            Fault::FilterNameNotUtf8 => "FLV encrypted tag: non-UTF-8 FilterName"@,
            Fault::FilterTruncatedLength => "FLV encrypted tag: truncated Length"@,
            Fault::FilterTruncatedParams => "FLV encrypted tag: truncated FilterParams body"@,
            Fault::FilterShortIv => "FLV Encryption FilterParams: IV must be 16 bytes"@,
            Fault::FilterNoSelector => "FLV SE FilterParams: empty"@,
            Fault::FilterTruncatedIv => "FLV SE FilterParams: truncated IV (EncryptedAU=1 needs 1+16 bytes)"@,
            Fault::FilterUnknownName => "FLV encrypted tag: unknown FilterName"@,
            Fault::MetaDateNotFinite => "FLV onMetaData Date property: time_ms must be finite"@,
            Fault::KeyframesEmpty => "FLV onMetaData.keyframes: filepositions / times must be non-empty"@,
            Fault::KeyframesLengthMismatch => "FLV onMetaData.keyframes: filepositions / times length mismatch"@,
            Fault::KeyframesPositionTooLarge => "FLV onMetaData.keyframes: filepositions entry exceeds 2^53 (would round when serialised as AMF0 Number)"@,
            Fault::KeyframesTimeNotFinite => "FLV onMetaData.keyframes: times entries must be finite"@,
            Fault::KeyframesTimesNotAscending => "FLV onMetaData.keyframes: times must be sorted ascending"@,
            Fault::CuePointTimeNotFinite => "FLV onCuePoint: time_seconds must be finite"@,
            Fault::ColorBitDepth => "colorInfo: bitDepth outside expected [8, 16]"@,
            Fault::ColorNotFinite(field) => "colorInfo: "@ + field.text() + " is not finite"@,
            Fault::ColorOutOfRange(field) => "colorInfo: "@ + field.text() + " outside spec range"@,
            Fault::ConnectCommandName => "FLV connect: expected command name \"connect\""@,
            Fault::ConnectNotAnObject => "FLV connect: Command Object must be an AMF0 Object"@,
            Fault::OnStatusCommandName => "FLV onStatus: expected command name \"onStatus\""@,
            Fault::OnStatusNotAnObject => "FLV onStatus: Info Object must be an AMF0 Object"@,
            Fault::ExAudioTruncatedMultitrack => "FLV Ex audio tag: truncated multitrack header byte"@,
            Fault::ExAudioNestedMultitrack => "FLV Ex audio tag: nested Multitrack packet type"@,
            Fault::ExAudioTruncatedMultitrackFourCc => "FLV Ex audio tag: truncated multitrack FourCc"@,
            Fault::ExAudioTruncatedFourCc => "FLV Ex audio tag: truncated FourCc"@,
            Fault::ExAudioEntriesNotWritten => "ExAudioTagHeader::to_bytes: headers with ModEx entries are not written"@,
            Fault::ExAudioOffsetWithoutEntries => "ExAudioTagHeader::to_bytes: nonzero timestamp_offset_nano without mod_ex_entries"@,
            Fault::ExAudioMultitrackNotWritten => "ExAudioTagHeader::to_bytes: multitrack headers are not written"@,
            Fault::ExAudioWrapperPacketType => "ExAudioTagHeader::to_bytes: Multitrack and ModEx are not packet types of one track"@,
            Fault::ExAudioNoFourCc => "ExAudioTagHeader::to_bytes: single-track header needs a FourCc"@,
            Fault::ExVideoTruncatedMultitrack => "FLV Ex video tag: truncated multitrack header byte"@,
            Fault::ExVideoNestedMultitrack => "FLV Ex video tag: nested Multitrack packet type"@,
            Fault::ExVideoTruncatedMultitrackFourCc => "FLV Ex video tag: truncated multitrack FourCc"@,
            Fault::ExVideoTruncatedFourCc => "FLV Ex video tag: truncated FourCc"@,
            Fault::ExVideoTruncatedCompositionTime => "FLV Ex video tag: truncated CompositionTimeOffset"@,
            Fault::ExVideoTruncatedCommand => "FLV Ex video tag: truncated VideoCommand"@,
            Fault::ExVideoOffsetWithoutEntries => "ExVideoTagHeader::to_bytes: nonzero timestamp_offset_nano without mod_ex_entries"@,
            Fault::ExVideoWrapperPacketType => "ExVideoTagHeader::to_bytes: Multitrack and ModEx are not packet types of one track"@,
            Fault::ExVideoSharedFourCc => "ExVideoTagHeader::to_bytes: ManyTracksManyCodecs must not carry a shared FourCc"@,
            Fault::ExVideoNoSharedFourCc => "ExVideoTagHeader::to_bytes: multitrack OneTrack/ManyTracks needs a shared FourCc"@,
            Fault::ExVideoNoFourCc => "ExVideoTagHeader::to_bytes: single-track header needs a FourCc"@,
            Fault::ExVideoCompositionTimeInMultitrack => "ExVideoTagHeader::to_bytes: composition_time_offset_ms must be None in multitrack mode (per-track CTO lives in the payload)"@,
            Fault::ExVideoCompositionTimeRange => "ExVideoTagHeader::to_bytes: CompositionTimeOffset outside SI24 range"@,
            Fault::ExVideoNoCompositionTime => "ExVideoTagHeader::to_bytes: HEVC/VVC/AVC CodedFrames requires composition_time_offset_ms (use 0 for no reorder)"@,
            Fault::ExVideoCompositionTimeUndefined => "ExVideoTagHeader::to_bytes: composition_time_offset_ms is only defined for HEVC/VVC/AVC CodedFrames"@,
            Fault::ExVideoNoCommand => "ExVideoTagHeader::to_bytes: frame_type=Command with non-Metadata packet_type requires video_command"@,
            Fault::ExVideoCommandUndefined => "ExVideoTagHeader::to_bytes: video_command set without frame_type=Command (or with Metadata packet_type)"@,
            Fault::MultichannelTooShort => "FLV MultichannelConfig: body shorter than order + count bytes"@,
            Fault::MultichannelTruncatedMapping => "FLV MultichannelConfig: truncated Custom channel mapping"@,
            Fault::MultichannelTruncatedFlags => "FLV MultichannelConfig: truncated Native channel flags"@,
            Fault::MultichannelUnspecifiedExtra => "FLV MultichannelConfig: Unspecified order carries no mapping or channel flags"@,
            Fault::MultichannelCustomFlags => "FLV MultichannelConfig: Custom order carries a mapping, not channel flags"@,
            Fault::MultichannelNoMapping => "FLV MultichannelConfig: Custom order needs a channel mapping"@,
            Fault::MultichannelMappingLength => "FLV MultichannelConfig: mapping length differs from channelCount"@,
            Fault::MultichannelNativeMapping => "FLV MultichannelConfig: Native order carries channel flags, not a mapping"@,
            Fault::MultichannelNoFlags => "FLV MultichannelConfig: Native order needs channel flags"@,
            Fault::MultichannelFlagsRange => "FLV MultichannelConfig: channel flags set bits outside the AudioChannelMask range"@,
            Fault::MultichannelFlagsCount => "FLV MultichannelConfig: channel flags mark a number of channels other than channelCount"@,
            Fault::MultichannelReservedOrder => "FLV MultichannelConfig: reserved AudioChannelOrder has no wire layout"@,
            Fault::MultitrackReservedType => "FLV multitrack: reserved AvMultitrackType has no defined per-track layout"@,
            Fault::MultitrackTruncatedFourCc => "FLV multitrack: truncated per-track FourCc"@,
            Fault::MultitrackTruncatedTrackId => "FLV multitrack: truncated trackId"@,
            Fault::MultitrackTruncatedSize => "FLV multitrack: truncated sizeOfTrack"@,
            Fault::MultitrackOverrun => "FLV multitrack: sizeOfTrack runs past end of body"@,
            Fault::MultitrackNotOneTrack => "FLV multitrack: OneTrack body must carry exactly one track"@,
            Fault::MultitrackNoTracks => "FLV multitrack: ManyTracks/ManyTracksManyCodecs body needs at least one track"@,
            Fault::MultitrackPayloadTooLong => "FLV multitrack: track payload exceeds UI24 sizeOfTrack capacity"@,
            Fault::ModExTruncatedSize => "FLV ModEx: truncated size prefix"@,
            Fault::ModExTruncatedLongSize => "FLV ModEx: truncated UI16 size escape"@,
            Fault::ModExTruncatedData => "FLV ModEx: truncated modExData"@,
            Fault::ModExTruncatedTrailer => "FLV ModEx: truncated trailer byte"@,
            Fault::ModExShortTimestampOffset => "FLV ModEx: TimestampOffsetNano needs >= 3 bytes"@,
            Fault::ModExNoEntries => "FLV ModEx: emit called with no entries (use the lead byte directly)"@,
            Fault::ModExPacketTypeTooWide => "FLV ModEx: final_packet_type must fit in UB[4]"@,
            Fault::ModExEndsInModEx => "FLV ModEx: final_packet_type cannot itself be the ModEx sentinel"@,
            Fault::ModExSubtypeTooWide => "FLV ModEx: subtype_raw must fit in UB[4]"@,
            Fault::ModExOffsetTooLarge => "FLV ModEx: TimestampOffsetNano offset_ns exceeds 999_999 ns"@,
            Fault::ModExOffsetMismatch => "FLV ModEx: TimestampOffsetNano raw[0..3] does not match offset_ns"@,
            Fault::ModExOffsetSubtype => "FLV ModEx: TimestampOffsetNano payload requires subtype_raw == 0"@,
            Fault::ModExOffsetUntyped => "FLV ModEx: subtype_raw == 0 requires a TimestampOffsetNano payload"@,
            Fault::ModExBadSize => "FLV ModEx: modExData size must be in 1..=65_536"@,
            Fault::Amf3TruncatedValue => "AMF3: truncated value"@,
            Fault::Amf3TruncatedDouble => "AMF3: truncated number"@,
            Fault::Amf3TruncatedText => "AMF3: truncated UTF-8 body"@,
            Fault::Amf3TextNotUtf8 => "AMF3: invalid UTF-8 in string body"@,
            Fault::Amf3UnknownMarker => "AMF3: unsupported type marker"@,
            Fault::Amf3StringRefOutOfRange => "AMF3: string-ref out of range"@,
            Fault::Amf3ObjectRefOutOfRange => "AMF3: object-ref out of range"@,
            Fault::Amf3ObjectRefWrongType => "AMF3: object-ref points at value of incompatible type"@,
            Fault::Amf3DateRefOutOfRange => "AMF3: date-ref out of range"@,
            Fault::Amf3DateRefWrongType => "AMF3: date-ref points at value of incompatible type"@,
            Fault::Amf3ArrayRefOutOfRange => "AMF3: array-ref out of range"@,
            Fault::Amf3ArrayRefWrongType => "AMF3: array-ref points at value of incompatible type"@,
            Fault::Amf3BytesRefOutOfRange => "AMF3: byte-array-ref out of range"@,
            Fault::Amf3BytesRefWrongType => "AMF3: byte-array-ref points at value of incompatible type"@,
            Fault::Amf3TruncatedBytes => "AMF3: truncated byte-array body"@,
            Fault::Amf3TraitsRefOutOfRange => "AMF3: traits-ref out of range"@,
            Fault::Amf3ExternalizableWithSealed => "AMF3: traits-ext header has non-zero sealed count"@,
            Fault::Amf3IntegerTooWide => "AMF3: integer out of signed 29-bit range, encode as Double"@,
            Fault::Amf3StringTooLong => "AMF3: string too long to encode"@,
            Fault::Amf3StringIndexTooLarge => "AMF3: string-table index too large to encode"@,
            Fault::Amf3XmlTooLong => "AMF3: xml body too long to encode"@,
            Fault::Amf3BytesTooLong => "AMF3: byte-array too long to encode"@,
            Fault::Amf3DenseTooLong => "AMF3: array dense portion too long to encode"@,
            Fault::Amf3EmptyAssocKey => "AMF3: array assoc key must be non-empty"@,
            Fault::Amf3SealedMismatch => "AMF3: object sealed_names / sealed_values length mismatch"@,
            Fault::Amf3TooManySealed => "AMF3: object has too many sealed members to encode"@,
            Fault::Amf3EmptyDynamicKey => "AMF3: dynamic-member key must be non-empty"@,
            Fault::EmptyAudioTag => "FLV: empty audio tag"@,
            Fault::EmptyVideoTag => "FLV: empty video tag"@,
            Fault::NoStreams => "FLV: no audio or video tags discovered"@,
            Fault::StreamIndexRange => "FLV: stream index out of range"@,
        }
    }

    /// What is wrong, in words.
    pub fn message(self) -> (r: String)
        ensures
            r@ == self.text(),
    {
        let words = match self {
            Fault::Amf0TruncatedValue => "AMF0: truncated value",
            Fault::Amf0TruncatedU16 => "AMF0: truncated u16",
            Fault::Amf0TruncatedI16 => "AMF0: truncated i16",
            Fault::Amf0TruncatedU32 => "AMF0: truncated u32",
            Fault::Amf0TruncatedDouble => "AMF0: truncated number",
            Fault::Amf0TruncatedString => "AMF0: truncated string",
            Fault::Amf0StringNotUtf8 => "AMF0: non-UTF-8 string",
            Fault::Amf0TruncatedObject => "AMF0: truncated object body",
            Fault::Amf0UnknownMarker => "AMF0: unsupported type marker",
            Fault::Amf0StringTooLong => "AMF0: string length exceeds UI16 max (use a long string)",
            Fault::Amf0XmlTooLong => "AMF0: XML length exceeds UI32 max",
            Fault::Amf0ArrayTooLong => "AMF0: strict-array length exceeds UI32 max",
            Fault::HeaderSignature => "FLV: signature mismatch",
            Fault::HeaderVersion => "FLV: unsupported version",
            Fault::HeaderDataOffset => "FLV: DataOffset must be 9 for version 1",
            Fault::TagDataTooLong => "FLV tag: DataSize exceeds UI24 max",
            Fault::TagStreamIdTooLarge => "FLV tag: StreamID exceeds UI24 max",
            Fault::TagCompositionTimeRange => "AVC tag: CompositionTime outside SI24 range",
            Fault::FilterEmptyBody => "FLV encrypted tag: empty body",
            Fault::FilterCount => "FLV encrypted tag: NumFilters != 1",
            Fault::FilterNameUnterminated => "FLV encrypted tag: unterminated FilterName",
            Fault::FilterNameNotUtf8 => "FLV encrypted tag: non-UTF-8 FilterName",
            Fault::FilterTruncatedLength => "FLV encrypted tag: truncated Length",
            Fault::FilterTruncatedParams => "FLV encrypted tag: truncated FilterParams body",
            Fault::FilterShortIv => "FLV Encryption FilterParams: IV must be 16 bytes",
            Fault::FilterNoSelector => "FLV SE FilterParams: empty",
            Fault::FilterTruncatedIv => "FLV SE FilterParams: truncated IV (EncryptedAU=1 needs 1+16 bytes)",
            Fault::FilterUnknownName => "FLV encrypted tag: unknown FilterName",
            Fault::MetaDateNotFinite => "FLV onMetaData Date property: time_ms must be finite",
            Fault::KeyframesEmpty => "FLV onMetaData.keyframes: filepositions / times must be non-empty",
            Fault::KeyframesLengthMismatch => "FLV onMetaData.keyframes: filepositions / times length mismatch",
            Fault::KeyframesPositionTooLarge => "FLV onMetaData.keyframes: filepositions entry exceeds 2^53 (would round when serialised as AMF0 Number)",
            Fault::KeyframesTimeNotFinite => "FLV onMetaData.keyframes: times entries must be finite",
            Fault::KeyframesTimesNotAscending => "FLV onMetaData.keyframes: times must be sorted ascending",
            Fault::CuePointTimeNotFinite => "FLV onCuePoint: time_seconds must be finite",
            Fault::ColorBitDepth => "colorInfo: bitDepth outside expected [8, 16]",
            Fault::ColorNotFinite(field) => {
                return about_color(field, " is not finite");
            },
            Fault::ColorOutOfRange(field) => {
                return about_color(field, " outside spec range");
            },
            Fault::ConnectCommandName => "FLV connect: expected command name \"connect\"",
            Fault::ConnectNotAnObject => "FLV connect: Command Object must be an AMF0 Object",
            Fault::OnStatusCommandName => "FLV onStatus: expected command name \"onStatus\"",
            Fault::OnStatusNotAnObject => "FLV onStatus: Info Object must be an AMF0 Object",
            Fault::ExAudioTruncatedMultitrack => "FLV Ex audio tag: truncated multitrack header byte",
            Fault::ExAudioNestedMultitrack => "FLV Ex audio tag: nested Multitrack packet type",
            Fault::ExAudioTruncatedMultitrackFourCc => "FLV Ex audio tag: truncated multitrack FourCc",
            Fault::ExAudioTruncatedFourCc => "FLV Ex audio tag: truncated FourCc",
            Fault::ExAudioEntriesNotWritten => "ExAudioTagHeader::to_bytes: headers with ModEx entries are not written",
            Fault::ExAudioOffsetWithoutEntries => "ExAudioTagHeader::to_bytes: nonzero timestamp_offset_nano without mod_ex_entries",
            Fault::ExAudioMultitrackNotWritten => "ExAudioTagHeader::to_bytes: multitrack headers are not written",
            Fault::ExAudioWrapperPacketType => "ExAudioTagHeader::to_bytes: Multitrack and ModEx are not packet types of one track",
            Fault::ExAudioNoFourCc => "ExAudioTagHeader::to_bytes: single-track header needs a FourCc",
            Fault::ExVideoTruncatedMultitrack => "FLV Ex video tag: truncated multitrack header byte",
            Fault::ExVideoNestedMultitrack => "FLV Ex video tag: nested Multitrack packet type",
            Fault::ExVideoTruncatedMultitrackFourCc => "FLV Ex video tag: truncated multitrack FourCc",
            Fault::ExVideoTruncatedFourCc => "FLV Ex video tag: truncated FourCc",
            Fault::ExVideoTruncatedCompositionTime => "FLV Ex video tag: truncated CompositionTimeOffset",
            Fault::ExVideoTruncatedCommand => "FLV Ex video tag: truncated VideoCommand",
            Fault::ExVideoOffsetWithoutEntries => "ExVideoTagHeader::to_bytes: nonzero timestamp_offset_nano without mod_ex_entries",
            Fault::ExVideoWrapperPacketType => "ExVideoTagHeader::to_bytes: Multitrack and ModEx are not packet types of one track",
            Fault::ExVideoSharedFourCc => "ExVideoTagHeader::to_bytes: ManyTracksManyCodecs must not carry a shared FourCc",
            Fault::ExVideoNoSharedFourCc => "ExVideoTagHeader::to_bytes: multitrack OneTrack/ManyTracks needs a shared FourCc",
            Fault::ExVideoNoFourCc => "ExVideoTagHeader::to_bytes: single-track header needs a FourCc",
            Fault::ExVideoCompositionTimeInMultitrack => "ExVideoTagHeader::to_bytes: composition_time_offset_ms must be None in multitrack mode (per-track CTO lives in the payload)",
            Fault::ExVideoCompositionTimeRange => "ExVideoTagHeader::to_bytes: CompositionTimeOffset outside SI24 range",
            Fault::ExVideoNoCompositionTime => "ExVideoTagHeader::to_bytes: HEVC/VVC/AVC CodedFrames requires composition_time_offset_ms (use 0 for no reorder)",
            Fault::ExVideoCompositionTimeUndefined => "ExVideoTagHeader::to_bytes: composition_time_offset_ms is only defined for HEVC/VVC/AVC CodedFrames",
            Fault::ExVideoNoCommand => "ExVideoTagHeader::to_bytes: frame_type=Command with non-Metadata packet_type requires video_command",
            Fault::ExVideoCommandUndefined => "ExVideoTagHeader::to_bytes: video_command set without frame_type=Command (or with Metadata packet_type)",
            Fault::MultichannelTooShort => "FLV MultichannelConfig: body shorter than order + count bytes",
            Fault::MultichannelTruncatedMapping => "FLV MultichannelConfig: truncated Custom channel mapping",
            Fault::MultichannelTruncatedFlags => "FLV MultichannelConfig: truncated Native channel flags",
            Fault::MultichannelUnspecifiedExtra => "FLV MultichannelConfig: Unspecified order carries no mapping or channel flags",
            Fault::MultichannelCustomFlags => "FLV MultichannelConfig: Custom order carries a mapping, not channel flags",
            Fault::MultichannelNoMapping => "FLV MultichannelConfig: Custom order needs a channel mapping",
            Fault::MultichannelMappingLength => "FLV MultichannelConfig: mapping length differs from channelCount",
            Fault::MultichannelNativeMapping => "FLV MultichannelConfig: Native order carries channel flags, not a mapping",
            Fault::MultichannelNoFlags => "FLV MultichannelConfig: Native order needs channel flags",
            Fault::MultichannelFlagsRange => "FLV MultichannelConfig: channel flags set bits outside the AudioChannelMask range",
            Fault::MultichannelFlagsCount => "FLV MultichannelConfig: channel flags mark a number of channels other than channelCount",
            Fault::MultichannelReservedOrder => "FLV MultichannelConfig: reserved AudioChannelOrder has no wire layout",
            Fault::MultitrackReservedType => "FLV multitrack: reserved AvMultitrackType has no defined per-track layout",
            Fault::MultitrackTruncatedFourCc => "FLV multitrack: truncated per-track FourCc",
            Fault::MultitrackTruncatedTrackId => "FLV multitrack: truncated trackId",
            Fault::MultitrackTruncatedSize => "FLV multitrack: truncated sizeOfTrack",
            Fault::MultitrackOverrun => "FLV multitrack: sizeOfTrack runs past end of body",
            Fault::MultitrackNotOneTrack => "FLV multitrack: OneTrack body must carry exactly one track",
            Fault::MultitrackNoTracks => "FLV multitrack: ManyTracks/ManyTracksManyCodecs body needs at least one track",
            Fault::MultitrackPayloadTooLong => "FLV multitrack: track payload exceeds UI24 sizeOfTrack capacity",
            Fault::ModExTruncatedSize => "FLV ModEx: truncated size prefix",
            Fault::ModExTruncatedLongSize => "FLV ModEx: truncated UI16 size escape",
            Fault::ModExTruncatedData => "FLV ModEx: truncated modExData",
            Fault::ModExTruncatedTrailer => "FLV ModEx: truncated trailer byte",
            Fault::ModExShortTimestampOffset => "FLV ModEx: TimestampOffsetNano needs >= 3 bytes",
            Fault::ModExNoEntries => "FLV ModEx: emit called with no entries (use the lead byte directly)",
            Fault::ModExPacketTypeTooWide => "FLV ModEx: final_packet_type must fit in UB[4]",
            Fault::ModExEndsInModEx => "FLV ModEx: final_packet_type cannot itself be the ModEx sentinel",
            Fault::ModExSubtypeTooWide => "FLV ModEx: subtype_raw must fit in UB[4]",
            Fault::ModExOffsetTooLarge => "FLV ModEx: TimestampOffsetNano offset_ns exceeds 999_999 ns",
            Fault::ModExOffsetMismatch => "FLV ModEx: TimestampOffsetNano raw[0..3] does not match offset_ns",
            Fault::ModExOffsetSubtype => "FLV ModEx: TimestampOffsetNano payload requires subtype_raw == 0",
            Fault::ModExOffsetUntyped => "FLV ModEx: subtype_raw == 0 requires a TimestampOffsetNano payload",
            Fault::ModExBadSize => "FLV ModEx: modExData size must be in 1..=65_536",
            Fault::Amf3TruncatedValue => "AMF3: truncated value",
            Fault::Amf3TruncatedDouble => "AMF3: truncated number",
            Fault::Amf3TruncatedText => "AMF3: truncated UTF-8 body",
            Fault::Amf3TextNotUtf8 => "AMF3: invalid UTF-8 in string body",
            Fault::Amf3UnknownMarker => "AMF3: unsupported type marker",
            Fault::Amf3StringRefOutOfRange => "AMF3: string-ref out of range",
            Fault::Amf3ObjectRefOutOfRange => "AMF3: object-ref out of range",
            Fault::Amf3ObjectRefWrongType => "AMF3: object-ref points at value of incompatible type",
            Fault::Amf3DateRefOutOfRange => "AMF3: date-ref out of range",
            Fault::Amf3DateRefWrongType => "AMF3: date-ref points at value of incompatible type",
            Fault::Amf3ArrayRefOutOfRange => "AMF3: array-ref out of range",
            Fault::Amf3ArrayRefWrongType => "AMF3: array-ref points at value of incompatible type",
            Fault::Amf3BytesRefOutOfRange => "AMF3: byte-array-ref out of range",
            Fault::Amf3BytesRefWrongType => "AMF3: byte-array-ref points at value of incompatible type",
            Fault::Amf3TruncatedBytes => "AMF3: truncated byte-array body",
            Fault::Amf3TraitsRefOutOfRange => "AMF3: traits-ref out of range",
            Fault::Amf3ExternalizableWithSealed => "AMF3: traits-ext header has non-zero sealed count",
            Fault::Amf3IntegerTooWide => "AMF3: integer out of signed 29-bit range, encode as Double",
            Fault::Amf3StringTooLong => "AMF3: string too long to encode",
            Fault::Amf3StringIndexTooLarge => "AMF3: string-table index too large to encode",
            Fault::Amf3XmlTooLong => "AMF3: xml body too long to encode",
            Fault::Amf3BytesTooLong => "AMF3: byte-array too long to encode",
            Fault::Amf3DenseTooLong => "AMF3: array dense portion too long to encode",
            Fault::Amf3EmptyAssocKey => "AMF3: array assoc key must be non-empty",
            Fault::Amf3SealedMismatch => "AMF3: object sealed_names / sealed_values length mismatch",
            Fault::Amf3TooManySealed => "AMF3: object has too many sealed members to encode",
            Fault::Amf3EmptyDynamicKey => "AMF3: dynamic-member key must be non-empty",
            Fault::EmptyAudioTag => "FLV: empty audio tag",
            Fault::EmptyVideoTag => "FLV: empty video tag",
            Fault::NoStreams => "FLV: no audio or video tags discovered",
            Fault::StreamIndexRange => "FLV: stream index out of range",
        };
        words.to_string()
    }
}

fn about_color(field: ColorField, tail: &str) -> (r: String)
    ensures
        r@ == "colorInfo: "@ + field.text() + tail@,
{
    let mut words = "colorInfo: ".to_string();
    words.append(field.name());
    words.append(tail);
    words
}

/// Why an operation did not yield a value.
#[derive(Clone, Copy, Debug, PartialEq, Eq, Structural)]
pub enum Error {
    /// The input, or the value to be written, is not well formed.
    InvalidData(Fault),
    /// The input had already ended.
    Eof,
    /// The input ended inside a fixed-size record.
    UnexpectedEof,
}

impl Error {
    /// What happened, in words.
    pub open spec fn text(self) -> Seq<char> {
        match self {
            Error::InvalidData(f) => "invalid data: "@ + f.text(),
            Error::Eof => "end of stream"@,
            Error::UnexpectedEof => "unexpected end of stream"@,
        }
    }

    /// What happened, in words.
    pub fn message(self) -> (r: String)
        ensures
            r@ == self.text(),
    {
        match self {
            Error::InvalidData(f) => {
                let mut words = "invalid data: ".to_string();
                words.append(f.message().as_str());
                words
            },
            Error::Eof => "end of stream".to_string(),
            Error::UnexpectedEof => "unexpected end of stream".to_string(),
        }
    }
}

} // verus!
