//! What streams are described as, told by the bytes of their first tags and the entries of the
//! metadata before them.
use vstd::prelude::*;
use crate::demuxer::entries::Leaf;
use crate::demuxer::packet::{audio_part, video_part};
use crate::demuxer::stream::{finite_only, lookup_bool, lookup_f64, lookup_u32, number_at, picture,
    sound, whole};
use crate::double::{of_int, Double};
use crate::error::Fault;
use crate::mod_ex::{chain, ModEx};
use crate::text::decimal;
use crate::wire::u32_at;

verus! {

// ---- entries by key ---------------------------------------------------------

/// The number in the entry at `i`: its own, or what its text was read as.
pub open spec fn number_in(
    s: Seq<(Seq<char>, Leaf)>,
    readings: Seq<Option<Double>>,
    i: int,
) -> Option<Double> {
    if s[i].1 is Number {
        Some(s[i].1->Number_0)
    } else if s[i].1 is Text && i < readings.len() {
        readings[i]
    } else {
        None
    }
}

/// A finite number stands under `key` at `i`.
pub open spec fn finite_under(
    s: Seq<(Seq<char>, Leaf)>,
    readings: Seq<Option<Double>>,
    key: Seq<char>,
    i: int,
) -> bool {
    0 <= i < s.len() && s[i].0 == key && (number_in(s, readings, i) matches Some(d) && d.finite())
}

/// A number whose integer part is one of 32 bits stands under `key` at `i`.
pub open spec fn whole_under(
    s: Seq<(Seq<char>, Leaf)>,
    readings: Seq<Option<Double>>,
    key: Seq<char>,
    i: int,
) -> bool {
    0 <= i < s.len() && s[i].0 == key && (number_in(s, readings, i) matches Some(d) && d.within(
        of_int(0xFFFF_FFFF),
    ))
}

/// The first finite number under `key` is at `i`.
pub open spec fn first_finite(
    s: Seq<(Seq<char>, Leaf)>,
    readings: Seq<Option<Double>>,
    key: Seq<char>,
    i: int,
) -> bool {
    finite_under(s, readings, key, i) && forall|j: int|
        0 <= j < i ==> !#[trigger] finite_under(s, readings, key, j)
}

/// The first whole number under `key` is at `i`.
pub open spec fn first_whole(
    s: Seq<(Seq<char>, Leaf)>,
    readings: Seq<Option<Double>>,
    key: Seq<char>,
    i: int,
) -> bool {
    whole_under(s, readings, key, i) && forall|j: int|
        0 <= j < i ==> !#[trigger] whole_under(s, readings, key, j)
}

/// The first entry under `key` is at `i`.
pub open spec fn first_under(s: Seq<(Seq<char>, Leaf)>, key: Seq<char>, i: int) -> bool {
    0 <= i < s.len() && s[i].0 == key && forall|j: int| 0 <= j < i ==> (#[trigger] s[j]).0 != key
}

proof fn lemma_finite_from(
    s: Seq<(Seq<char>, Leaf)>,
    readings: Seq<Option<Double>>,
    key: Seq<char>,
    from: int,
    i: int,
)
    requires
        0 <= from,
    ensures
        from <= i && finite_under(s, readings, key, i) && (forall|j: int|
            from <= j < i ==> !#[trigger] finite_under(s, readings, key, j)) ==> lookup_f64(
            s,
            readings,
            key,
            from,
        ) == number_in(s, readings, i),
        (forall|j: int| from <= j < s.len() ==> !#[trigger] finite_under(s, readings, key, j))
            ==> lookup_f64(s, readings, key, from) is None,
    decreases s.len() - from,
{
    if from < s.len() {
        lemma_finite_from(s, readings, key, from + 1, i);
        assert(number_in(s, readings, from) == number_at(s, readings, from));
        assert(finite_under(s, readings, key, from) == (s[from].0 == key && finite_only(
            number_at(s, readings, from),
        ) is Some));
    }
}

proof fn lemma_whole_from(
    s: Seq<(Seq<char>, Leaf)>,
    readings: Seq<Option<Double>>,
    key: Seq<char>,
    from: int,
    i: int,
)
    requires
        0 <= from,
    ensures
        from <= i && whole_under(s, readings, key, i) && (forall|j: int|
            from <= j < i ==> !#[trigger] whole_under(s, readings, key, j)) ==> lookup_u32(
            s,
            readings,
            key,
            from,
        ) == Some(number_in(s, readings, i)->0.trunc() as u32),
        (forall|j: int| from <= j < s.len() ==> !#[trigger] whole_under(s, readings, key, j))
            ==> lookup_u32(s, readings, key, from) is None,
    decreases s.len() - from,
{
    if from < s.len() {
        lemma_whole_from(s, readings, key, from + 1, i);
        assert(number_in(s, readings, from) == number_at(s, readings, from));
        assert(whole_under(s, readings, key, from) == (s[from].0 == key && whole(
            number_at(s, readings, from),
        ) is Some));
    }
}

proof fn lemma_truth_from(s: Seq<(Seq<char>, Leaf)>, key: Seq<char>, from: int, i: int)
    requires
        0 <= from,
    ensures
        from <= i < s.len() && s[i].0 == key && (forall|j: int|
            from <= j < i ==> (#[trigger] s[j]).0 != key) ==> lookup_bool(s, key, from) == (
        if s[i].1 == Leaf::Text("true"@) {
            Some(true)
        } else if s[i].1 == Leaf::Text("false"@) {
            Some(false)
        } else {
            None
        }),
        (forall|j: int| from <= j < s.len() ==> (#[trigger] s[j]).0 != key) ==> lookup_bool(
            s,
            key,
            from,
        ) is None,
    decreases s.len() - from,
{
    reveal_strlit("true");
    reveal_strlit("false");
    assert("true"@.len() != "false"@.len());
    if from < s.len() {
        lemma_truth_from(s, key, from + 1, i);
        assert(s[from].0 == key || s[from].0 != key);
    }
}

/// A number is looked up by its key: the first entry under it that is finite, or whole, gives it, and
/// entries under other keys do not count.
pub proof fn law_numbers_are_looked_up(
    s: Seq<(Seq<char>, Leaf)>,
    readings: Seq<Option<Double>>,
    key: Seq<char>,
)
    ensures
        forall|i: int| #[trigger]
            first_finite(s, readings, key, i) ==> lookup_f64(s, readings, key, 0) == number_in(
                s,
                readings,
                i,
            ),
        forall|i: int| #[trigger]
            first_whole(s, readings, key, i) ==> lookup_u32(s, readings, key, 0) == Some(
                number_in(s, readings, i)->0.trunc() as u32,
            ),
        (forall|j: int| !#[trigger] finite_under(s, readings, key, j)) ==> lookup_f64(
            s,
            readings,
            key,
            0,
        ) is None,
        (forall|j: int| !#[trigger] whole_under(s, readings, key, j)) ==> lookup_u32(
            s,
            readings,
            key,
            0,
        ) is None,
        forall|i: int| #[trigger]
            first_under(s, key, i) ==> lookup_bool(s, key, 0) == (if s[i].1 == Leaf::Text(
                "true"@,
            ) {
                Some(true)
            } else if s[i].1 == Leaf::Text("false"@) {
                Some(false)
            } else {
                None
            }),
        (forall|j: int| 0 <= j < s.len() ==> (#[trigger] s[j]).0 != key) ==> lookup_bool(s, key, 0)
            is None,
{
    assert forall|i: int| #[trigger] first_finite(s, readings, key, i) implies lookup_f64(
        s,
        readings,
        key,
        0,
    ) == number_in(s, readings, i) by {
        lemma_finite_from(s, readings, key, 0, i);
    }
    assert forall|i: int| #[trigger] first_whole(s, readings, key, i) implies lookup_u32(
        s,
        readings,
        key,
        0,
    ) == Some(number_in(s, readings, i)->0.trunc() as u32) by {
        lemma_whole_from(s, readings, key, 0, i);
    }
    assert forall|i: int| #[trigger] first_under(s, key, i) implies lookup_bool(s, key, 0) == (
    if s[i].1 == Leaf::Text("true"@) {
        Some(true)
    } else if s[i].1 == Leaf::Text("false"@) {
        Some(false)
    } else {
        None
    }) by {
        lemma_truth_from(s, key, 0, i);
    }
    lemma_finite_from(s, readings, key, 0, 0);
    lemma_whole_from(s, readings, key, 0, 0);
    lemma_truth_from(s, key, 0, 0);
}

// ---- audio ------------------------------------------------------------------

/// The data rate of a stream of audio is what stands under `audiodatarate`: the first finite number
/// there, where it is not negative, whatever stands under other keys.
pub proof fn law_audio_data_rate(
    body: Seq<u8>,
    s: Seq<(Seq<char>, Leaf)>,
    readings: Seq<Option<Double>>,
    channels: Option<u8>,
)
    ensures
        sound(body, s, readings, channels) matches Ok(d) ==> {
            &&& forall|i: int| #[trigger]
                first_finite(s, readings, "audiodatarate"@, i) ==> d.data_rate_kbps == (
                if number_in(s, readings, i)->0.rank() >= 0 {
                    number_in(s, readings, i)
                } else {
                    None
                })
            &&& (forall|i: int| !#[trigger] finite_under(s, readings, "audiodatarate"@, i))
                ==> d.data_rate_kbps is None
        },
{
    law_numbers_are_looked_up(s, readings, "audiodatarate"@);
}

/// The sample rate of a stream of audio is what stands under `audiosamplerate`, where that is a whole
/// number above zero. Else it is what the tag says: codecs 5 and 14 have 8000 samples in a second,
/// codec 4 has 16000, codec 10 is given as 44100, and others have 5512, 11025, 22050 or 44100 by two
/// bits; a codec that is a FourCC says nothing.
pub proof fn law_audio_sample_rate(
    body: Seq<u8>,
    s: Seq<(Seq<char>, Leaf)>,
    readings: Seq<Option<Double>>,
    channels: Option<u8>,
)
    ensures
        sound(body, s, readings, channels) matches Ok(d) ==> {
            let codec = body[0] as int / 16;
            let bits = body[0] as int / 4 % 4;
            let own: Option<u32> = if codec == 9 {
                None
            } else if codec == 5 || codec == 14 {
                Some(8000)
            } else if codec == 4 {
                Some(16000)
            } else if codec == 10 || bits == 3 {
                Some(44100)
            } else if bits == 2 {
                Some(22050)
            } else if bits == 1 {
                Some(11025)
            } else {
                Some(5512)
            };
            &&& forall|i: int| #[trigger]
                first_whole(s, readings, "audiosamplerate"@, i) ==> d.sample_rate == ({
                    let n = number_in(s, readings, i)->0.trunc() as u32;
                    if n > 0 {
                        Some(n)
                    } else {
                        own
                    }
                })
            &&& (forall|i: int| !#[trigger] whole_under(s, readings, "audiosamplerate"@, i))
                ==> d.sample_rate == own
        },
{
    law_numbers_are_looked_up(s, readings, "audiosamplerate"@);
}

/// The number of channels of a stream of audio is that of a configuration of speakers; else two or one
/// by the first entry under `stereo`, where it is a truth value; else what the lowest bit of the tag
/// says, and nothing where the codec is a FourCC.
pub proof fn law_audio_channels(
    body: Seq<u8>,
    s: Seq<(Seq<char>, Leaf)>,
    readings: Seq<Option<Double>>,
    channels: Option<u8>,
)
    ensures
        sound(body, s, readings, channels) matches Ok(d) ==> {
            let own: Option<u16> = if body[0] as int / 16 == 9 {
                None
            } else if body[0] as int % 2 == 1 {
                Some(2)
            } else {
                Some(1)
            };
            &&& channels matches Some(n) ==> d.channels == Some(n as u16)
            &&& channels is None ==> forall|i: int| #[trigger]
                first_under(s, "stereo"@, i) ==> d.channels == (if s[i].1 == Leaf::Text("true"@) {
                    Some(2u16)
                } else if s[i].1 == Leaf::Text("false"@) {
                    Some(1u16)
                } else {
                    own
                })
            &&& channels is None && (forall|j: int|
                0 <= j < s.len() ==> (#[trigger] s[j]).0 != "stereo"@) ==> d.channels == own
        },
{
    law_numbers_are_looked_up(s, readings, "stereo"@);
}

/// The size of a sample is what stands under `audiosamplesize`, where that is 8 or 16 and the codec is
/// not 0 or 3, whose samples are as the tag says. Else it is 16 or 8 by the second bit of the tag, and
/// nothing where the codec is a FourCC.
pub proof fn law_audio_sample_size(
    body: Seq<u8>,
    s: Seq<(Seq<char>, Leaf)>,
    readings: Seq<Option<Double>>,
    channels: Option<u8>,
)
    ensures
        sound(body, s, readings, channels) matches Ok(d) ==> {
            let codec = body[0] as int / 16;
            let own: Option<u8> = if codec == 9 {
                None
            } else if body[0] as int / 2 % 2 == 1 {
                Some(16)
            } else {
                Some(8)
            };
            &&& forall|i: int| #[trigger]
                first_whole(s, readings, "audiosamplesize"@, i) ==> d.sample_bits == ({
                    let n = number_in(s, readings, i)->0.trunc() as u32;
                    if (n == 8 || n == 16) && codec != 0 && codec != 3 {
                        Some(n as u8)
                    } else {
                        own
                    }
                })
            &&& (forall|i: int| !#[trigger] whole_under(s, readings, "audiosamplesize"@, i))
                || codec == 0 || codec == 3 ==> d.sample_bits == own
        },
{
    law_numbers_are_looked_up(s, readings, "audiosamplesize"@);
}

/// The codec of a stream of audio, and what sets its decoder up: the payload of a configuration of AAC,
/// codec 10, or of a tag with a FourCC that carries 0; else nothing.
pub proof fn law_audio_codec(
    body: Seq<u8>,
    s: Seq<(Seq<char>, Leaf)>,
    readings: Seq<Option<Double>>,
    channels: Option<u8>,
)
    requires
        body.len() > 0,
    ensures
        body[0] / 16 != 9 ==> (sound(body, s, readings, channels) matches Ok(d) && d.codec
            == crate::tag::audio_codec_name(body[0] / 16) && d.extradata == (if body[0] / 16 == 10
            && body.len() >= 2 && body[1] == 0 {
            body.skip(2)
        } else {
            Seq::empty()
        })),
        body[0] / 16 == 9 && body.len() >= 5 && body[0] % 16 != 5 && body[0] % 16 != 7 ==> (sound(
            body,
            s,
            readings,
            channels,
        ) matches Ok(d) && d.codec == crate::ex_audio::codec_name(u32_at(body, 1)) && d.extradata == (
        if body[0] % 16 == 0 {
            body.skip(5)
        } else {
            Seq::empty()
        })),
        crate::ex_audio::header(body) matches Ok(Some(h)) ==> (sound(body, s, readings, channels)
            matches Ok(d) && d.codec == (match h.fourcc {
            Some(f) => crate::ex_audio::codec_name(f),
            None => "flv:exaudio:multicodec"@,
        }) && d.extradata == (if audio_part(h, body).0 is SequenceStart {
            audio_part(h, body).1
        } else {
            Seq::empty()
        })),
        crate::ex_audio::header(body) matches Err(f) ==> sound(body, s, readings, channels) == Err::<
            crate::demuxer::stream::Sound,
            Fault,
        >(f),
{
    if body[0] / 16 == 9 && body.len() >= 5 && body[0] % 16 != 5 && body[0] % 16 != 7 {
        assert(chain(7, body, 1, body[0] % 16) == Ok::<(int, u8, Seq<ModEx>), Fault>(
            (1, body[0] % 16, Seq::empty()),
        ));
    }
}

// ---- video ------------------------------------------------------------------

/// The size of the picture is what stands under `width` and `height`, and nothing else is.
pub proof fn law_video_size(
    body: Seq<u8>,
    s: Seq<(Seq<char>, Leaf)>,
    readings: Seq<Option<Double>>,
)
    ensures
        picture(body, s, readings) matches Ok(d) ==> {
            &&& forall|i: int| #[trigger]
                first_whole(s, readings, "width"@, i) ==> d.width == Some(
                    number_in(s, readings, i)->0.trunc() as u32,
                )
            &&& (forall|i: int| !#[trigger] whole_under(s, readings, "width"@, i))
                ==> d.width is None
            &&& forall|i: int| #[trigger]
                first_whole(s, readings, "height"@, i) ==> d.height == Some(
                    number_in(s, readings, i)->0.trunc() as u32,
                )
            &&& (forall|i: int| !#[trigger] whole_under(s, readings, "height"@, i))
                ==> d.height is None
        },
{
    law_numbers_are_looked_up(s, readings, "width"@);
    law_numbers_are_looked_up(s, readings, "height"@);
}

/// The data rate of a stream of video is what stands under `videodatarate`: the first finite number
/// there, where it is not negative.
pub proof fn law_video_data_rate(
    body: Seq<u8>,
    s: Seq<(Seq<char>, Leaf)>,
    readings: Seq<Option<Double>>,
)
    ensures
        picture(body, s, readings) matches Ok(d) ==> {
            &&& forall|i: int| #[trigger]
                first_finite(s, readings, "videodatarate"@, i) ==> d.data_rate_kbps == (
                if number_in(s, readings, i)->0.rank() >= 0 {
                    number_in(s, readings, i)
                } else {
                    None
                })
            &&& (forall|i: int| !#[trigger] finite_under(s, readings, "videodatarate"@, i))
                ==> d.data_rate_kbps is None
        },
{
    law_numbers_are_looked_up(s, readings, "videodatarate"@);
}

/// The number of frames in a second is what stands under `videoframerate`, or where nothing finite does
/// under `framerate`, and it is above zero.
pub proof fn law_video_frame_rate(
    body: Seq<u8>,
    s: Seq<(Seq<char>, Leaf)>,
    readings: Seq<Option<Double>>,
)
    ensures
        picture(body, s, readings) matches Ok(d) ==> {
            &&& forall|i: int| #[trigger]
                first_finite(s, readings, "videoframerate"@, i) ==> d.frame_rate == (
                if number_in(s, readings, i)->0.rank() > 0 {
                    number_in(s, readings, i)
                } else {
                    None
                })
            &&& (forall|i: int| !#[trigger] finite_under(s, readings, "videoframerate"@, i)) ==> {
                &&& forall|i: int| #[trigger]
                    first_finite(s, readings, "framerate"@, i) ==> d.frame_rate == (
                    if number_in(s, readings, i)->0.rank() > 0 {
                        number_in(s, readings, i)
                    } else {
                        None
                    })
                &&& (forall|i: int| !#[trigger] finite_under(s, readings, "framerate"@, i))
                    ==> d.frame_rate is None
            }
        },
{
    law_numbers_are_looked_up(s, readings, "videoframerate"@);
    law_numbers_are_looked_up(s, readings, "framerate"@);
}

/// The codec of a stream of video, and what sets its decoder up: the payload of a configuration of
/// H.264, codec 7, or of a tag with a FourCC that carries 0; of codec 5, its second byte; else nothing.
pub proof fn law_video_codec(
    body: Seq<u8>,
    s: Seq<(Seq<char>, Leaf)>,
    readings: Seq<Option<Double>>,
)
    requires
        body.len() > 0,
    ensures
        body[0] < 128 ==> (picture(body, s, readings) matches Ok(d) && d.codec
            == crate::tag::video_codec_name(body[0] % 16) && d.extradata == (if body[0] % 16 == 7
            && body.len() >= 5 && body[1] == 0 {
            body.skip(5)
        } else if body[0] % 16 == 5 && body.len() >= 2 {
            seq![body[1]]
        } else {
            Seq::empty()
        })),
        body[0] >= 128 && body.len() >= 5 && body[0] % 16 == 0 && body[0] / 16 != 13 ==> (picture(
            body,
            s,
            readings,
        ) matches Ok(d) && d.codec == crate::ex_video::codec_name(u32_at(body, 1)) && d.extradata
            == body.skip(5)),
        crate::ex_video::header(body) matches Ok(Some(h)) ==> (picture(body, s, readings) matches Ok(
            d,
        ) && d.codec == (match h.fourcc {
            Some(f) => crate::ex_video::codec_name(f),
            None => "flv:exvideo:multicodec"@,
        }) && d.extradata == (if video_part(h, body).0 is SequenceStart {
            video_part(h, body).2
        } else {
            Seq::empty()
        })),
        crate::ex_video::header(body) matches Err(f) ==> picture(body, s, readings) == Err::<
            crate::demuxer::stream::Picture,
            Fault,
        >(f),
{
    if body[0] >= 128 && body.len() >= 5 && body[0] % 16 == 0 && body[0] / 16 != 13 {
        assert(chain(7, body, 1, 0) == Ok::<(int, u8, Seq<ModEx>), Fault>((1, 0, Seq::empty())));
    }
}

// ---- names of codecs --------------------------------------------------------

/// The names of audio codecs by their numbers.
pub proof fn law_audio_codec_names(id: u8)
    ensures
        crate::tag::audio_codec_name(0) == "pcm_s16le"@,
        crate::tag::audio_codec_name(1) == "adpcm_swf"@,
        crate::tag::audio_codec_name(2) == "mp3"@,
        crate::tag::audio_codec_name(3) == "pcm_s16le"@,
        crate::tag::audio_codec_name(4) == "nellymoser"@,
        crate::tag::audio_codec_name(5) == "nellymoser"@,
        crate::tag::audio_codec_name(6) == "nellymoser"@,
        crate::tag::audio_codec_name(7) == "pcm_alaw"@,
        crate::tag::audio_codec_name(8) == "pcm_mulaw"@,
        crate::tag::audio_codec_name(10) == "aac"@,
        crate::tag::audio_codec_name(11) == "speex"@,
        crate::tag::audio_codec_name(14) == "mp3"@,
        crate::tag::audio_codec_name(15) == "flv:audio:device"@,
        id == 9 || id == 12 || id == 13 || id > 15 ==> crate::tag::audio_codec_name(id)
            == "flv:audio:"@ + decimal(id as nat),
{
}

/// The names of video codecs by their numbers.
pub proof fn law_video_codec_names(id: u8)
    ensures
        crate::tag::video_codec_name(1) == "mjpeg"@,
        crate::tag::video_codec_name(2) == "flv1"@,
        crate::tag::video_codec_name(3) == "flashsv"@,
        crate::tag::video_codec_name(4) == "vp6f"@,
        crate::tag::video_codec_name(5) == "vp6a"@,
        crate::tag::video_codec_name(6) == "flashsv2"@,
        crate::tag::video_codec_name(7) == "h264"@,
        id == 0 || id > 7 ==> crate::tag::video_codec_name(id) == "flv:video:"@ + decimal(id as nat),
{
}

/// The names of codecs by their FourCCs: `ac-3`, `ec-3`, `Opus`, `.mp3`, `fLaC`, `mp4a` of audio, and
/// `av01`, `vp09`, `vp08`, `hvc1`, `avc1`, `vvc1` of video.
pub proof fn law_fourcc_names(fourcc: u32)
    ensures
        crate::ex_audio::codec_name(0x61632d33) == "ac3"@,
        crate::ex_audio::codec_name(0x65632d33) == "eac3"@,
        crate::ex_audio::codec_name(0x4f707573) == "opus"@,
        crate::ex_audio::codec_name(0x2e6d7033) == "mp3"@,
        crate::ex_audio::codec_name(0x664c6143) == "flac"@,
        crate::ex_audio::codec_name(0x6d703461) == "aac"@,
        fourcc != 0x61632d33 && fourcc != 0x65632d33 && fourcc != 0x4f707573 && fourcc != 0x2e6d7033
            && fourcc != 0x664c6143 && fourcc != 0x6d703461 ==> crate::ex_audio::codec_name(fourcc)
            == "flv:exaudio:"@ + crate::fourcc::spelled(fourcc),
        crate::ex_video::codec_name(0x61763031) == "av1"@,
        crate::ex_video::codec_name(0x76703039) == "vp9"@,
        crate::ex_video::codec_name(0x76703038) == "vp8"@,
        crate::ex_video::codec_name(0x68766331) == "h265"@,
        crate::ex_video::codec_name(0x61766331) == "h264"@,
        crate::ex_video::codec_name(0x76766331) == "h266"@,
        fourcc != 0x61763031 && fourcc != 0x76703039 && fourcc != 0x76703038 && fourcc != 0x68766331
            && fourcc != 0x61766331 && fourcc != 0x76766331 ==> crate::ex_video::codec_name(fourcc)
            == "flv:exvideo:"@ + crate::fourcc::spelled(fourcc),
{
}

} // verus!
