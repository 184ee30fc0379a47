//! How the channels of an audio track relate to speakers.
//!
//! A configuration names an order and a number of channels. The native order adds a mask of
//! the speakers that are present, a custom order one speaker for each channel.
use vstd::prelude::*;
use vstd::string::*;
use crate::error::{Error, Fault};
use crate::text::{decimal, push_decimal, texts_view};
use crate::wire::{at, be32, lemma_at_index, lemma_at_split, lemma_be32_at, lemma_u32_at, push_u32,
    read_u32, u32_at, wrote, Emit};

verus! {

/// How the channels relate to speakers.
#[derive(Clone, Copy, Debug, PartialEq, Eq, Structural)]
pub enum AudioChannelOrder {
    /// Only the number of channels is known.
    Unspecified,
    /// The channels stand in the order of the speakers; a mask says which are present.
    Native,
    /// Each channel names its speaker.
    Custom,
    /// Any other code.
    Reserved(u8),
}

impl AudioChannelOrder {
    /// The order with the code `v`.
    pub open spec fn of(v: u8) -> Self {
        if v == 0 {
            AudioChannelOrder::Unspecified
        } else if v == 1 {
            AudioChannelOrder::Native
        } else if v == 2 {
            AudioChannelOrder::Custom
        } else {
            AudioChannelOrder::Reserved(v)
        }
    }

    /// The byte that stands for the order.
    pub open spec fn code(self) -> u8 {
        match self {
            AudioChannelOrder::Unspecified => 0,
            AudioChannelOrder::Native => 1,
            AudioChannelOrder::Custom => 2,
            AudioChannelOrder::Reserved(n) => n,
        }
    }

    /// The name of the order.
    pub open spec fn name(self) -> Seq<char> {
        match self {
            AudioChannelOrder::Unspecified => "unspecified"@,
            AudioChannelOrder::Native => "native"@,
            AudioChannelOrder::Custom => "custom"@,
            AudioChannelOrder::Reserved(n) => "reserved:"@ + decimal(n as nat),
        }
    }

    /// The order with the code `v`.
    pub fn from_u8(v: u8) -> (r: Self)
        ensures
            r == Self::of(v),
            r.code() == v,
    {
        match v {
            0 => AudioChannelOrder::Unspecified,
            1 => AudioChannelOrder::Native,
            2 => AudioChannelOrder::Custom,
            other => AudioChannelOrder::Reserved(other),
        }
    }

    /// The byte that stands for the order.
    pub fn to_u8(self) -> (r: u8)
        ensures
            r == self.code(),
    {
        match self {
            AudioChannelOrder::Unspecified => 0,
            AudioChannelOrder::Native => 1,
            AudioChannelOrder::Custom => 2,
            AudioChannelOrder::Reserved(n) => n,
        }
    }

    /// The name of the order, in lower case.
    pub fn label(self) -> (r: String)
        ensures
            r@ == self.name(),
    {
        match self {
            AudioChannelOrder::Unspecified => "unspecified".to_string(),
            AudioChannelOrder::Native => "native".to_string(),
            AudioChannelOrder::Custom => "custom".to_string(),
            AudioChannelOrder::Reserved(n) => reserved_label(n),
        }
    }
}

fn reserved_label(n: u8) -> (r: String)
    ensures
        r@ == "reserved:"@ + decimal(n as nat),
{
    let mut s = "reserved:".to_string();
    push_decimal(&mut s, n as u64);
    s
}

/// A speaker.
#[derive(Clone, Copy, Debug, PartialEq, Eq, Structural)]
pub enum AudioChannel {
    FrontLeft,
    FrontRight,
    FrontCenter,
    LowFrequency1,
    BackLeft,
    BackRight,
    FrontLeftCenter,
    FrontRightCenter,
    BackCenter,
    SideLeft,
    SideRight,
    TopCenter,
    TopFrontLeft,
    TopFrontCenter,
    TopFrontRight,
    TopBackLeft,
    TopBackCenter,
    TopBackRight,
    LowFrequency2,
    TopSideLeft,
    TopSideRight,
    BottomFrontCenter,
    BottomFrontLeft,
    BottomFrontRight,
    /// Any other code.
    Reserved(u8),
    /// The channel is empty and can be skipped.
    Unused,
    /// The channel has data, but its speaker is not known.
    Unknown,
}

impl AudioChannel {
    /// The speaker with the code `v`.
    pub open spec fn of(v: u8) -> Self {
        if v == 0 {
            AudioChannel::FrontLeft
        } else if v == 1 {
            AudioChannel::FrontRight
        } else if v == 2 {
            AudioChannel::FrontCenter
        } else if v == 3 {
            AudioChannel::LowFrequency1
        } else if v == 4 {
            AudioChannel::BackLeft
        } else if v == 5 {
            AudioChannel::BackRight
        } else if v == 6 {
            AudioChannel::FrontLeftCenter
        } else if v == 7 {
            AudioChannel::FrontRightCenter
        } else if v == 8 {
            AudioChannel::BackCenter
        } else if v == 9 {
            AudioChannel::SideLeft
        } else if v == 10 {
            AudioChannel::SideRight
        } else if v == 11 {
            AudioChannel::TopCenter
        } else if v == 12 {
            AudioChannel::TopFrontLeft
        } else if v == 13 {
            AudioChannel::TopFrontCenter
        } else if v == 14 {
            AudioChannel::TopFrontRight
        } else if v == 15 {
            AudioChannel::TopBackLeft
        } else if v == 16 {
            AudioChannel::TopBackCenter
        } else if v == 17 {
            AudioChannel::TopBackRight
        } else if v == 18 {
            AudioChannel::LowFrequency2
        } else if v == 19 {
            AudioChannel::TopSideLeft
        } else if v == 20 {
            AudioChannel::TopSideRight
        } else if v == 21 {
            AudioChannel::BottomFrontCenter
        } else if v == 22 {
            AudioChannel::BottomFrontLeft
        } else if v == 23 {
            AudioChannel::BottomFrontRight
        } else if v == 0xfe {
            AudioChannel::Unused
        } else if v == 0xff {
            AudioChannel::Unknown
        } else {
            AudioChannel::Reserved(v)
        }
    }

    /// The byte that stands for the speaker.
    pub open spec fn code(self) -> u8 {
        match self {
            AudioChannel::FrontLeft => 0,
            AudioChannel::FrontRight => 1,
            AudioChannel::FrontCenter => 2,
            AudioChannel::LowFrequency1 => 3,
            AudioChannel::BackLeft => 4,
            AudioChannel::BackRight => 5,
            AudioChannel::FrontLeftCenter => 6,
            AudioChannel::FrontRightCenter => 7,
            AudioChannel::BackCenter => 8,
            AudioChannel::SideLeft => 9,
            AudioChannel::SideRight => 10,
            AudioChannel::TopCenter => 11,
            AudioChannel::TopFrontLeft => 12,
            AudioChannel::TopFrontCenter => 13,
            AudioChannel::TopFrontRight => 14,
            AudioChannel::TopBackLeft => 15,
            AudioChannel::TopBackCenter => 16,
            AudioChannel::TopBackRight => 17,
            AudioChannel::LowFrequency2 => 18,
            AudioChannel::TopSideLeft => 19,
            AudioChannel::TopSideRight => 20,
            AudioChannel::BottomFrontCenter => 21,
            AudioChannel::BottomFrontLeft => 22,
            AudioChannel::BottomFrontRight => 23,
            AudioChannel::Reserved(n) => n,
            AudioChannel::Unused => 0xfe,
            AudioChannel::Unknown => 0xff,
        }
    }

    /// The name of the speaker.
    pub open spec fn name(self) -> Seq<char> {
        match self {
            AudioChannel::FrontLeft => "frontleft"@,
            AudioChannel::FrontRight => "frontright"@,
            AudioChannel::FrontCenter => "frontcenter"@,
            AudioChannel::LowFrequency1 => "lowfrequency1"@,
            AudioChannel::BackLeft => "backleft"@,
            AudioChannel::BackRight => "backright"@,
            AudioChannel::FrontLeftCenter => "frontleftcenter"@,
            AudioChannel::FrontRightCenter => "frontrightcenter"@,
            AudioChannel::BackCenter => "backcenter"@,
            AudioChannel::SideLeft => "sideleft"@,
            AudioChannel::SideRight => "sideright"@,
            AudioChannel::TopCenter => "topcenter"@,
            AudioChannel::TopFrontLeft => "topfrontleft"@,
            AudioChannel::TopFrontCenter => "topfrontcenter"@,
            AudioChannel::TopFrontRight => "topfrontright"@,
            AudioChannel::TopBackLeft => "topbackleft"@,
            AudioChannel::TopBackCenter => "topbackcenter"@,
            AudioChannel::TopBackRight => "topbackright"@,
            AudioChannel::LowFrequency2 => "lowfrequency2"@,
            AudioChannel::TopSideLeft => "topsideleft"@,
            AudioChannel::TopSideRight => "topsideright"@,
            AudioChannel::BottomFrontCenter => "bottomfrontcenter"@,
            AudioChannel::BottomFrontLeft => "bottomfrontleft"@,
            AudioChannel::BottomFrontRight => "bottomfrontright"@,
            AudioChannel::Reserved(n) => "reserved:"@ + decimal(n as nat),
            AudioChannel::Unused => "unused"@,
            AudioChannel::Unknown => "unknown"@,
        }
    }

    /// The speaker with the code `v`.
    pub fn from_u8(v: u8) -> (r: Self)
        ensures
            r == Self::of(v),
            r.code() == v,
    {
        match v {
            0 => AudioChannel::FrontLeft,
            1 => AudioChannel::FrontRight,
            2 => AudioChannel::FrontCenter,
            3 => AudioChannel::LowFrequency1,
            4 => AudioChannel::BackLeft,
            5 => AudioChannel::BackRight,
            6 => AudioChannel::FrontLeftCenter,
            7 => AudioChannel::FrontRightCenter,
            8 => AudioChannel::BackCenter,
            9 => AudioChannel::SideLeft,
            10 => AudioChannel::SideRight,
            11 => AudioChannel::TopCenter,
            12 => AudioChannel::TopFrontLeft,
            13 => AudioChannel::TopFrontCenter,
            14 => AudioChannel::TopFrontRight,
            15 => AudioChannel::TopBackLeft,
            16 => AudioChannel::TopBackCenter,
            17 => AudioChannel::TopBackRight,
            18 => AudioChannel::LowFrequency2,
            19 => AudioChannel::TopSideLeft,
            20 => AudioChannel::TopSideRight,
            21 => AudioChannel::BottomFrontCenter,
            22 => AudioChannel::BottomFrontLeft,
            23 => AudioChannel::BottomFrontRight,
            0xfe => AudioChannel::Unused,
            0xff => AudioChannel::Unknown,
            other => AudioChannel::Reserved(other),
        }
    }

    /// The byte that stands for the speaker.
    pub fn to_u8(self) -> (r: u8)
        ensures
            r == self.code(),
    {
        match self {
            AudioChannel::FrontLeft => 0,
            AudioChannel::FrontRight => 1,
            AudioChannel::FrontCenter => 2,
            AudioChannel::LowFrequency1 => 3,
            AudioChannel::BackLeft => 4,
            AudioChannel::BackRight => 5,
            AudioChannel::FrontLeftCenter => 6,
            AudioChannel::FrontRightCenter => 7,
            AudioChannel::BackCenter => 8,
            AudioChannel::SideLeft => 9,
            AudioChannel::SideRight => 10,
            AudioChannel::TopCenter => 11,
            AudioChannel::TopFrontLeft => 12,
            AudioChannel::TopFrontCenter => 13,
            AudioChannel::TopFrontRight => 14,
            AudioChannel::TopBackLeft => 15,
            AudioChannel::TopBackCenter => 16,
            AudioChannel::TopBackRight => 17,
            AudioChannel::LowFrequency2 => 18,
            AudioChannel::TopSideLeft => 19,
            AudioChannel::TopSideRight => 20,
            AudioChannel::BottomFrontCenter => 21,
            AudioChannel::BottomFrontLeft => 22,
            AudioChannel::BottomFrontRight => 23,
            AudioChannel::Reserved(n) => n,
            AudioChannel::Unused => 0xfe,
            AudioChannel::Unknown => 0xff,
        }
    }

    /// The name of the speaker, in lower case.
    pub fn label(self) -> (r: String)
        ensures
            r@ == self.name(),
    {
        match self {
            AudioChannel::FrontLeft => "frontleft".to_string(),
            AudioChannel::FrontRight => "frontright".to_string(),
            AudioChannel::FrontCenter => "frontcenter".to_string(),
            AudioChannel::LowFrequency1 => "lowfrequency1".to_string(),
            AudioChannel::BackLeft => "backleft".to_string(),
            AudioChannel::BackRight => "backright".to_string(),
            AudioChannel::FrontLeftCenter => "frontleftcenter".to_string(),
            AudioChannel::FrontRightCenter => "frontrightcenter".to_string(),
            AudioChannel::BackCenter => "backcenter".to_string(),
            AudioChannel::SideLeft => "sideleft".to_string(),
            AudioChannel::SideRight => "sideright".to_string(),
            AudioChannel::TopCenter => "topcenter".to_string(),
            AudioChannel::TopFrontLeft => "topfrontleft".to_string(),
            AudioChannel::TopFrontCenter => "topfrontcenter".to_string(),
            AudioChannel::TopFrontRight => "topfrontright".to_string(),
            AudioChannel::TopBackLeft => "topbackleft".to_string(),
            AudioChannel::TopBackCenter => "topbackcenter".to_string(),
            AudioChannel::TopBackRight => "topbackright".to_string(),
            AudioChannel::LowFrequency2 => "lowfrequency2".to_string(),
            AudioChannel::TopSideLeft => "topsideleft".to_string(),
            AudioChannel::TopSideRight => "topsideright".to_string(),
            AudioChannel::BottomFrontCenter => "bottomfrontcenter".to_string(),
            AudioChannel::BottomFrontLeft => "bottomfrontleft".to_string(),
            AudioChannel::BottomFrontRight => "bottomfrontright".to_string(),
            AudioChannel::Reserved(n) => reserved_label(n),
            AudioChannel::Unused => "unused".to_string(),
            AudioChannel::Unknown => "unknown".to_string(),
        }
    }
}

/// The number of speakers that a mask has a bit for. Bit `i` stands for the speaker with the
/// code `i`.
pub const CHANNEL_MASK_BITS: u32 = 24;

/// All speakers.
pub const CHANNEL_MASK_ALL: u32 = 0x00FF_FFFF;

/// The names of the speakers from the code `first` to the last one that a mask has a bit for;
/// bit 0 of `mask` stands for `first`.
pub open spec fn names(mask: nat, first: nat) -> Seq<Seq<char>>
    decreases CHANNEL_MASK_BITS - first,
{
    if first >= CHANNEL_MASK_BITS {
        Seq::empty()
    } else {
        (if mask % 2 == 1 {
            seq![AudioChannel::of(first as u8).name()]
        } else {
            Seq::empty()
        }) + names(mask / 2, first + 1)
    }
}

/// The number of bits of `mask` that are set.
pub open spec fn ones(mask: nat) -> nat
    decreases mask,
{
    if mask == 0 {
        0
    } else {
        mask % 2 + ones(mask / 2)
    }
}

/// The names of the speakers in a mask, in the order of their bits. Bits that stand for no
/// speaker are passed over.
pub fn mask_channel_labels(flags: u32) -> (r: Vec<String>)
    ensures
        texts_view(r@) == names(flags as nat, 0),
{
    let mut labels: Vec<String> = Vec::new();
    let mut rest: u32 = flags;
    let mut bit: u8 = 0;
    assert(texts_view(labels@) + names(flags as nat, 0) =~= names(flags as nat, 0));
    while bit < 24
        invariant
            bit <= 24,
            names(flags as nat, 0) == texts_view(labels@) + names(rest as nat, bit as nat),
        decreases 24 - bit,
    {
        let ghost more = names((rest / 2) as nat, (bit + 1) as nat);
        if rest % 2 == 1 {
            let label = AudioChannel::from_u8(bit).label();
            proof {
                assert(texts_view(labels@.push(label)) =~= texts_view(labels@) + seq![label@]);
                assert(texts_view(labels@) + (seq![label@] + more) =~= (texts_view(labels@)
                    + seq![label@]) + more);
            }
            labels.push(label);
        } else {
            assert(Seq::<Seq<char>>::empty() + more =~= more);
        }
        rest = rest / 2;
        bit = bit + 1;
    }
    assert(names(rest as nat, 24) == Seq::<Seq<char>>::empty());
    assert(texts_view(labels@) + Seq::<Seq<char>>::empty() =~= texts_view(labels@));
    labels
}

fn count_ones(mask: u32) -> (r: u32)
    ensures
        r == ones(mask as nat),
        r <= mask,
    decreases mask,
{
    if mask == 0 {
        0
    } else {
        mask % 2 + count_ones(mask / 2)
    }
}

/// How the channels of a track relate to speakers.
#[derive(Debug, PartialEq, Eq)]
pub struct MultichannelConfig {
    pub order: AudioChannelOrder,
    /// The number of channels.
    pub channel_count: u8,
    /// The speaker of each channel, of a custom order.
    pub mapping: Option<Vec<AudioChannel>>,
    /// The speakers that are present, of the native order.
    pub channel_flags: Option<u32>,
}

/// What a configuration is, apart from how it is held in memory.
#[verifier::ext_equal]
pub struct Channels {
    pub order: AudioChannelOrder,
    pub channel_count: u8,
    pub mapping: Option<Seq<AudioChannel>>,
    pub channel_flags: Option<u32>,
}

impl View for MultichannelConfig {
    type V = Channels;

    open spec fn view(&self) -> Channels {
        Channels {
            order: self.order,
            channel_count: self.channel_count,
            mapping: match self.mapping {
                Some(m) => Some(m@),
                None => None,
            },
            channel_flags: self.channel_flags,
        }
    }
}

impl Clone for MultichannelConfig {
    fn clone(&self) -> (r: Self)
        ensures
            r@ == self@,
    {
        let mapping = match &self.mapping {
            Some(m) => {
                let c = m.clone();
                assert(c@ =~= m@);
                Some(c)
            },
            None => None,
        };
        MultichannelConfig {
            order: self.order,
            channel_count: self.channel_count,
            mapping,
            channel_flags: self.channel_flags,
        }
    }
}

// ---- reading --------------------------------------------------------------

/// The speakers that bytes stand for.
pub open spec fn speakers(bytes: Seq<u8>) -> Seq<AudioChannel> {
    Seq::new(bytes.len(), |i: int| AudioChannel::of(bytes[i]))
}

/// The configuration at the start of a body. Bytes behind it are not looked at.
pub open spec fn config(body: Seq<u8>) -> Result<Channels, Fault> {
    if body.len() < 2 {
        Err(Fault::MultichannelTooShort)
    } else {
        let order = AudioChannelOrder::of(body[0]);
        let channel_count = body[1];
        if order is Custom {
            if body.len() < 2 + channel_count {
                Err(Fault::MultichannelTruncatedMapping)
            } else {
                Ok(
                    Channels {
                        order,
                        channel_count,
                        mapping: Some(speakers(body.subrange(2, 2 + channel_count))),
                        channel_flags: None,
                    },
                )
            }
        } else if order is Native {
            if body.len() < 6 {
                Err(Fault::MultichannelTruncatedFlags)
            } else {
                Ok(
                    Channels {
                        order,
                        channel_count,
                        mapping: None,
                        channel_flags: Some(u32_at(body, 2)),
                    },
                )
            }
        } else {
            Ok(Channels { order, channel_count, mapping: None, channel_flags: None })
        }
    }
}

fn read_speakers(body: &[u8], n: usize) -> (r: Vec<AudioChannel>)
    requires
        2 + n <= body@.len(),
    ensures
        r@ == speakers(body@.subrange(2, 2 + n)),
{
    let mut mapping: Vec<AudioChannel> = Vec::new();
    let mut i: usize = 0;
    while i < n
        invariant
            i <= n,
            2 + n <= body@.len(),
            mapping@.len() == i,
            forall|j: int| 0 <= j < i ==> mapping@[j] == AudioChannel::of(body@[2 + j]),
        decreases n - i,
    {
        assert(2 + i < body.len());
        mapping.push(AudioChannel::from_u8(body[2 + i]));
        i += 1;
    }
    assert(mapping@ =~= speakers(body@.subrange(2, 2 + n)));
    mapping
}

// ---- writing --------------------------------------------------------------

/// What stops a configuration from being written.
pub open spec fn config_fault(c: Channels) -> Option<Fault> {
    match c.order {
        AudioChannelOrder::Unspecified => if c.mapping is Some || c.channel_flags is Some {
            Some(Fault::MultichannelUnspecifiedExtra)
        } else {
            None
        },
        AudioChannelOrder::Custom => if c.channel_flags is Some {
            Some(Fault::MultichannelCustomFlags)
        } else {
            match c.mapping {
                None => Some(Fault::MultichannelNoMapping),
                Some(m) => if m.len() != c.channel_count {
                    Some(Fault::MultichannelMappingLength)
                } else {
                    None
                },
            }
        },
        AudioChannelOrder::Native => if c.mapping is Some {
            Some(Fault::MultichannelNativeMapping)
        } else {
            match c.channel_flags {
                None => Some(Fault::MultichannelNoFlags),
                Some(flags) => if flags > CHANNEL_MASK_ALL {
                    Some(Fault::MultichannelFlagsRange)
                } else if ones(flags as nat) != c.channel_count {
                    Some(Fault::MultichannelFlagsCount)
                } else {
                    None
                },
            }
        },
        AudioChannelOrder::Reserved(_) => Some(Fault::MultichannelReservedOrder),
    }
}

/// The bytes that stand for speakers.
pub open spec fn codes(s: Seq<AudioChannel>) -> Seq<u8> {
    Seq::new(s.len(), |i: int| s[i].code())
}

/// The bytes of a configuration.
pub open spec fn config_bytes(c: Channels) -> Seq<u8> {
    seq![c.order.code(), c.channel_count] + ((match c.mapping {
        Some(m) => codes(m),
        None => Seq::empty(),
    }) + (match c.channel_flags {
        Some(flags) => be32(flags),
        None => Seq::empty(),
    }))
}

/// A configuration; nothing at all where something is wrong with it.
pub open spec fn emit_config(c: Channels) -> Emit {
    match config_fault(c) {
        Some(f) => Emit::stop(f),
        None => Emit::put(config_bytes(c)),
    }
}

impl MultichannelConfig {
    /// Reads the configuration at the start of a body. Bytes behind it are not looked at.
    pub fn parse(body: &[u8]) -> (r: Result<Self, Error>)
        ensures
            match (r, config(body@)) {
                (Ok(c), Ok(x)) => c@ == x,
                (Err(e), Err(f)) => e == Error::InvalidData(f),
                _ => false,
            },
    {
        if body.len() < 2 {
            return Err(Error::InvalidData(Fault::MultichannelTooShort));
        }
        let order = AudioChannelOrder::from_u8(body[0]);
        let channel_count: u8 = body[1];
        let n: usize = channel_count as usize;
        let mut mapping: Option<Vec<AudioChannel>> = None;
        let mut channel_flags: Option<u32> = None;
        if let AudioChannelOrder::Custom = order {
            if body.len() - 2 < n {
                return Err(Error::InvalidData(Fault::MultichannelTruncatedMapping));
            }
            mapping = Some(read_speakers(body, n));
        }
        if let AudioChannelOrder::Native = order {
            if body.len() < 6 {
                return Err(Error::InvalidData(Fault::MultichannelTruncatedFlags));
            }
            channel_flags = Some(read_u32(body, 2));
        }
        Ok(MultichannelConfig { order, channel_count, mapping, channel_flags })
    }

    fn check(&self) -> (r: Option<Fault>)
        ensures
            r == config_fault(self@),
    {
        match self.order {
            AudioChannelOrder::Unspecified => if self.mapping.is_some()
                || self.channel_flags.is_some() {
                Some(Fault::MultichannelUnspecifiedExtra)
            } else {
                None
            },
            AudioChannelOrder::Custom => if self.channel_flags.is_some() {
                Some(Fault::MultichannelCustomFlags)
            } else {
                match &self.mapping {
                    None => Some(Fault::MultichannelNoMapping),
                    Some(m) => if m.len() != self.channel_count as usize {
                        Some(Fault::MultichannelMappingLength)
                    } else {
                        None
                    },
                }
            },
            AudioChannelOrder::Native => if self.mapping.is_some() {
                Some(Fault::MultichannelNativeMapping)
            } else {
                match self.channel_flags {
                    None => Some(Fault::MultichannelNoFlags),
                    Some(flags) => if flags > CHANNEL_MASK_ALL {
                        Some(Fault::MultichannelFlagsRange)
                    } else if count_ones(flags) != self.channel_count as u32 {
                        Some(Fault::MultichannelFlagsCount)
                    } else {
                        None
                    },
                }
            },
            AudioChannelOrder::Reserved(_) => Some(Fault::MultichannelReservedOrder),
        }
    }

    /// Appends the configuration. Where something is wrong with it, nothing is written.
    pub fn to_bytes(&self, out: &mut Vec<u8>) -> (r: Result<(), Error>)
        ensures
            wrote(old(out)@, final(out)@, r, emit_config(self@)),
    {
        if let Some(f) = self.check() {
            assert(out@ =~= old(out)@ + Seq::<u8>::empty());
            return Err(Error::InvalidData(f));
        }
        out.push(self.order.to_u8());
        out.push(self.channel_count);
        let ghost head = out@;
        if let Some(mapping) = &self.mapping {
            let mut i: usize = 0;
            while i < mapping.len()
                invariant
                    i <= mapping@.len(),
                    out@ == head + codes(mapping@.take(i as int)),
                decreases mapping@.len() - i,
            {
                out.push(mapping[i].to_u8());
                assert(out@ =~= head + codes(mapping@.take(i + 1)));
                i += 1;
            }
            assert(mapping@.take(i as int) =~= mapping@);
        }
        if let Some(flags) = self.channel_flags {
            push_u32(out, flags);
        }
        assert(out@ =~= old(out)@ + config_bytes(self@));
        Ok(())
    }
}

// ---- reading what was written ---------------------------------------------

/// Every speaker is the one that its code is read as.
pub open spec fn canonical(c: Channels) -> bool {
    c.mapping matches Some(m) ==> m =~= speakers(codes(m))
}

/// Reading a configuration that was written gives it back.
pub proof fn law_read_write(c: Channels, behind: Seq<u8>)
    requires
        config_fault(c) is None,
        canonical(c),
    ensures
        config(config_bytes(c) + behind) == Ok::<Channels, Fault>(c),
{
    let head = seq![c.order.code(), c.channel_count];
    let tail = config_bytes(c).skip(2);
    let body = config_bytes(c) + behind;
    assert(config_bytes(c) =~= head + tail);
    assert(body.subrange(0, config_bytes(c).len() as int) =~= config_bytes(c));
    lemma_at_split(body, 0, head, tail);
    lemma_at_index(body, 0, head, 0);
    lemma_at_index(body, 0, head, 1);
    if let Some(m) = c.mapping {
        assert(tail =~= codes(m));
    }
    if let Some(flags) = c.channel_flags {
        assert(tail =~= be32(flags));
        lemma_be32_at(body, 2, flags);
    }
}

/// A configuration that was read is canonical, and writing it, where it can be written, gives
/// back its bytes.
pub proof fn law_write_read(body: Seq<u8>)
    ensures
        config(body) matches Ok(c) ==> canonical(c) && (config_fault(c) is None ==> at(
            body,
            0,
            config_bytes(c),
        )),
{
    if let Ok(c) = config(body) {
        if let Some(m) = c.mapping {
            let bytes = body.subrange(2, 2 + c.channel_count);
            assert(codes(m) =~= bytes);
            assert(body.subrange(0, 2 + c.channel_count) =~= config_bytes(c));
        } else if let Some(flags) = c.channel_flags {
            lemma_u32_at(body, 2);
            assert(body.subrange(0, 6) =~= body.subrange(0, 2) + body.subrange(2, 6));
            assert(body.subrange(0, 6) =~= config_bytes(c));
        } else {
            assert(body.subrange(0, 2) =~= config_bytes(c));
        }
    }
}

} // verus!
