//! The command by which a client connects to a server.
//!
//! The command is three AMF0 values: its name, a transaction number, and an object. In the object
//! the client says which codecs it can take and which features of the protocol it knows, beside
//! what has always been said: the application, the address, and the like.
use vstd::prelude::*;
use vstd::string::*;
use crate::amf0::decode::value;
use crate::amf0::encode::{emit_number, emit_string};
use crate::amf0::laws::{law_read_wire, law_writers_write_wire};
use crate::amf0::{items_view, pairs_view, parse_amf0_value, write_number, write_string, AmfTree,
    AmfValue};
use crate::double::{lemma_of_int_order, lemma_trunc_of_int, of_int, Double};
use crate::error::{Error, Fault};
use crate::script::meta::{emit_meta, item_trees, law_written_as_tree, lemma_properties_push, metas,
    number, properties, push_number, tree, trees, write_meta_value, Meta, MetaValue};
use crate::script::track_info::whole;
use crate::text::{same_text, texts_view};
use crate::wire::{lemma_wrote_and, wrote, Emit};

verus! {

/// The name of the command.
pub const COMMAND_NAME: &'static str = "connect";

/// The codec that stands for all codecs.
pub const FOURCC_WILDCARD: &'static str = "*";

/// What can be done with a codec: bits that are added up.
#[derive(Clone, Copy, Debug, PartialEq, Eq, Structural)]
pub struct FourCcInfoMask;

impl FourCcInfoMask {
    /// The codec can be decoded.
    pub const CAN_DECODE: u32 = 1;

    /// The codec can be encoded.
    pub const CAN_ENCODE: u32 = 2;

    /// The codec can be passed on as it is.
    pub const CAN_FORWARD: u32 = 4;

    /// All of these.
    pub const ALL: u32 = 7;
}

/// Features of the protocol: bits that are added up.
#[derive(Clone, Copy, Debug, PartialEq, Eq, Structural)]
pub struct CapsExMask;

impl CapsExMask {
    /// The server may ask to connect again.
    pub const RECONNECT: u32 = 1;

    /// Bodies of several tracks.
    pub const MULTITRACK: u32 = 2;

    /// Modifiers in front of packet types.
    pub const MOD_EX: u32 = 4;

    /// Timestamps with nanoseconds.
    pub const TIMESTAMP_NANO_OFFSET: u32 = 8;

    /// All of these.
    pub const ALL: u32 = 15;
}

/// The object of the command.
#[derive(Debug, PartialEq)]
pub struct ConnectCommandObject {
    /// The codecs that the client can take, by FourCC.
    pub four_cc_list: Option<Vec<String>>,
    /// What can be done with video codecs, by FourCC, in order.
    pub video_four_cc_info_map: Option<Vec<(String, u32)>>,
    /// What can be done with audio codecs, by FourCC, in order.
    pub audio_four_cc_info_map: Option<Vec<(String, u32)>>,
    /// Features of the protocol.
    pub caps_ex: Option<u32>,
    /// Whatever else is in the object, in order.
    pub extra: Vec<(String, ScalarValue)>,
}

/// The value of a property without a field of its own.
#[derive(Debug, PartialEq)]
pub enum ScalarValue {
    Str(String),
    Num(Double),
    Bool(bool),
}

/// What such a value is, apart from how it is held in memory.
pub enum Scalar {
    Str(Seq<char>),
    Num(Double),
    Bool(bool),
}

impl View for ScalarValue {
    type V = Scalar;

    open spec fn view(&self) -> Scalar {
        match self {
            ScalarValue::Str(s) => Scalar::Str(s@),
            ScalarValue::Num(n) => Scalar::Num(*n),
            ScalarValue::Bool(b) => Scalar::Bool(*b),
        }
    }
}

impl Clone for ScalarValue {
    fn clone(&self) -> (r: Self)
        ensures
            r@ == self@,
    {
        match self {
            ScalarValue::Str(s) => ScalarValue::Str(s.clone()),
            ScalarValue::Num(n) => ScalarValue::Num(*n),
            ScalarValue::Bool(b) => ScalarValue::Bool(*b),
        }
    }
}

/// What an object is, apart from how it is held in memory.
#[verifier::ext_equal]
pub struct Connect {
    pub four_cc_list: Option<Seq<Seq<char>>>,
    pub video: Option<Seq<(Seq<char>, u32)>>,
    pub audio: Option<Seq<(Seq<char>, u32)>>,
    pub caps_ex: Option<u32>,
    pub extra: Seq<(Seq<char>, Scalar)>,
}

/// The masks of a run.
pub open spec fn masks_view(s: Seq<(String, u32)>) -> Seq<(Seq<char>, u32)> {
    Seq::new(s.len(), |i: int| (s[i].0@, s[i].1))
}

/// The masks of an optional run.
pub open spec fn map_view(m: Option<Vec<(String, u32)>>) -> Option<Seq<(Seq<char>, u32)>> {
    match m {
        Some(v) => Some(masks_view(v@)),
        None => None,
    }
}

/// The texts of an optional run.
pub open spec fn list_view(m: Option<Vec<String>>) -> Option<Seq<Seq<char>>> {
    match m {
        Some(v) => Some(texts_view(v@)),
        None => None,
    }
}

/// The values of a run of properties.
pub open spec fn extra_view(s: Seq<(String, ScalarValue)>) -> Seq<(Seq<char>, Scalar)> {
    Seq::new(s.len(), |i: int| (s[i].0@, s[i].1@))
}

impl View for ConnectCommandObject {
    type V = Connect;

    open spec fn view(&self) -> Connect {
        Connect {
            four_cc_list: list_view(self.four_cc_list),
            video: map_view(self.video_four_cc_info_map),
            audio: map_view(self.audio_four_cc_info_map),
            caps_ex: self.caps_ex,
            extra: extra_view(self.extra@),
        }
    }
}

/// An object that says nothing.
pub open spec fn no_connect() -> Connect {
    Connect { four_cc_list: None, video: None, audio: None, caps_ex: None, extra: Seq::empty() }
}

fn clone_map(m: &Option<Vec<(String, u32)>>) -> (r: Option<Vec<(String, u32)>>)
    ensures
        map_view(r) == map_view(*m),
{
    match m {
        None => None,
        Some(v) => {
            let mut out: Vec<(String, u32)> = Vec::new();
            let mut i: usize = 0;
            while i < v.len()
                invariant
                    i <= v@.len(),
                    out@.len() == i,
                    forall|j: int| 0 <= j < i ==> out@[j].0@ == v@[j].0@ && out@[j].1 == v@[j].1,
                decreases v@.len() - i,
            {
                out.push((v[i].0.clone(), v[i].1));
                i += 1;
            }
            assert(masks_view(out@) =~= masks_view(v@));
            Some(out)
        },
    }
}

impl Clone for ConnectCommandObject {
    fn clone(&self) -> (r: Self)
        ensures
            r@ == self@,
    {
        let four_cc_list = match &self.four_cc_list {
            None => None,
            Some(v) => {
                let c = v.clone();
                assert forall|i: int| 0 <= i < c@.len() implies c@[i]@ == v@[i]@ by {
                    assert(cloned(v@[i], c@[i]));
                }
                assert(texts_view(c@) =~= texts_view(v@));
                Some(c)
            },
        };
        let mut extra: Vec<(String, ScalarValue)> = Vec::new();
        let mut i: usize = 0;
        while i < self.extra.len()
            invariant
                i <= self.extra@.len(),
                extra@.len() == i,
                forall|j: int|
                    0 <= j < i ==> extra@[j].0@ == self.extra@[j].0@ && extra@[j].1@
                        == self.extra@[j].1@,
            decreases self.extra@.len() - i,
        {
            extra.push((self.extra[i].0.clone(), self.extra[i].1.clone()));
            i += 1;
        }
        assert(extra_view(extra@) =~= extra_view(self.extra@));
        ConnectCommandObject {
            four_cc_list,
            video_four_cc_info_map: clone_map(&self.video_four_cc_info_map),
            audio_four_cc_info_map: clone_map(&self.audio_four_cc_info_map),
            caps_ex: self.caps_ex,
            extra,
        }
    }
}

impl Default for ConnectCommandObject {
    fn default() -> (r: Self)
        ensures
            r@ == no_connect(),
    {
        let r = ConnectCommandObject {
            four_cc_list: None,
            video_four_cc_info_map: None,
            audio_four_cc_info_map: None,
            caps_ex: None,
            extra: Vec::new(),
        };
        assert(r@ =~= no_connect());
        r
    }
}

/// A map to which an entry has been added; it is made if there was none.
pub open spec fn with_mask(m: Option<Seq<(Seq<char>, u32)>>, fourcc: Seq<char>, mask: u32) -> Option<
    Seq<(Seq<char>, u32)>,
> {
    match m {
        Some(s) => Some(s.push((fourcc, mask))),
        None => Some(seq![(fourcc, mask)]),
    }
}

fn add_mask(m: Option<Vec<(String, u32)>>, fourcc: &str, mask: u32) -> (r: Option<
    Vec<(String, u32)>,
>)
    ensures
        map_view(r) == with_mask(map_view(m), fourcc@, mask),
{
    let mut v = match m {
        Some(v) => v,
        None => Vec::new(),
    };
    let ghost before = v@;
    v.push((fourcc.to_string(), mask));
    proof {
        assert(masks_view(v@) =~= masks_view(before).push((fourcc@, mask)));
        if m is None {
            assert(masks_view(v@) =~= seq![(fourcc@, mask)]);
        }
    }
    Some(v)
}

impl ConnectCommandObject {
    /// An object that says nothing.
    pub fn new() -> (r: Self)
        ensures
            r@ == no_connect(),
    {
        ConnectCommandObject::default()
    }

    /// Says which codecs the client can take.
    #[must_use]
    pub fn four_cc_list(self, codecs: &[&str]) -> (r: Self)
        ensures
            r@ == (Connect {
                four_cc_list: Some(Seq::new(codecs@.len(), |i: int| codecs@[i]@)),
                ..self@
            }),
    {
        let mut list: Vec<String> = Vec::new();
        let mut i: usize = 0;
        while i < codecs.len()
            invariant
                i <= codecs@.len(),
                list@.len() == i,
                forall|j: int| 0 <= j < i ==> list@[j]@ == codecs@[j]@,
            decreases codecs@.len() - i,
        {
            list.push(codecs[i].to_string());
            i += 1;
        }
        assert(texts_view(list@) =~= Seq::new(codecs@.len(), |i: int| codecs@[i]@));
        let mut obj = self;
        obj.four_cc_list = Some(list);
        obj
    }

    /// Says that the client can take any codec.
    #[must_use]
    pub fn four_cc_list_wildcard(self) -> (r: Self)
        ensures
            r@ == (Connect { four_cc_list: Some(seq![FOURCC_WILDCARD@]), ..self@ }),
    {
        let mut list: Vec<String> = Vec::new();
        list.push(FOURCC_WILDCARD.to_string());
        assert(texts_view(list@) =~= seq![FOURCC_WILDCARD@]);
        let mut obj = self;
        obj.four_cc_list = Some(list);
        obj
    }

    /// Adds what can be done with a video codec.
    #[must_use]
    pub fn video_codec(self, fourcc: &str, mask: u32) -> (r: Self)
        ensures
            r@ == (Connect { video: with_mask(self@.video, fourcc@, mask), ..self@ }),
    {
        let mut obj = self;
        obj.video_four_cc_info_map = add_mask(obj.video_four_cc_info_map, fourcc, mask);
        obj
    }

    /// Adds what can be done with an audio codec.
    #[must_use]
    pub fn audio_codec(self, fourcc: &str, mask: u32) -> (r: Self)
        ensures
            r@ == (Connect { audio: with_mask(self@.audio, fourcc@, mask), ..self@ }),
    {
        let mut obj = self;
        obj.audio_four_cc_info_map = add_mask(obj.audio_four_cc_info_map, fourcc, mask);
        obj
    }

    /// Says which features of the protocol the client knows.
    #[must_use]
    pub fn caps_ex(self, mask: u32) -> (r: Self)
        ensures
            r@ == (Connect { caps_ex: Some(mask), ..self@ }),
    {
        let mut obj = self;
        obj.caps_ex = Some(mask);
        obj
    }

    fn with(self, name: &str, value: ScalarValue) -> (r: Self)
        ensures
            r@ == (Connect { extra: self@.extra.push((name@, value@)), ..self@ }),
    {
        let mut obj = self;
        obj.extra.push((name.to_string(), value));
        assert(extra_view(obj.extra@) =~= extra_view(self.extra@).push((name@, value@)));
        obj
    }

    /// Adds a string.
    #[must_use]
    pub fn string(self, name: &str, value: &str) -> (r: Self)
        ensures
            r@ == (Connect { extra: self@.extra.push((name@, Scalar::Str(value@))), ..self@ }),
    {
        self.with(name, ScalarValue::Str(value.to_string()))
    }

    /// Adds a number.
    #[must_use]
    pub fn number(self, name: &str, value: Double) -> (r: Self)
        ensures
            r@ == (Connect { extra: self@.extra.push((name@, Scalar::Num(value))), ..self@ }),
    {
        self.with(name, ScalarValue::Num(value))
    }

    /// Adds a boolean.
    #[must_use]
    pub fn boolean(self, name: &str, value: bool) -> (r: Self)
        ensures
            r@ == (Connect { extra: self@.extra.push((name@, Scalar::Bool(value))), ..self@ }),
    {
        self.with(name, ScalarValue::Bool(value))
    }

    /// Whether the server may ask to connect again.
    pub fn supports_reconnect(&self) -> (r: bool)
        ensures
            r == (self@.caps_ex matches Some(c) && c % 2 == 1),
    {
        match self.caps_ex {
            Some(c) => c % 2 == 1,
            None => false,
        }
    }

    /// Whether the client knows bodies of several tracks.
    pub fn supports_multitrack(&self) -> (r: bool)
        ensures
            r == (self@.caps_ex matches Some(c) && c / 2 % 2 == 1),
    {
        match self.caps_ex {
            Some(c) => c / 2 % 2 == 1,
            None => false,
        }
    }
}

// ---- writing --------------------------------------------------------------

/// A scalar as a value to be written.
pub open spec fn scalar_meta(v: Scalar) -> Meta {
    match v {
        Scalar::Str(s) => Meta::String(s),
        Scalar::Num(n) => Meta::Number(n),
        Scalar::Bool(b) => Meta::Boolean(b),
    }
}

/// The properties without a field of their own.
pub open spec fn extra_properties(s: Seq<(Seq<char>, Scalar)>) -> Seq<(Seq<char>, Meta)> {
    Seq::new(s.len(), |i: int| (s[i].0, scalar_meta(s[i].1)))
}

/// Texts as values to be written.
pub open spec fn text_metas(s: Seq<Seq<char>>) -> Seq<Meta> {
    Seq::new(s.len(), |i: int| Meta::String(s[i]))
}

/// The list of codecs, if there is one.
pub open spec fn list_properties(l: Option<Seq<Seq<char>>>) -> Seq<(Seq<char>, Meta)> {
    match l {
        Some(s) => seq![("fourCcList"@, Meta::StrictArray(text_metas(s)))],
        None => Seq::empty(),
    }
}

/// Masks as properties.
pub open spec fn mask_properties(s: Seq<(Seq<char>, u32)>) -> Seq<(Seq<char>, Meta)> {
    Seq::new(s.len(), |i: int| (s[i].0, Meta::Number(of_int(s[i].1 as nat))))
}

/// A map, if there is one.
pub open spec fn map_properties(name: Seq<char>, m: Option<Seq<(Seq<char>, u32)>>) -> Seq<
    (Seq<char>, Meta),
> {
    match m {
        Some(s) => seq![(name, Meta::Object(mask_properties(s)))],
        None => Seq::empty(),
    }
}

/// The properties of an object, in the order in which they are written.
pub open spec fn connect_properties(c: Connect) -> Seq<(Seq<char>, Meta)> {
    extra_properties(c.extra) + list_properties(c.four_cc_list) + map_properties(
        "videoFourCcInfoMap"@,
        c.video,
    ) + map_properties("audioFourCcInfoMap"@, c.audio) + number("capsEx"@, whole(c.caps_ex))
}

/// The command.
pub open spec fn emit_command(transaction_id: Double, c: Connect) -> Emit {
    emit_string(COMMAND_NAME@).and(emit_number(transaction_id)).and(
        emit_meta(Meta::Object(connect_properties(c))),
    )
}

fn push_extra(pairs: &mut Vec<(String, MetaValue)>, extra: &Vec<(String, ScalarValue)>)
    ensures
        properties(final(pairs)@) == properties(old(pairs)@) + extra_properties(
            extra_view(extra@),
        ),
{
    let ghost head = properties(pairs@);
    let ghost all = extra_properties(extra_view(extra@));
    assert(head + all.take(0) =~= head);
    let mut i: usize = 0;
    while i < extra.len()
        invariant
            i <= extra@.len(),
            all == extra_properties(extra_view(extra@)),
            properties(pairs@) == head + all.take(i as int),
        decreases extra@.len() - i,
    {
        let k = extra[i].0.clone();
        let v = match &extra[i].1 {
            ScalarValue::Str(s) => MetaValue::String(s.clone()),
            ScalarValue::Num(n) => MetaValue::Number(*n),
            ScalarValue::Bool(b) => MetaValue::Boolean(*b),
        };
        proof {
            lemma_properties_push(pairs@, k, v);
            assert(all[i as int] == (k@, v@));
            assert((head + all.take(i as int)).push(all[i as int]) =~= head + all.take(i + 1));
        }
        pairs.push((k, v));
        i += 1;
    }
    assert(all.take(i as int) =~= all);
}

fn push_list(pairs: &mut Vec<(String, MetaValue)>, list: &Option<Vec<String>>)
    ensures
        properties(final(pairs)@) == properties(old(pairs)@) + list_properties(list_view(*list)),
{
    match list {
        None => {},
        Some(l) => {
            let mut items: Vec<MetaValue> = Vec::new();
            let mut i: usize = 0;
            while i < l.len()
                invariant
                    i <= l@.len(),
                    items@.len() == i,
                    forall|j: int| 0 <= j < i ==> items@[j]@ == Meta::String(l@[j]@),
                decreases l@.len() - i,
            {
                items.push(MetaValue::String(l[i].clone()));
                i += 1;
            }
            assert(metas(items@) =~= text_metas(texts_view(l@)));
            let k = "fourCcList".to_string();
            let v = MetaValue::StrictArray(items);
            proof {
                lemma_properties_push(pairs@, k, v);
            }
            pairs.push((k, v));
        },
    }
    assert(properties(pairs@) =~= properties(old(pairs)@) + list_properties(list_view(*list)));
}

fn push_map(pairs: &mut Vec<(String, MetaValue)>, name: &str, map: &Option<Vec<(String, u32)>>)
    ensures
        properties(final(pairs)@) == properties(old(pairs)@) + map_properties(
            name@,
            map_view(*map),
        ),
{
    match map {
        None => {},
        Some(m) => {
            let mut inner: Vec<(String, MetaValue)> = Vec::new();
            let ghost all = mask_properties(masks_view(m@));
            let mut i: usize = 0;
            while i < m.len()
                invariant
                    i <= m@.len(),
                    all == mask_properties(masks_view(m@)),
                    properties(inner@) =~= all.take(i as int),
                decreases m@.len() - i,
            {
                let k = m[i].0.clone();
                let v = MetaValue::Number(Double::from_u32(m[i].1));
                proof {
                    lemma_properties_push(inner@, k, v);
                    assert(all[i as int] == (k@, v@));
                    assert(all.take(i as int).push(all[i as int]) =~= all.take(i + 1));
                }
                inner.push((k, v));
                i += 1;
            }
            assert(all.take(i as int) =~= all);
            let k = name.to_string();
            let v = MetaValue::Object(inner);
            proof {
                lemma_properties_push(pairs@, k, v);
            }
            pairs.push((k, v));
        },
    }
    assert(properties(pairs@) =~= properties(old(pairs)@) + map_properties(name@, map_view(*map)));
}

fn object_of(obj: &ConnectCommandObject) -> (r: MetaValue)
    ensures
        r@ == Meta::Object(connect_properties(obj@)),
{
    let mut pairs: Vec<(String, MetaValue)> = Vec::new();
    assert(properties(pairs@) =~= Seq::empty());
    push_extra(&mut pairs, &obj.extra);
    push_list(&mut pairs, &obj.four_cc_list);
    push_map(&mut pairs, "videoFourCcInfoMap", &obj.video_four_cc_info_map);
    push_map(&mut pairs, "audioFourCcInfoMap", &obj.audio_four_cc_info_map);
    let caps = match obj.caps_ex {
        Some(c) => Some(Double::from_u32(c)),
        None => None,
    };
    push_number(&mut pairs, "capsEx", caps);
    assert(properties(pairs@) =~= connect_properties(obj@));
    MetaValue::Object(pairs)
}

/// Appends the object of the command.
///
/// Where a text is too long, the bytes up to it stay in `out`.
pub fn write_command_object(out: &mut Vec<u8>, obj: &ConnectCommandObject) -> (r: Result<(), Error>)
    ensures
        wrote(old(out)@, final(out)@, r, emit_meta(Meta::Object(connect_properties(obj@)))),
{
    write_meta_value(out, &object_of(obj))
}

/// Appends the command.
///
/// Where a text is too long, the bytes up to it stay in `out`.
pub fn write_connect_command_body(
    out: &mut Vec<u8>,
    transaction_id: Double,
    obj: &ConnectCommandObject,
) -> (r: Result<(), Error>)
    ensures
        wrote(old(out)@, final(out)@, r, emit_command(transaction_id, obj@)),
{
    write_string(out, COMMAND_NAME)?;
    let ghost b1 = out@;
    let ghost e1 = emit_string(COMMAND_NAME@);
    let r1 = write_number(out, transaction_id);
    let ghost e2 = e1.and(emit_number(transaction_id));
    proof {
        lemma_wrote_and(old(out)@, b1, out@, Ok(()), r1, e1, emit_number(transaction_id));
    }
    let ghost b2 = out@;
    let r2 = write_command_object(out, obj);
    proof {
        let object = emit_meta(Meta::Object(connect_properties(obj@)));
        lemma_wrote_and(old(out)@, b2, out@, Ok(()), r2, e2, object);
    }
    r2
}

/// The command as bytes.
pub fn write_connect_command(transaction_id: Double, obj: &ConnectCommandObject) -> (r: Result<
    Vec<u8>,
    Error,
>)
    ensures
        match r {
            Ok(v) => emit_command(transaction_id, obj@).fault is None && v@ == emit_command(
                transaction_id,
                obj@,
            ).bytes,
            Err(e) => emit_command(transaction_id, obj@).fault matches Some(f) && e
                == Error::InvalidData(f),
        },
{
    let mut out: Vec<u8> = Vec::new();
    let r = write_connect_command_body(&mut out, transaction_id, obj);
    assert(out@ =~= emit_command(transaction_id, obj@).bytes);
    match r {
        Ok(_) => Ok(out),
        Err(e) => Err(e),
    }
}

// ---- reading --------------------------------------------------------------

/// The flags that a number stands for; none where it is negative, too large or not finite.
pub open spec fn flags(n: Double) -> u32 {
    if n.within(of_int(u32::MAX as nat)) {
        n.trunc() as u32
    } else {
        0
    }
}

/// The strings among values.
pub open spec fn strings(s: Seq<AmfTree>) -> Seq<Seq<char>>
    decreases s.len(),
{
    if s.len() == 0 {
        Seq::empty()
    } else {
        (match s[0] {
            AmfTree::String(t) => seq![t],
            _ => Seq::empty(),
        }) + strings(s.drop_first())
    }
}

/// The flags among named values: those that are numbers.
pub open spec fn masks(s: Seq<(Seq<char>, AmfTree)>) -> Seq<(Seq<char>, u32)>
    decreases s.len(),
{
    if s.len() == 0 {
        Seq::empty()
    } else {
        (match s[0].1 {
            AmfTree::Number(n) => seq![(s[0].0, flags(n))],
            _ => Seq::empty(),
        }) + masks(s.drop_first())
    }
}

/// The map that a value stands for; an empty one where it is not an object.
pub open spec fn map_of(v: AmfTree) -> Seq<(Seq<char>, u32)> {
    match v {
        AmfTree::Object(p) => masks(p),
        AmfTree::EcmaArray(p) => masks(p),
        _ => Seq::empty(),
    }
}

/// The scalar that a value stands for, if it is of such a kind.
pub open spec fn scalar_of(v: AmfTree) -> Option<Scalar> {
    match v {
        AmfTree::String(s) => Some(Scalar::Str(s)),
        AmfTree::Number(n) => Some(Scalar::Num(n)),
        AmfTree::Boolean(b) => Some(Scalar::Bool(b)),
        _ => None,
    }
}

/// An object to which a property has been added.
pub open spec fn with_property(c: Connect, key: Seq<char>, v: AmfTree) -> Connect {
    if key == "fourCcList"@ {
        match v {
            AmfTree::StrictArray(s) => Connect { four_cc_list: Some(strings(s)), ..c },
            _ => c,
        }
    } else if key == "videoFourCcInfoMap"@ {
        Connect { video: Some(map_of(v)), ..c }
    } else if key == "audioFourCcInfoMap"@ {
        Connect { audio: Some(map_of(v)), ..c }
    } else if key == "capsEx"@ {
        match v {
            AmfTree::Number(n) => Connect { caps_ex: Some(flags(n)), ..c },
            _ => c,
        }
    } else {
        match scalar_of(v) {
            Some(s) => Connect { extra: c.extra.push((key, s)), ..c },
            None => c,
        }
    }
}

/// An object to which properties have been added, in order.
pub open spec fn with_properties(c: Connect, s: Seq<(Seq<char>, AmfTree)>) -> Connect
    decreases s.len(),
{
    if s.len() == 0 {
        c
    } else {
        with_properties(with_property(c, s[0].0, s[0].1), s.drop_first())
    }
}

/// The object that an AMF0 object or associative array stands for.
pub open spec fn connect_of(v: AmfTree) -> Result<Connect, Fault> {
    match v {
        AmfTree::Object(p) => Ok(with_properties(no_connect(), p)),
        AmfTree::EcmaArray(p) => Ok(with_properties(no_connect(), p)),
        _ => Err(Fault::ConnectNotAnObject),
    }
}

/// The object at `pos`, and where it ends.
pub open spec fn command_object(data: Seq<u8>, pos: int) -> Result<(Connect, int), Fault> {
    match value(data, pos) {
        Err(f) => Err(f),
        Ok((v, p)) => match connect_of(v) {
            Err(f) => Err(f),
            Ok(c) => Ok((c, p)),
        },
    }
}

/// The command at the start of `data`.
pub open spec fn command(data: Seq<u8>) -> Result<Connect, Fault> {
    match value(data, 0) {
        Err(f) => Err(f),
        Ok((name, p)) => if name != AmfTree::String(COMMAND_NAME@) {
            Err(Fault::ConnectCommandName)
        } else {
            match value(data, p) {
                Err(f) => Err(f),
                Ok((_, q)) => match command_object(data, q) {
                    Err(f) => Err(f),
                    Ok((c, _)) => Ok(c),
                },
            }
        },
    }
}

fn num_to_flags(n: Double) -> (r: u32)
    ensures
        r == flags(n),
{
    match n.to_u32() {
        Some(x) => x,
        None => 0,
    }
}

fn collect_strings(items: &Vec<AmfValue>) -> (r: Vec<String>)
    ensures
        texts_view(r@) == strings(items_view(items@)),
{
    let mut out: Vec<String> = Vec::new();
    let ghost all = items_view(items@);
    assert(all.skip(0) =~= all);
    assert(texts_view(out@) + strings(all) =~= strings(all));
    let mut i: usize = 0;
    while i < items.len()
        invariant
            i <= items@.len(),
            all == items_view(items@),
            strings(all) == texts_view(out@) + strings(all.skip(i as int)),
        decreases items@.len() - i,
    {
        let ghost rest = all.skip(i as int);
        let ghost before = texts_view(out@);
        assert(rest[0] == items@[i as int]@);
        assert(rest.drop_first() =~= all.skip(i + 1));
        let ghost more = strings(all.skip(i + 1));
        if let AmfValue::String(s) = &items[i] {
            out.push(s.clone());
            assert(texts_view(out@) =~= before + seq![s@]);
            assert(before + (seq![s@] + more) =~= before + seq![s@] + more);
        } else {
            assert(Seq::<Seq<char>>::empty() + more =~= more);
        }
        i += 1;
    }
    assert(strings(all.skip(i as int)) =~= Seq::empty());
    assert(texts_view(out@) + Seq::<Seq<char>>::empty() =~= texts_view(out@));
    out
}

fn collect_masks(props: &Vec<(String, AmfValue)>) -> (r: Vec<(String, u32)>)
    ensures
        masks_view(r@) == masks(pairs_view(props@)),
{
    let mut out: Vec<(String, u32)> = Vec::new();
    let ghost all = pairs_view(props@);
    assert(all.skip(0) =~= all);
    assert(masks_view(out@) + masks(all) =~= masks(all));
    let mut i: usize = 0;
    while i < props.len()
        invariant
            i <= props@.len(),
            all == pairs_view(props@),
            masks(all) == masks_view(out@) + masks(all.skip(i as int)),
        decreases props@.len() - i,
    {
        let ghost rest = all.skip(i as int);
        let ghost before = masks_view(out@);
        assert(rest[0] == (props@[i as int].0@, props@[i as int].1@));
        assert(rest.drop_first() =~= all.skip(i + 1));
        let ghost more = masks(all.skip(i + 1));
        if let AmfValue::Number(n) = &props[i].1 {
            let ghost item = (rest[0].0, flags(*n));
            out.push((props[i].0.clone(), num_to_flags(*n)));
            assert(masks_view(out@) =~= before + seq![item]);
            assert(before + (seq![item] + more) =~= before + seq![item] + more);
        } else {
            assert(Seq::<(Seq<char>, u32)>::empty() + more =~= more);
        }
        i += 1;
    }
    assert(masks(all.skip(i as int)) =~= Seq::empty());
    assert(masks_view(out@) + Seq::<(Seq<char>, u32)>::empty() =~= masks_view(out@));
    out
}

fn parse_info_map(v: &AmfValue) -> (r: Vec<(String, u32)>)
    ensures
        masks_view(r@) == map_of(v@),
{
    match v {
        AmfValue::Object(p) => collect_masks(p),
        AmfValue::EcmaArray(p) => collect_masks(p),
        _ => {
            let none: Vec<(String, u32)> = Vec::new();
            assert(masks_view(none@) =~= Seq::empty());
            none
        },
    }
}

fn add_property(obj: ConnectCommandObject, key: &String, v: &AmfValue) -> (r: ConnectCommandObject)
    ensures
        r@ == with_property(obj@, key@, v@),
{
    let mut obj = obj;
    let ghost before = obj@;
    let name = key.as_str();
    if same_text(name, "fourCcList") {
        if let AmfValue::StrictArray(items) = v {
            obj.four_cc_list = Some(collect_strings(items));
        }
    } else if same_text(name, "videoFourCcInfoMap") {
        obj.video_four_cc_info_map = Some(parse_info_map(v));
    } else if same_text(name, "audioFourCcInfoMap") {
        obj.audio_four_cc_info_map = Some(parse_info_map(v));
    } else if same_text(name, "capsEx") {
        if let AmfValue::Number(n) = v {
            obj.caps_ex = Some(num_to_flags(*n));
        }
    } else {
        match v {
            AmfValue::String(s) => {
                obj = obj.with(name, ScalarValue::Str(s.clone()));
            },
            AmfValue::Number(n) => {
                obj = obj.with(name, ScalarValue::Num(*n));
            },
            AmfValue::Boolean(b) => {
                obj = obj.with(name, ScalarValue::Bool(*b));
            },
            _ => {},
        }
    }
    assert(obj@ =~= with_property(before, key@, v@));
    obj
}

fn collect(props: &Vec<(String, AmfValue)>) -> (r: ConnectCommandObject)
    ensures
        r@ == with_properties(no_connect(), pairs_view(props@)),
{
    let mut obj = ConnectCommandObject::new();
    let ghost all = pairs_view(props@);
    assert(all.skip(0) =~= all);
    let mut i: usize = 0;
    while i < props.len()
        invariant
            i <= props@.len(),
            all == pairs_view(props@),
            with_properties(no_connect(), all) == with_properties(obj@, all.skip(i as int)),
        decreases props@.len() - i,
    {
        let ghost rest = all.skip(i as int);
        assert(rest[0] == (props@[i as int].0@, props@[i as int].1@));
        assert(rest.drop_first() =~= all.skip(i + 1));
        obj = add_property(obj, &props[i].0, &props[i].1);
        i += 1;
    }
    assert(all.skip(i as int) =~= Seq::empty());
    obj
}

/// Reads the object of a command at `pos`, and says where it ends. Properties without a field of
/// their own are kept if they are strings, numbers or booleans.
pub fn parse_command_object(data: &[u8], pos: usize) -> (r: Result<
    (ConnectCommandObject, usize),
    Error,
>)
    ensures
        match (r, command_object(data@, pos as int)) {
            (Ok((c, p)), Ok((x, q))) => c@ == x && p == q && p <= data@.len(),
            (Err(e), Err(f)) => e == Error::InvalidData(f),
            _ => false,
        },
{
    let (v, p) = parse_amf0_value(data, pos)?;
    match &v {
        AmfValue::Object(props) => Ok((collect(props), p)),
        AmfValue::EcmaArray(props) => Ok((collect(props), p)),
        _ => Err(Error::InvalidData(Fault::ConnectNotAnObject)),
    }
}

/// Reads the command at the start of `data`. The transaction number may be anything.
pub fn parse_connect_command(data: &[u8]) -> (r: Result<ConnectCommandObject, Error>)
    ensures
        match (r, command(data@)) {
            (Ok(c), Ok(x)) => c@ == x,
            (Err(e), Err(f)) => e == Error::InvalidData(f),
            _ => false,
        },
{
    let (name, p) = parse_amf0_value(data, 0)?;
    let named = match &name {
        AmfValue::String(s) => same_text(s.as_str(), COMMAND_NAME),
        _ => false,
    };
    if !named {
        return Err(Error::InvalidData(Fault::ConnectCommandName));
    }
    let (_, q) = parse_amf0_value(data, p)?;
    let (obj, _) = parse_command_object(data, q)?;
    Ok(obj)
}

// ---- reading what was written ---------------------------------------------

/// A name that has a field of its own.
pub open spec fn reserved(key: Seq<char>) -> bool {
    key == "fourCcList"@ || key == "videoFourCcInfoMap"@ || key == "audioFourCcInfoMap"@ || key
        == "capsEx"@
}

/// A mask comes back from its number.
proof fn lemma_flags_back(m: u32)
    ensures
        flags(of_int(m as nat)) == m,
{
    lemma_of_int_order(m as nat, u32::MAX as nat);
    lemma_trunc_of_int(m as nat);
}

proof fn lemma_with_properties_add(
    c: Connect,
    a: Seq<(Seq<char>, AmfTree)>,
    b: Seq<(Seq<char>, AmfTree)>,
)
    ensures
        with_properties(c, a + b) == with_properties(with_properties(c, a), b),
    decreases a.len(),
{
    if a.len() == 0 {
        assert(a + b =~= b);
    } else {
        assert((a + b).drop_first() =~= a.drop_first() + b);
        lemma_with_properties_add(with_property(c, a[0].0, a[0].1), a.drop_first(), b);
    }
}

proof fn lemma_with_one(c: Connect, key: Seq<char>, v: Meta)
    ensures
        with_properties(c, trees(seq![(key, v)])) == with_property(c, key, tree(v)),
{
    let p = trees(seq![(key, v)]);
    assert(p[0] == (key, tree(v)));
    assert(p.drop_first() =~= Seq::empty());
    let d = with_property(c, key, tree(v));
    assert(with_properties(d, p.drop_first()) == d);
}

proof fn lemma_with_none(c: Connect)
    ensures
        with_properties(c, trees(Seq::empty())) == c,
{
    assert(trees(Seq::empty()) =~= Seq::empty());
}

proof fn lemma_strings_back(s: Seq<Seq<char>>)
    ensures
        strings(item_trees(text_metas(s))) == s,
    decreases s.len(),
{
    let p = item_trees(text_metas(s));
    if s.len() == 0 {
        assert(s =~= Seq::empty());
    } else {
        assert(p[0] == AmfTree::String(s[0]));
        assert(p.drop_first() =~= item_trees(text_metas(s.drop_first())));
        lemma_strings_back(s.drop_first());
        assert(seq![s[0]] + s.drop_first() =~= s);
    }
}

proof fn lemma_masks_back(s: Seq<(Seq<char>, u32)>)
    ensures
        masks(trees(mask_properties(s))) == s,
    decreases s.len(),
{
    let p = trees(mask_properties(s));
    if s.len() == 0 {
        assert(s =~= Seq::empty());
    } else {
        assert(p[0] == (s[0].0, AmfTree::Number(of_int(s[0].1 as nat))));
        assert(p.drop_first() =~= trees(mask_properties(s.drop_first())));
        lemma_flags_back(s[0].1);
        lemma_masks_back(s.drop_first());
        assert(seq![s[0]] + s.drop_first() =~= s);
    }
}

proof fn lemma_with_extra(c: Connect, s: Seq<(Seq<char>, Scalar)>)
    requires
        forall|j: int| 0 <= j < s.len() ==> !reserved((#[trigger] s[j]).0),
    ensures
        with_properties(c, trees(extra_properties(s))) == (Connect { extra: c.extra + s, ..c }),
    decreases s.len(),
{
    let p = trees(extra_properties(s));
    if s.len() == 0 {
        assert(c.extra + s =~= c.extra);
        assert(p =~= Seq::empty());
    } else {
        let rest = s.drop_first();
        assert(p[0] == (s[0].0, tree(scalar_meta(s[0].1))));
        assert(p.drop_first() =~= trees(extra_properties(rest)));
        assert forall|j: int| 0 <= j < rest.len() implies !reserved((#[trigger] rest[j]).0) by {
            assert(rest[j] == s[j + 1]);
        }
        assert(!reserved(s[0].0));
        assert(scalar_of(tree(scalar_meta(s[0].1))) == Some(s[0].1));
        let next = with_property(c, s[0].0, tree(scalar_meta(s[0].1)));
        lemma_with_extra(next, rest);
        assert(c.extra.push(s[0]) + rest =~= c.extra + s);
    }
}

proof fn lemma_with_list(c: Connect, l: Option<Seq<Seq<char>>>)
    requires
        c.four_cc_list is None,
    ensures
        with_properties(c, trees(list_properties(l))) == (Connect { four_cc_list: l, ..c }),
{
    match l {
        None => lemma_with_none(c),
        Some(s) => {
            lemma_with_one(c, "fourCcList"@, Meta::StrictArray(text_metas(s)));
            lemma_strings_back(s);
        },
    }
}

proof fn lemma_distinct()
    ensures
        "videoFourCcInfoMap"@ != "fourCcList"@,
        "audioFourCcInfoMap"@ != "fourCcList"@,
        "audioFourCcInfoMap"@ != "videoFourCcInfoMap"@,
        "capsEx"@ != "fourCcList"@,
        "capsEx"@ != "videoFourCcInfoMap"@,
        "capsEx"@ != "audioFourCcInfoMap"@,
{
    reveal_strlit("fourCcList");
    reveal_strlit("videoFourCcInfoMap");
    reveal_strlit("audioFourCcInfoMap");
    reveal_strlit("capsEx");
    assert("fourCcList"@.len() == 10 && "videoFourCcInfoMap"@.len() == 18
        && "audioFourCcInfoMap"@.len() == 18 && "capsEx"@.len() == 6);
    assert("videoFourCcInfoMap"@[0] != "audioFourCcInfoMap"@[0]);
}

proof fn lemma_trees_add(a: Seq<(Seq<char>, Meta)>, b: Seq<(Seq<char>, Meta)>)
    ensures
        trees(a + b) == trees(a) + trees(b),
{
    assert(trees(a + b) =~= trees(a) + trees(b));
}

proof fn lemma_with_masks(c: Connect)
    requires
        c.video is None,
        c.audio is None,
        c.caps_ex is None,
    ensures
        forall|m: Option<Seq<(Seq<char>, u32)>>| #[trigger]
            with_properties(c, trees(map_properties("videoFourCcInfoMap"@, m))) == (Connect {
                video: m,
                ..c
            }),
        forall|m: Option<Seq<(Seq<char>, u32)>>, v: Option<Seq<(Seq<char>, u32)>>| #[trigger]
            with_properties(
                Connect { video: v, ..c },
                trees(map_properties("audioFourCcInfoMap"@, m)),
            ) == (Connect { video: v, audio: m, ..c }),
{
    lemma_distinct();
    assert forall|m: Option<Seq<(Seq<char>, u32)>>| #[trigger]
        with_properties(c, trees(map_properties("videoFourCcInfoMap"@, m))) == (Connect {
            video: m,
            ..c
        }) by {
        match m {
            None => lemma_with_none(c),
            Some(s) => {
                lemma_with_one(c, "videoFourCcInfoMap"@, Meta::Object(mask_properties(s)));
                lemma_masks_back(s);
            },
        }
    }
    assert forall|m: Option<Seq<(Seq<char>, u32)>>, v: Option<Seq<(Seq<char>, u32)>>| #[trigger]
        with_properties(
            Connect { video: v, ..c },
            trees(map_properties("audioFourCcInfoMap"@, m)),
        ) == (Connect { video: v, audio: m, ..c }) by {
        let d = Connect { video: v, ..c };
        match m {
            None => lemma_with_none(d),
            Some(s) => {
                lemma_with_one(d, "audioFourCcInfoMap"@, Meta::Object(mask_properties(s)));
                lemma_masks_back(s);
            },
        }
    }
}

proof fn lemma_with_caps(c: Connect, caps: Option<u32>)
    requires
        c.caps_ex is None,
    ensures
        with_properties(c, trees(number("capsEx"@, whole(caps)))) == (Connect { caps_ex: caps, ..c }),
{
    lemma_distinct();
    match caps {
        None => lemma_with_none(c),
        Some(m) => {
            lemma_with_one(c, "capsEx"@, Meta::Number(of_int(m as nat)));
            lemma_flags_back(m);
        },
    }
}

proof fn lemma_connect_back(c: Connect)
    requires
        forall|j: int| 0 <= j < c.extra.len() ==> !reserved((#[trigger] c.extra[j]).0),
    ensures
        connect_of(tree(Meta::Object(connect_properties(c)))) == Ok::<Connect, Fault>(c),
{
    let p1 = extra_properties(c.extra);
    let p2 = list_properties(c.four_cc_list);
    let p3 = map_properties("videoFourCcInfoMap"@, c.video);
    let p4 = map_properties("audioFourCcInfoMap"@, c.audio);
    let p5 = number("capsEx"@, whole(c.caps_ex));
    lemma_trees_add(p1 + p2 + p3 + p4, p5);
    lemma_trees_add(p1 + p2 + p3, p4);
    lemma_trees_add(p1 + p2, p3);
    lemma_trees_add(p1, p2);
    let c0 = no_connect();
    lemma_with_properties_add(c0, trees(p1 + p2 + p3 + p4), trees(p5));
    lemma_with_properties_add(c0, trees(p1 + p2 + p3), trees(p4));
    lemma_with_properties_add(c0, trees(p1 + p2), trees(p3));
    lemma_with_properties_add(c0, trees(p1), trees(p2));
    lemma_with_extra(c0, c.extra);
    assert(c0.extra + c.extra =~= c.extra);
    let c1 = Connect { extra: c.extra, ..c0 };
    lemma_with_list(c1, c.four_cc_list);
    let c2 = Connect { four_cc_list: c.four_cc_list, ..c1 };
    lemma_with_masks(c2);
    let c3 = Connect { video: c.video, ..c2 };
    let c4 = Connect { video: c.video, audio: c.audio, ..c2 };
    assert(with_properties(c2, trees(p3)) == c3);
    assert(with_properties(c3, trees(p4)) == c4);
    lemma_with_caps(c4, c.caps_ex);
}

/// Reading a command that was written gives back the object, unless a property that was added to
/// it has the name of one of its fields: such a property would be read as the field.
pub proof fn law_read_write(transaction_id: Double, c: Connect, behind: Seq<u8>)
    requires
        emit_command(transaction_id, c).fault is None,
        forall|j: int| 0 <= j < c.extra.len() ==> !reserved((#[trigger] c.extra[j]).0),
    ensures
        command(emit_command(transaction_id, c).bytes + behind) == Ok::<Connect, Fault>(c),
{
    let object = Meta::Object(connect_properties(c));
    let x = emit_string(COMMAND_NAME@).bytes;
    let y = emit_number(transaction_id).bytes;
    let z = emit_meta(object).bytes;
    let data = emit_command(transaction_id, c).bytes + behind;
    law_writers_write_wire(transaction_id, false, COMMAND_NAME@, 0);
    law_written_as_tree(object);
    lemma_connect_back(c);
    assert(data.subrange(0, x.len() as int) =~= x);
    assert(data.subrange(x.len() as int, (x.len() + y.len()) as int) =~= y);
    assert(data.subrange((x.len() + y.len()) as int, (x.len() + y.len() + z.len()) as int) =~= z);
    law_read_wire(data, 0, AmfTree::String(COMMAND_NAME@));
    law_read_wire(data, x.len() as int, AmfTree::Number(transaction_id));
    law_read_wire(data, (x.len() + y.len()) as int, tree(object));
}

} // verus!
