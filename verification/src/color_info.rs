//! The colours of a picture, as metadata in front of the frames that they apply to.
//!
//! They are sent as one named AMF0 value: an object of up to three groups. An empty object, or an
//! undefined value in its place, goes back to what the codec says.
use vstd::prelude::*;
use vstd::string::*;
use crate::amf0::decode::value;
use crate::amf0::encode::{emit_number, emit_string, emit_undefined};
use crate::amf0::laws::{law_read_named, law_writers_write_wire};
use crate::amf0::{write_string, write_undefined, AmfTree};
use crate::double::{of_int, Double};
use crate::error::{ColorField, Error, Fault};
use crate::script::meta::{emit_meta, emit_properties, law_written_as_tree, lemma_properties_push,
    number, properties, push_number, tree, write_meta_value, Meta, MetaValue};
use crate::text::lemma_utf8_len;
use crate::wire::{lemma_wrote_and, wrote, Emit};

verus! {

/// The colours of a picture. What is left out is not sent, and the player goes by the codec.
#[derive(Clone, Copy, Debug, PartialEq, Eq, Structural)]
pub struct ColorInfo {
    pub color_config: Option<ColorConfig>,
    pub hdr_cll: Option<HdrCll>,
    pub hdr_mdcv: Option<HdrMdcv>,
}

/// How samples stand for colours.
#[derive(Clone, Copy, Debug, PartialEq, Eq, Structural)]
pub struct ColorConfig {
    /// Bits of a sample, from 8 to 16.
    pub bit_depth: Option<u8>,
    pub color_primaries: Option<u8>,
    pub transfer_characteristics: Option<u8>,
    pub matrix_coefficients: Option<u8>,
}

/// How bright the content is, in candela per square metre, from 0.0001 to 10000.
#[derive(Clone, Copy, Debug, PartialEq, Eq, Structural)]
pub struct HdrCll {
    /// The largest average of a frame.
    pub max_fall: Option<Double>,
    /// The brightest pixel.
    pub max_cll: Option<Double>,
}

/// The display that the content was mastered on: chromaticity from 0.0001 to 0.74 in x and 0.84
/// in y, peak luminance from 5 to 10000 and lowest luminance from 0.0001 to 5 candela per square
/// metre.
#[derive(Clone, Copy, Debug, PartialEq, Eq, Structural)]
pub struct HdrMdcv {
    pub red_x: Option<Double>,
    pub red_y: Option<Double>,
    pub green_x: Option<Double>,
    pub green_y: Option<Double>,
    pub blue_x: Option<Double>,
    pub blue_y: Option<Double>,
    pub white_point_x: Option<Double>,
    pub white_point_y: Option<Double>,
    pub max_luminance: Option<Double>,
    pub min_luminance: Option<Double>,
}

impl Default for ColorInfo {
    fn default() -> (r: Self)
        ensures
            r == (ColorInfo { color_config: None, hdr_cll: None, hdr_mdcv: None }),
    {
        ColorInfo { color_config: None, hdr_cll: None, hdr_mdcv: None }
    }
}

impl Default for ColorConfig {
    fn default() -> (r: Self)
        ensures
            r == (ColorConfig {
                bit_depth: None,
                color_primaries: None,
                transfer_characteristics: None,
                matrix_coefficients: None,
            }),
    {
        ColorConfig {
            bit_depth: None,
            color_primaries: None,
            transfer_characteristics: None,
            matrix_coefficients: None,
        }
    }
}

impl Default for HdrCll {
    fn default() -> (r: Self)
        ensures
            r == (HdrCll { max_fall: None, max_cll: None }),
    {
        HdrCll { max_fall: None, max_cll: None }
    }
}

impl Default for HdrMdcv {
    fn default() -> (r: Self)
        ensures
            r == no_mdcv(),
    {
        HdrMdcv {
            red_x: None,
            red_y: None,
            green_x: None,
            green_y: None,
            blue_x: None,
            blue_y: None,
            white_point_x: None,
            white_point_y: None,
            max_luminance: None,
            min_luminance: None,
        }
    }
}

/// A display of which nothing is said.
pub open spec fn no_mdcv() -> HdrMdcv {
    HdrMdcv {
        red_x: None,
        red_y: None,
        green_x: None,
        green_y: None,
        blue_x: None,
        blue_y: None,
        white_point_x: None,
        white_point_y: None,
        max_luminance: None,
        min_luminance: None,
    }
}

// ---- bounds ---------------------------------------------------------------

/// The bits of 0.0001.
pub const SMALLEST: u64 = 0x3f1a36e2eb1c432d;

/// The bits of 0.74.
pub const CHROMA_X_MAX: u64 = 0x3fe7ae147ae147ae;

/// The bits of 0.84.
pub const CHROMA_Y_MAX: u64 = 0x3feae147ae147ae1;

/// The bits of 10000.
pub const BRIGHTEST: u64 = 0x40c3880000000000;

/// The bits of 5.
pub const LUMINANCE_SPLIT: u64 = 0x4014000000000000;

/// The first fault of two.
pub open spec fn first(a: Option<Fault>, b: Option<Fault>) -> Option<Fault> {
    if a is Some {
        a
    } else {
        b
    }
}

/// What is wrong with a number that must lie between two others, given by their bits.
pub open spec fn range_fault(field: ColorField, v: Option<Double>, lo: u64, hi: u64) -> Option<
    Fault,
> {
    match v {
        None => None,
        Some(d) => if !d.finite() {
            Some(Fault::ColorNotFinite(field))
        } else if d.rank() < (Double { bits: lo }).rank() || d.rank() > (Double { bits: hi }).rank() {
            Some(Fault::ColorOutOfRange(field))
        } else {
            None
        },
    }
}

pub open spec fn config_fault(c: ColorConfig) -> Option<Fault> {
    match c.bit_depth {
        Some(b) => if b < 8 || b > 16 {
            Some(Fault::ColorBitDepth)
        } else {
            None
        },
        None => None,
    }
}

pub open spec fn cll_fault(c: HdrCll) -> Option<Fault> {
    first(
        range_fault(ColorField::MaxFall, c.max_fall, SMALLEST, BRIGHTEST),
        range_fault(ColorField::MaxCll, c.max_cll, SMALLEST, BRIGHTEST),
    )
}

pub open spec fn mdcv_fault(m: HdrMdcv) -> Option<Fault> {
    let red_x = range_fault(ColorField::RedX, m.red_x, SMALLEST, CHROMA_X_MAX);
    let red_y = range_fault(ColorField::RedY, m.red_y, SMALLEST, CHROMA_Y_MAX);
    let green_x = range_fault(ColorField::GreenX, m.green_x, SMALLEST, CHROMA_X_MAX);
    let green_y = range_fault(ColorField::GreenY, m.green_y, SMALLEST, CHROMA_Y_MAX);
    let blue_x = range_fault(ColorField::BlueX, m.blue_x, SMALLEST, CHROMA_X_MAX);
    let blue_y = range_fault(ColorField::BlueY, m.blue_y, SMALLEST, CHROMA_Y_MAX);
    let white_point_x = range_fault(ColorField::WhitePointX, m.white_point_x, SMALLEST, CHROMA_X_MAX);
    let white_point_y = range_fault(ColorField::WhitePointY, m.white_point_y, SMALLEST, CHROMA_Y_MAX);
    let max_luminance = range_fault(ColorField::MaxLuminance, m.max_luminance, LUMINANCE_SPLIT, BRIGHTEST);
    let min_luminance = range_fault(ColorField::MinLuminance, m.min_luminance, SMALLEST, LUMINANCE_SPLIT);
    let luminance = first(max_luminance, min_luminance);
    let white_point = first(white_point_x, white_point_y);
    let blue = first(blue_x, blue_y);
    let green = first(green_x, green_y);
    let red = first(red_x, red_y);
    first(red, first(green, first(blue, first(white_point, luminance))))
}

/// The first number that is out of bounds.
pub open spec fn color_fault(ci: ColorInfo) -> Option<Fault> {
    first(
        match ci.color_config {
            Some(c) => config_fault(c),
            None => None,
        },
        first(
            match ci.hdr_cll {
                Some(c) => cll_fault(c),
                None => None,
            },
            match ci.hdr_mdcv {
                Some(m) => mdcv_fault(m),
                None => None,
            },
        ),
    )
}

fn check_range(field: ColorField, v: Option<Double>, lo: u64, hi: u64) -> (r: Option<Fault>)
    ensures
        r == range_fault(field, v, lo, hi),
{
    match v {
        None => None,
        Some(d) => {
            if !d.is_finite() {
                return Some(Fault::ColorNotFinite(field));
            }
            if d.less(Double { bits: lo }) || (Double { bits: hi }).less(d) {
                return Some(Fault::ColorOutOfRange(field));
            }
            None
        },
    }
}

fn check_config(c: &ColorConfig) -> (r: Option<Fault>)
    ensures
        r == config_fault(*c),
{
    match c.bit_depth {
        Some(b) => if b < 8 || b > 16 {
            Some(Fault::ColorBitDepth)
        } else {
            None
        },
        None => None,
    }
}

fn check_cll(c: &HdrCll) -> (r: Option<Fault>)
    ensures
        r == cll_fault(*c),
{
    let f = check_range(ColorField::MaxFall, c.max_fall, SMALLEST, BRIGHTEST);
    if f.is_some() {
        return f;
    }
    check_range(ColorField::MaxCll, c.max_cll, SMALLEST, BRIGHTEST)
}

fn check_mdcv(m: &HdrMdcv) -> (r: Option<Fault>)
    ensures
        r == mdcv_fault(*m),
{
    let f0 = check_range(ColorField::RedX, m.red_x, SMALLEST, CHROMA_X_MAX);
    if f0.is_some() {
        return f0;
    }
    let f1 = check_range(ColorField::RedY, m.red_y, SMALLEST, CHROMA_Y_MAX);
    if f1.is_some() {
        return f1;
    }
    let f2 = check_range(ColorField::GreenX, m.green_x, SMALLEST, CHROMA_X_MAX);
    if f2.is_some() {
        return f2;
    }
    let f3 = check_range(ColorField::GreenY, m.green_y, SMALLEST, CHROMA_Y_MAX);
    if f3.is_some() {
        return f3;
    }
    let f4 = check_range(ColorField::BlueX, m.blue_x, SMALLEST, CHROMA_X_MAX);
    if f4.is_some() {
        return f4;
    }
    let f5 = check_range(ColorField::BlueY, m.blue_y, SMALLEST, CHROMA_Y_MAX);
    if f5.is_some() {
        return f5;
    }
    let f6 = check_range(ColorField::WhitePointX, m.white_point_x, SMALLEST, CHROMA_X_MAX);
    if f6.is_some() {
        return f6;
    }
    let f7 = check_range(ColorField::WhitePointY, m.white_point_y, SMALLEST, CHROMA_Y_MAX);
    if f7.is_some() {
        return f7;
    }
    let f8 = check_range(ColorField::MaxLuminance, m.max_luminance, LUMINANCE_SPLIT, BRIGHTEST);
    if f8.is_some() {
        return f8;
    }
    let f9 = check_range(ColorField::MinLuminance, m.min_luminance, SMALLEST, LUMINANCE_SPLIT);
    if f9.is_some() {
        return f9;
    }
    None
}

fn check(ci: &ColorInfo) -> (r: Option<Fault>)
    ensures
        r == color_fault(*ci),
{
    if let Some(c) = &ci.color_config {
        let f = check_config(c);
        if f.is_some() {
            return f;
        }
    }
    if let Some(c) = &ci.hdr_cll {
        let f = check_cll(c);
        if f.is_some() {
            return f;
        }
    }
    match &ci.hdr_mdcv {
        Some(m) => check_mdcv(m),
        None => None,
    }
}

// ---- the object -----------------------------------------------------------

/// A small number as a double.
pub open spec fn small(v: Option<u8>) -> Option<Double> {
    match v {
        Some(n) => Some(of_int(n as nat)),
        None => None,
    }
}

pub open spec fn config_properties(c: ColorConfig) -> Seq<(Seq<char>, Meta)> {
    number("bitDepth"@, small(c.bit_depth)) + number("colorPrimaries"@, small(c.color_primaries))
        + number("transferCharacteristics"@, small(c.transfer_characteristics)) + number(
        "matrixCoefficients"@,
        small(c.matrix_coefficients),
    )
}

pub open spec fn cll_properties(c: HdrCll) -> Seq<(Seq<char>, Meta)> {
    number("maxFall"@, c.max_fall) + number("maxCLL"@, c.max_cll)
}

pub open spec fn mdcv_properties(m: HdrMdcv) -> Seq<(Seq<char>, Meta)> {
    number("redX"@, m.red_x) + number("redY"@, m.red_y)
        + number("greenX"@, m.green_x) + number("greenY"@, m.green_y)
        + number("blueX"@, m.blue_x) + number("blueY"@, m.blue_y)
        + number("whitePointX"@, m.white_point_x) + number("whitePointY"@, m.white_point_y)
        + number("maxLuminance"@, m.max_luminance) + number("minLuminance"@, m.min_luminance)
}

/// A group, if there is one.
pub open spec fn group(name: Seq<char>, p: Option<Seq<(Seq<char>, Meta)>>) -> Seq<
    (Seq<char>, Meta),
> {
    match p {
        Some(s) => seq![(name, Meta::Object(s))],
        None => Seq::empty(),
    }
}

/// The object of the groups that are there.
pub open spec fn color_object(ci: ColorInfo) -> Meta {
    Meta::Object(
        group(
            "colorConfig"@,
            match ci.color_config {
                Some(c) => Some(config_properties(c)),
                None => None,
            },
        ) + group(
            "hdrCll"@,
            match ci.hdr_cll {
                Some(c) => Some(cll_properties(c)),
                None => None,
            },
        ) + group(
            "hdrMdcv"@,
            match ci.hdr_mdcv {
                Some(m) => Some(mdcv_properties(m)),
                None => None,
            },
        ),
    )
}

fn push_small(pairs: &mut Vec<(String, MetaValue)>, name: &str, v: Option<u8>)
    ensures
        properties(final(pairs)@) == properties(old(pairs)@) + number(name@, small(v)),
{
    let d = match v {
        Some(n) => Some(Double::from_u32(n as u32)),
        None => None,
    };
    push_number(pairs, name, d);
}

fn push_group(pairs: &mut Vec<(String, MetaValue)>, name: &str, p: Vec<(String, MetaValue)>)
    ensures
        properties(final(pairs)@) == properties(old(pairs)@) + group(name@, Some(properties(p@))),
{
    let k = name.to_string();
    let v = MetaValue::Object(p);
    proof {
        lemma_properties_push(pairs@, k, v);
    }
    pairs.push((k, v));
    assert(properties(pairs@) =~= properties(old(pairs)@) + group(name@, Some(properties(p@))));
}

fn config_pairs(c: &ColorConfig) -> (r: Vec<(String, MetaValue)>)
    ensures
        properties(r@) == config_properties(*c),
{
    let mut pairs: Vec<(String, MetaValue)> = Vec::new();
    push_small(&mut pairs, "bitDepth", c.bit_depth);
    push_small(&mut pairs, "colorPrimaries", c.color_primaries);
    push_small(&mut pairs, "transferCharacteristics", c.transfer_characteristics);
    push_small(&mut pairs, "matrixCoefficients", c.matrix_coefficients);
    assert(properties(pairs@) =~= config_properties(*c));
    pairs
}

fn cll_pairs(c: &HdrCll) -> (r: Vec<(String, MetaValue)>)
    ensures
        properties(r@) == cll_properties(*c),
{
    let mut pairs: Vec<(String, MetaValue)> = Vec::new();
    push_number(&mut pairs, "maxFall", c.max_fall);
    push_number(&mut pairs, "maxCLL", c.max_cll);
    assert(properties(pairs@) =~= cll_properties(*c));
    pairs
}

fn mdcv_pairs(m: &HdrMdcv) -> (r: Vec<(String, MetaValue)>)
    ensures
        properties(r@) == mdcv_properties(*m),
{
    let mut pairs: Vec<(String, MetaValue)> = Vec::new();
    assert(properties(pairs@) =~= Seq::empty());
    push_number(&mut pairs, "redX", m.red_x);
    push_number(&mut pairs, "redY", m.red_y);
    push_number(&mut pairs, "greenX", m.green_x);
    push_number(&mut pairs, "greenY", m.green_y);
    push_number(&mut pairs, "blueX", m.blue_x);
    push_number(&mut pairs, "blueY", m.blue_y);
    push_number(&mut pairs, "whitePointX", m.white_point_x);
    push_number(&mut pairs, "whitePointY", m.white_point_y);
    push_number(&mut pairs, "maxLuminance", m.max_luminance);
    push_number(&mut pairs, "minLuminance", m.min_luminance);
    assert(properties(pairs@) =~= mdcv_properties(*m));
    pairs
}

fn object_of(ci: &ColorInfo) -> (r: MetaValue)
    ensures
        r@ == color_object(*ci),
{
    let mut pairs: Vec<(String, MetaValue)> = Vec::new();
    if let Some(c) = &ci.color_config {
        let p = config_pairs(c);
        push_group(&mut pairs, "colorConfig", p);
    }
    if let Some(c) = &ci.hdr_cll {
        let p = cll_pairs(c);
        push_group(&mut pairs, "hdrCll", p);
    }
    if let Some(m) = &ci.hdr_mdcv {
        let p = mdcv_pairs(m);
        push_group(&mut pairs, "hdrMdcv", p);
    }
    assert(Meta::Object(properties(pairs@)) == color_object(*ci)) by {
        assert(properties(pairs@) =~= color_object(*ci)->Object_0);
    }
    MetaValue::Object(pairs)
}

// ---- writing --------------------------------------------------------------

/// The name and the object; nothing where a number is out of bounds.
pub open spec fn emit_color(ci: ColorInfo) -> Emit {
    match color_fault(ci) {
        Some(f) => Emit::stop(f),
        None => emit_string("colorInfo"@).and(emit_meta(color_object(ci))),
    }
}

/// The name and an undefined value.
pub open spec fn emit_reset() -> Emit {
    emit_string("colorInfo"@).and(emit_undefined())
}

/// Appends the name and the object. Where a number is out of bounds, nothing is written.
pub fn encode_amf_into(out: &mut Vec<u8>, ci: &ColorInfo) -> (r: Result<(), Error>)
    ensures
        wrote(old(out)@, final(out)@, r, emit_color(*ci)),
        r is Ok <==> color_fault(*ci) is None,
{
    proof {
        lemma_fits(*ci);
    }
    if let Some(f) = check(ci) {
        assert(out@ =~= old(out)@ + Seq::<u8>::empty());
        return Err(Error::InvalidData(f));
    }
    let object = object_of(ci);
    write_string(out, "colorInfo")?;
    let ghost b = out@;
    let r = write_meta_value(out, &object);
    proof {
        lemma_wrote_and(
            old(out)@,
            b,
            out@,
            Ok(()),
            r,
            emit_string("colorInfo"@),
            emit_meta(color_object(*ci)),
        );
    }
    r
}

/// The bytes that go back to what the codec says: the name and an undefined value.
pub fn encode_amf_reset() -> (r: Vec<u8>)
    ensures
        r@ == emit_reset().bytes,
        emit_reset().fault is None,
{
    let mut out: Vec<u8> = Vec::new();
    proof {
        lemma_name_fits();
    }
    let _ = write_string(&mut out, "colorInfo");
    let _ = write_undefined(&mut out);
    assert(out@ =~= emit_reset().bytes);
    out
}

impl ColorInfo {
    /// The name and the object as bytes. A number that is out of bounds is an error.
    pub fn encode_amf(&self) -> (r: Result<Vec<u8>, Error>)
        ensures
            match r {
                Ok(v) => color_fault(*self) is None && v@ == emit_color(*self).bytes,
                Err(e) => color_fault(*self) matches Some(f) && e == Error::InvalidData(f),
            },
    {
        let mut out: Vec<u8> = Vec::new();
        let r = encode_amf_into(&mut out, self);
        assert(out@ =~= emit_color(*self).bytes);
        match r {
            Ok(_) => Ok(out),
            Err(e) => Err(e),
        }
    }
}

// ---- nothing else can go wrong --------------------------------------------

proof fn lemma_name_fits()
    ensures
        emit_string("colorInfo"@).fault is None,
{
    reveal_strlit("colorInfo");
    lemma_utf8_len("colorInfo"@);
}

/// Properties one behind the other stop where either part does.
proof fn lemma_properties_add(a: Seq<(Seq<char>, Meta)>, b: Seq<(Seq<char>, Meta)>)
    requires
        emit_properties(a).fault is None,
        emit_properties(b).fault is None,
    ensures
        emit_properties(a + b).fault is None,
    decreases a.len(),
{
    if a.len() == 0 {
        assert(a + b =~= b);
    } else {
        lemma_properties_add(a.drop_first(), b);
        assert((a + b).drop_first() =~= a.drop_first() + b);
        assert((a + b)[0] == a[0]);
    }
}

/// A property with a short name fits.
proof fn lemma_fits_behind(a: Seq<(Seq<char>, Meta)>, name: Seq<char>, v: Option<Double>)
    requires
        emit_properties(a).fault is None,
        name.len() <= 1000,
    ensures
        emit_properties(a + number(name, v)).fault is None,
{
    lemma_utf8_len(name);
    let b = number(name, v);
    if let Some(d) = v {
        assert(b.drop_first() =~= Seq::empty());
        assert(emit_properties(b.drop_first()).fault is None);
        assert(emit_meta(Meta::Number(d)) == emit_number(d));
        assert(b[0] == (name, Meta::Number(d)));
    }
    assert(emit_properties(b).fault is None);
    lemma_properties_add(a, b);
}

proof fn lemma_group_fits(
    a: Seq<(Seq<char>, Meta)>,
    name: Seq<char>,
    p: Option<Seq<(Seq<char>, Meta)>>,
)
    requires
        emit_properties(a).fault is None,
        name.len() <= 1000,
        p matches Some(s) ==> emit_properties(s).fault is None,
    ensures
        emit_properties(a + group(name, p)).fault is None,
{
    lemma_utf8_len(name);
    let b = group(name, p);
    if p is Some {
        assert(b.drop_first() =~= Seq::empty());
        assert(emit_properties(b.drop_first()).fault is None);
        assert(emit_meta(b[0].1).fault is None);
    }
    assert(emit_properties(b).fault is None);
    lemma_properties_add(a, b);
}

proof fn lemma_config_fits(c: ColorConfig)
    ensures
        emit_properties(config_properties(c)).fault is None,
{
    reveal_strlit("bitDepth");
    reveal_strlit("colorPrimaries");
    reveal_strlit("transferCharacteristics");
    reveal_strlit("matrixCoefficients");
    let e = Seq::<(Seq<char>, Meta)>::empty();
    assert(emit_properties(e).fault is None);
    lemma_fits_behind(e, "bitDepth"@, small(c.bit_depth));
    let s0 = e + number("bitDepth"@, small(c.bit_depth));
    lemma_fits_behind(s0, "colorPrimaries"@, small(c.color_primaries));
    let s1 = s0 + number("colorPrimaries"@, small(c.color_primaries));
    lemma_fits_behind(s1, "transferCharacteristics"@, small(c.transfer_characteristics));
    let s2 = s1 + number("transferCharacteristics"@, small(c.transfer_characteristics));
    lemma_fits_behind(s2, "matrixCoefficients"@, small(c.matrix_coefficients));
    let s3 = s2 + number("matrixCoefficients"@, small(c.matrix_coefficients));
    assert(s3 =~= config_properties(c));
}

proof fn lemma_cll_fits(c: HdrCll)
    ensures
        emit_properties(cll_properties(c)).fault is None,
{
    reveal_strlit("maxFall");
    reveal_strlit("maxCLL");
    let e = Seq::<(Seq<char>, Meta)>::empty();
    assert(emit_properties(e).fault is None);
    lemma_fits_behind(e, "maxFall"@, c.max_fall);
    let s0 = e + number("maxFall"@, c.max_fall);
    lemma_fits_behind(s0, "maxCLL"@, c.max_cll);
    let s1 = s0 + number("maxCLL"@, c.max_cll);
    assert(s1 =~= cll_properties(c));
}

proof fn lemma_mdcv_fits(m: HdrMdcv)
    ensures
        emit_properties(mdcv_properties(m)).fault is None,
{
    reveal_strlit("redX");
    reveal_strlit("redY");
    reveal_strlit("greenX");
    reveal_strlit("greenY");
    reveal_strlit("blueX");
    reveal_strlit("blueY");
    reveal_strlit("whitePointX");
    reveal_strlit("whitePointY");
    reveal_strlit("maxLuminance");
    reveal_strlit("minLuminance");
    let e = Seq::<(Seq<char>, Meta)>::empty();
    assert(emit_properties(e).fault is None);
    lemma_fits_behind(e, "redX"@, m.red_x);
    let s0 = e + number("redX"@, m.red_x);
    lemma_fits_behind(s0, "redY"@, m.red_y);
    let s1 = s0 + number("redY"@, m.red_y);
    lemma_fits_behind(s1, "greenX"@, m.green_x);
    let s2 = s1 + number("greenX"@, m.green_x);
    lemma_fits_behind(s2, "greenY"@, m.green_y);
    let s3 = s2 + number("greenY"@, m.green_y);
    lemma_fits_behind(s3, "blueX"@, m.blue_x);
    let s4 = s3 + number("blueX"@, m.blue_x);
    lemma_fits_behind(s4, "blueY"@, m.blue_y);
    let s5 = s4 + number("blueY"@, m.blue_y);
    lemma_fits_behind(s5, "whitePointX"@, m.white_point_x);
    let s6 = s5 + number("whitePointX"@, m.white_point_x);
    lemma_fits_behind(s6, "whitePointY"@, m.white_point_y);
    let s7 = s6 + number("whitePointY"@, m.white_point_y);
    lemma_fits_behind(s7, "maxLuminance"@, m.max_luminance);
    let s8 = s7 + number("maxLuminance"@, m.max_luminance);
    lemma_fits_behind(s8, "minLuminance"@, m.min_luminance);
    let s9 = s8 + number("minLuminance"@, m.min_luminance);
    assert(s9 =~= mdcv_properties(m));
}

/// A description whose numbers are in bounds can always be written.
proof fn lemma_fits(ci: ColorInfo)
    ensures
        emit_string("colorInfo"@).fault is None,
        emit_meta(color_object(ci)).fault is None,
{
    lemma_name_fits();
    reveal_strlit("colorConfig");
    reveal_strlit("hdrCll");
    reveal_strlit("hdrMdcv");
    let e = Seq::<(Seq<char>, Meta)>::empty();
    assert(emit_properties(e).fault is None);
    let a = match ci.color_config {
        Some(c) => Some(config_properties(c)),
        None => None,
    };
    if let Some(c) = ci.color_config {
        lemma_config_fits(c);
    }
    lemma_group_fits(e, "colorConfig"@, a);
    let s1 = e + group("colorConfig"@, a);
    let b = match ci.hdr_cll {
        Some(c) => Some(cll_properties(c)),
        None => None,
    };
    if let Some(c) = ci.hdr_cll {
        lemma_cll_fits(c);
    }
    lemma_group_fits(s1, "hdrCll"@, b);
    let s2 = s1 + group("hdrCll"@, b);
    let d = match ci.hdr_mdcv {
        Some(m) => Some(mdcv_properties(m)),
        None => None,
    };
    if let Some(m) = ci.hdr_mdcv {
        lemma_mdcv_fits(m);
    }
    lemma_group_fits(s2, "hdrMdcv"@, d);
    assert(color_object(ci)->Object_0 =~= s2 + group("hdrMdcv"@, d));
    assert(emit_properties(color_object(ci)->Object_0).fault is None);
}

/// What was written reads back as the name and the object: every group and number that was given,
/// under its name, and nothing else.
pub proof fn law_read_write(ci: ColorInfo, behind: Seq<u8>)
    requires
        color_fault(ci) is None,
    ensures
        ({
            let data = emit_color(ci).bytes + behind;
            let mid = emit_string("colorInfo"@).bytes.len() as int;
            &&& value(data, 0) == Ok::<(AmfTree, int), Fault>(
                (AmfTree::String("colorInfo"@), mid),
            )
            &&& value(data, mid) == Ok::<(AmfTree, int), Fault>(
                (tree(color_object(ci)), emit_color(ci).bytes.len() as int),
            )
        }),
{
    lemma_fits(ci);
    law_written_as_tree(color_object(ci));
    law_read_named("colorInfo"@, tree(color_object(ci)), emit_meta(color_object(ci)).bytes, behind);
}

/// A reset reads back as the name and an undefined value.
pub proof fn law_read_reset(behind: Seq<u8>)
    ensures
        ({
            let data = emit_reset().bytes + behind;
            let mid = emit_string("colorInfo"@).bytes.len() as int;
            &&& value(data, 0) == Ok::<(AmfTree, int), Fault>(
                (AmfTree::String("colorInfo"@), mid),
            )
            &&& value(data, mid) == Ok::<(AmfTree, int), Fault>(
                (AmfTree::Undefined, emit_reset().bytes.len() as int),
            )
        }),
{
    lemma_name_fits();
    law_writers_write_wire(of_int(0), false, "colorInfo"@, 0);
    law_read_named("colorInfo"@, AmfTree::Undefined, emit_undefined().bytes, behind);
}

} // verus!
