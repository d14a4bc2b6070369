//! The colour metadata of high dynamic range video.
//!
//! A metadata tag holds names and values in turn. Under the name `colorInfo`
//! stands an object with up to three parts, of which every property is optional.

use vstd::prelude::*;
use crate::amf::{decode_all, encode, Amf0Value};
#[allow(unused_imports)]
use crate::amf::{encoded, items_bytes, lemma_container_views, values_of, Amf0};
use crate::amf_fields::FieldList;
#[allow(unused_imports)]
use crate::amf_fields::{
    lemma_first_present, lemma_marked, lemma_present_fits, mark, number_field, present, Fields,
};
#[allow(unused_imports)]
use crate::amf_laws::{fits, items_fit, law_message_round_trip, pairs_fit};
use crate::error::{other, Result};
#[allow(unused_imports)]
use crate::error::Fault;
use crate::flv::video::{extended, VideoTag};
#[allow(unused_imports)]
use crate::flv::video::{extended_tag, is_of_type, VideoView};
use crate::flv::{EX_PACKET_TYPE_METADATA, VIDEO_FRAME_INFO};
#[allow(unused_imports)]
use crate::model::views;
use crate::number::Double;
use crate::text::same_text;

verus! {

/// Bits per channel and the tables of primaries, transfer characteristics and
/// matrix coefficients.
#[derive(Debug, Clone, Copy, PartialEq)]
pub struct ColorConfig {
    pub bit_depth: Option<Double>,
    pub color_primaries: Option<Double>,
    pub transfer_characteristics: Option<Double>,
    pub matrix_coefficients: Option<Double>,
}

/// Content light levels, in candela per square metre.
#[derive(Debug, Clone, Copy, PartialEq)]
pub struct HdrCll {
    /// The largest frame average.
    pub max_fall: Option<Double>,
    /// The largest single pixel.
    pub max_cll: Option<Double>,
}

/// The colour volume of the mastering display: chromaticities and luminances.
#[derive(Debug, Clone, Copy, PartialEq)]
pub struct HdrMdcv {
    pub red_x: Option<Double>,
    pub red_y: Option<Double>,
    pub green_x: Option<Double>,
    pub green_y: Option<Double>,
    pub blue_x: Option<Double>,
    pub blue_y: Option<Double>,
    pub white_point_x: Option<Double>,
    pub white_point_y: Option<Double>,
    pub max_luminance: Option<Double>,
    pub min_luminance: Option<Double>,
}

/// The colour metadata. A part that is absent is `None`; one that is there but
/// empty is not.
#[derive(Debug, Clone, Copy, PartialEq)]
pub struct ColorInfo {
    pub color_config: Option<ColorConfig>,
    pub hdr_cll: Option<HdrCll>,
    pub hdr_mdcv: Option<HdrMdcv>,
}

// ---------------------------------------------------------------------------
// The model
// ---------------------------------------------------------------------------

/// The number called `key`.
pub open spec fn number_of(v: Amf0, key: Seq<char>) -> Option<Double> {
    match v.get(key) {
        Some(Amf0::Number(bits)) => Some(Double { bits }),
        _ => None,
    }
}

impl ColorConfig {
    /// Nothing set.
    pub open spec fn none() -> ColorConfig {
        ColorConfig {
            bit_depth: None,
            color_primaries: None,
            transfer_characteristics: None,
            matrix_coefficients: None,
        }
    }

    /// What an AMF0 value says.
    pub open spec fn of(v: Amf0) -> ColorConfig {
        ColorConfig {
            bit_depth: number_of(v, "bitDepth"@),
            color_primaries: number_of(v, "colorPrimaries"@),
            transfer_characteristics: number_of(v, "transferCharacteristics"@),
            matrix_coefficients: number_of(v, "matrixCoefficients"@),
        }
    }

    /// The fields of the AMF0 object.
    pub open spec fn fields(self) -> Fields {
        seq![
            number_field("bitDepth"@, self.bit_depth),
            number_field("colorPrimaries"@, self.color_primaries),
            number_field("transferCharacteristics"@, self.transfer_characteristics),
            number_field("matrixCoefficients"@, self.matrix_coefficients),
        ]
    }
}

impl HdrCll {
    /// Nothing set.
    pub open spec fn none() -> HdrCll {
        HdrCll { max_fall: None, max_cll: None }
    }

    /// What an AMF0 value says.
    pub open spec fn of(v: Amf0) -> HdrCll {
        HdrCll { max_fall: number_of(v, "maxFall"@), max_cll: number_of(v, "maxCLL"@) }
    }

    /// The fields of the AMF0 object.
    pub open spec fn fields(self) -> Fields {
        seq![number_field("maxFall"@, self.max_fall), number_field("maxCLL"@, self.max_cll)]
    }
}

impl HdrMdcv {
    /// Nothing set.
    pub open spec fn none() -> HdrMdcv {
        HdrMdcv {
            red_x: None,
            red_y: None,
            green_x: None,
            green_y: None,
            blue_x: None,
            blue_y: None,
            white_point_x: None,
            white_point_y: None,
            max_luminance: None,
            min_luminance: None,
        }
    }

    /// What an AMF0 value says.
    pub open spec fn of(v: Amf0) -> HdrMdcv {
        HdrMdcv {
            red_x: number_of(v, "redX"@),
            red_y: number_of(v, "redY"@),
            green_x: number_of(v, "greenX"@),
            green_y: number_of(v, "greenY"@),
            blue_x: number_of(v, "blueX"@),
            blue_y: number_of(v, "blueY"@),
            white_point_x: number_of(v, "whitePointX"@),
            white_point_y: number_of(v, "whitePointY"@),
            max_luminance: number_of(v, "maxLuminance"@),
            min_luminance: number_of(v, "minLuminance"@),
        }
    }

    /// The fields of the AMF0 object.
    pub open spec fn fields(self) -> Fields {
        seq![
            number_field("redX"@, self.red_x),
            number_field("redY"@, self.red_y),
            number_field("greenX"@, self.green_x),
            number_field("greenY"@, self.green_y),
            number_field("blueX"@, self.blue_x),
            number_field("blueY"@, self.blue_y),
            number_field("whitePointX"@, self.white_point_x),
            number_field("whitePointY"@, self.white_point_y),
            number_field("maxLuminance"@, self.max_luminance),
            number_field("minLuminance"@, self.min_luminance),
        ]
    }
}

impl ColorInfo {
    /// Nothing set.
    pub open spec fn none() -> ColorInfo {
        ColorInfo { color_config: None, hdr_cll: None, hdr_mdcv: None }
    }

    /// What an AMF0 value says: an undefined value, like an empty object, says
    /// nothing; only objects and ECMA arrays say more.
    pub open spec fn of(v: Amf0) -> core::result::Result<ColorInfo, Fault> {
        match v {
            Amf0::Undefined => Ok(ColorInfo::none()),
            Amf0::Object(_) => Ok(ColorInfo::parts_of(v)),
            Amf0::EcmaArray(_) => Ok(ColorInfo::parts_of(v)),
            _ => Err(
                Fault::Other("colorInfo: value must be an Object/ECMA array or Undefined"@),
            ),
        }
    }

    /// The parts that an AMF0 value has.
    pub open spec fn parts_of(v: Amf0) -> ColorInfo {
        ColorInfo {
            color_config: match v.get("colorConfig"@) {
                Some(x) => Some(ColorConfig::of(x)),
                None => None,
            },
            hdr_cll: match v.get("hdrCll"@) {
                Some(x) => Some(HdrCll::of(x)),
                None => None,
            },
            hdr_mdcv: match v.get("hdrMdcv"@) {
                Some(x) => Some(HdrMdcv::of(x)),
                None => None,
            },
        }
    }

    /// The fields of the AMF0 object.
    pub open spec fn fields(self) -> Fields {
        seq![
            (
                "colorConfig"@,
                match self.color_config {
                    Some(x) => Some(Amf0::Object(present(x.fields()))),
                    None => None,
                },
            ),
            (
                "hdrCll"@,
                match self.hdr_cll {
                    Some(x) => Some(Amf0::Object(present(x.fields()))),
                    None => None,
                },
            ),
            (
                "hdrMdcv"@,
                match self.hdr_mdcv {
                    Some(x) => Some(Amf0::Object(present(x.fields()))),
                    None => None,
                },
            ),
        ]
    }

    /// The AMF0 value: undefined where there is nothing to say.
    pub open spec fn value(self) -> Amf0 {
        if self == ColorInfo::none() {
            Amf0::Undefined
        } else {
            Amf0::Object(present(self.fields()))
        }
    }
}

/// The colour metadata under its name among names and values, from the `i`th
/// on.
pub open spec fn color_info_among(values: Seq<Amf0>, i: int) -> core::result::Result<
    Option<ColorInfo>,
    Fault,
>
    decreases values.len() - i,
{
    if i + 1 >= values.len() {
        Ok(None)
    } else if values[i] == Amf0::String("colorInfo"@) {
        match ColorInfo::of(values[i + 1]) {
            Ok(c) => Ok(Some(c)),
            Err(f) => Err(f),
        }
    } else {
        color_info_among(values, i + 2)
    }
}

/// The colour metadata that a tag holds.
pub open spec fn color_info_of(t: VideoView) -> core::result::Result<Option<ColorInfo>, Fault> {
    if !is_of_type(t, EX_PACKET_TYPE_METADATA) {
        Ok(None)
    } else {
        match values_of(t.body) {
            Err(f) => Err(f),
            Ok(values) => color_info_among(values, 0),
        }
    }
}

/// The body of a tag that holds colour metadata.
pub open spec fn color_info_body(c: ColorInfo) -> Seq<u8> {
    items_bytes(seq![Amf0::String("colorInfo"@), c.value()])
}

// ---------------------------------------------------------------------------
// The code
// ---------------------------------------------------------------------------

fn opt_num(v: &Amf0Value, key: &str) -> (r: Option<Double>)
    ensures
        r == number_of(v@, key@),
{
    match v.get(key) {
        Some(x) => match x {
            Amf0Value::Number(d) => Some(*d),
            _ => None,
        },
        None => None,
    }
}

/// Nothing set.
impl Default for ColorConfig {
    fn default() -> (c: ColorConfig)
        ensures
            c == ColorConfig::none(),
    {
        ColorConfig {
            bit_depth: None,
            color_primaries: None,
            transfer_characteristics: None,
            matrix_coefficients: None,
        }
    }
}

impl ColorConfig {
    /// Whether nothing is set.
    pub fn is_empty(&self) -> (b: bool)
        ensures
            b == (*self == ColorConfig::none()),
    {
        self.bit_depth.is_none() && self.color_primaries.is_none()
            && self.transfer_characteristics.is_none() && self.matrix_coefficients.is_none()
    }

    fn from_value(v: &Amf0Value) -> (c: ColorConfig)
        ensures
            c == ColorConfig::of(v@),
    {
        ColorConfig {
            bit_depth: opt_num(v, "bitDepth"),
            color_primaries: opt_num(v, "colorPrimaries"),
            transfer_characteristics: opt_num(v, "transferCharacteristics"),
            matrix_coefficients: opt_num(v, "matrixCoefficients"),
        }
    }

    fn to_value(&self) -> (v: Amf0Value)
        ensures
            v@ == Amf0::Object(present(self.fields())),
    {
        let mut l = FieldList::new();
        l.push_num("bitDepth", self.bit_depth);
        l.push_num("colorPrimaries", self.color_primaries);
        l.push_num("transferCharacteristics", self.transfer_characteristics);
        l.push_num("matrixCoefficients", self.matrix_coefficients);
        assert(l@ =~= self.fields());
        let v = Amf0Value::Object(l.into_pairs());
        proof {
            lemma_container_views(v);
        }
        v
    }
}

/// Nothing set.
impl Default for HdrCll {
    fn default() -> (c: HdrCll)
        ensures
            c == HdrCll::none(),
    {
        HdrCll { max_fall: None, max_cll: None }
    }
}

impl HdrCll {
    /// Whether nothing is set.
    pub fn is_empty(&self) -> (b: bool)
        ensures
            b == (*self == HdrCll::none()),
    {
        self.max_fall.is_none() && self.max_cll.is_none()
    }

    fn from_value(v: &Amf0Value) -> (c: HdrCll)
        ensures
            c == HdrCll::of(v@),
    {
        HdrCll { max_fall: opt_num(v, "maxFall"), max_cll: opt_num(v, "maxCLL") }
    }

    fn to_value(&self) -> (v: Amf0Value)
        ensures
            v@ == Amf0::Object(present(self.fields())),
    {
        let mut l = FieldList::new();
        l.push_num("maxFall", self.max_fall);
        l.push_num("maxCLL", self.max_cll);
        assert(l@ =~= self.fields());
        let v = Amf0Value::Object(l.into_pairs());
        proof {
            lemma_container_views(v);
        }
        v
    }
}

/// Nothing set.
impl Default for HdrMdcv {
    fn default() -> (c: HdrMdcv)
        ensures
            c == HdrMdcv::none(),
    {
        HdrMdcv {
            red_x: None,
            red_y: None,
            green_x: None,
            green_y: None,
            blue_x: None,
            blue_y: None,
            white_point_x: None,
            white_point_y: None,
            max_luminance: None,
            min_luminance: None,
        }
    }
}

impl HdrMdcv {
    /// Whether nothing is set.
    pub fn is_empty(&self) -> (b: bool)
        ensures
            b == (*self == HdrMdcv::none()),
    {
        self.red_x.is_none() && self.red_y.is_none() && self.green_x.is_none()
            && self.green_y.is_none() && self.blue_x.is_none() && self.blue_y.is_none()
            && self.white_point_x.is_none() && self.white_point_y.is_none()
            && self.max_luminance.is_none() && self.min_luminance.is_none()
    }

    fn from_value(v: &Amf0Value) -> (c: HdrMdcv)
        ensures
            c == HdrMdcv::of(v@),
    {
        HdrMdcv {
            red_x: opt_num(v, "redX"),
            red_y: opt_num(v, "redY"),
            green_x: opt_num(v, "greenX"),
            green_y: opt_num(v, "greenY"),
            blue_x: opt_num(v, "blueX"),
            blue_y: opt_num(v, "blueY"),
            white_point_x: opt_num(v, "whitePointX"),
            white_point_y: opt_num(v, "whitePointY"),
            max_luminance: opt_num(v, "maxLuminance"),
            min_luminance: opt_num(v, "minLuminance"),
        }
    }

    fn to_value(&self) -> (v: Amf0Value)
        ensures
            v@ == Amf0::Object(present(self.fields())),
    {
        let mut l = FieldList::new();
        l.push_num("redX", self.red_x);
        l.push_num("redY", self.red_y);
        l.push_num("greenX", self.green_x);
        l.push_num("greenY", self.green_y);
        l.push_num("blueX", self.blue_x);
        l.push_num("blueY", self.blue_y);
        l.push_num("whitePointX", self.white_point_x);
        l.push_num("whitePointY", self.white_point_y);
        l.push_num("maxLuminance", self.max_luminance);
        l.push_num("minLuminance", self.min_luminance);
        assert(l@ =~= self.fields());
        let v = Amf0Value::Object(l.into_pairs());
        proof {
            lemma_container_views(v);
        }
        v
    }
}

/// Nothing set.
impl Default for ColorInfo {
    fn default() -> (c: ColorInfo)
        ensures
            c == ColorInfo::none(),
    {
        ColorInfo { color_config: None, hdr_cll: None, hdr_mdcv: None }
    }
}

impl ColorInfo {
    /// What an AMF0 value says.
    pub fn from_amf0(value: &Amf0Value) -> (r: Result<ColorInfo>)
        ensures
            match r {
                Ok(c) => ColorInfo::of(value@) == Ok::<ColorInfo, Fault>(c),
                Err(e) => ColorInfo::of(value@) == Err::<ColorInfo, Fault>(e@),
            },
    {
        let object = match value {
            Amf0Value::Undefined => false,
            Amf0Value::Object(_) => true,
            Amf0Value::EcmaArray(_) => true,
            _ => {
                return Err(other("colorInfo: value must be an Object/ECMA array or Undefined"));
            },
        };
        if !object {
            return Ok(ColorInfo::default());
        }
        let color_config = match value.get("colorConfig") {
            Some(x) => Some(ColorConfig::from_value(x)),
            None => None,
        };
        let hdr_cll = match value.get("hdrCll") {
            Some(x) => Some(HdrCll::from_value(x)),
            None => None,
        };
        let hdr_mdcv = match value.get("hdrMdcv") {
            Some(x) => Some(HdrMdcv::from_value(x)),
            None => None,
        };
        Ok(ColorInfo { color_config, hdr_cll, hdr_mdcv })
    }

    /// Whether this says to go back to the original colours.
    pub fn is_reset(&self) -> (b: bool)
        ensures
            b == (*self == ColorInfo::none()),
    {
        self.color_config.is_none() && self.hdr_cll.is_none() && self.hdr_mdcv.is_none()
    }

    /// The AMF0 value.
    pub fn to_amf0(&self) -> (v: Amf0Value)
        ensures
            v@ == self.value(),
    {
        if self.is_reset() {
            return Amf0Value::Undefined;
        }
        let mut l = FieldList::new();
        match &self.color_config {
            Some(x) => l.push("colorConfig", Some(x.to_value())),
            None => l.push("colorConfig", None),
        }
        match &self.hdr_cll {
            Some(x) => l.push("hdrCll", Some(x.to_value())),
            None => l.push("hdrCll", None),
        }
        match &self.hdr_mdcv {
            Some(x) => l.push("hdrMdcv", Some(x.to_value())),
            None => l.push("hdrMdcv", None),
        }
        assert(l@ =~= self.fields());
        let v = Amf0Value::Object(l.into_pairs());
        proof {
            lemma_container_views(v);
        }
        v
    }
}

impl VideoTag {
    /// The colour metadata that this tag holds: none where it is not a metadata
    /// tag or does not name any.
    pub fn color_info(&self) -> (r: Result<Option<ColorInfo>>)
        ensures
            match r {
                Ok(c) => color_info_of(self@) == Ok::<Option<ColorInfo>, Fault>(c),
                Err(e) => color_info_of(self@) == Err::<Option<ColorInfo>, Fault>(e@),
            },
    {
        if !self.is_ex_metadata() {
            return Ok(None);
        }
        let values = match decode_all(self.body.as_slice()) {
            Err(e) => {
                return Err(e);
            },
            Ok(v) => v,
        };
        let n: usize = values.len();
        let mut i: usize = 0;
        while n - i >= 2
            invariant
                i <= n,
                n == values@.len(),
                is_of_type(self@, EX_PACKET_TYPE_METADATA),
                values_of(self@.body) == Ok::<Seq<Amf0>, Fault>(views(values@)),
                color_info_of(self@) == color_info_among(views(values@), i as int),
            decreases n - i,
        {
            let named = match &values[i] {
                Amf0Value::String(s) => same_text(s.as_str(), "colorInfo"),
                _ => false,
            };
            if named {
                return match ColorInfo::from_amf0(&values[i + 1]) {
                    Ok(c) => Ok(Some(c)),
                    Err(e) => Err(e),
                };
            }
            i = i + 2;
        }
        Ok(None)
    }

    /// A metadata tag that holds the given colour metadata.
    pub fn color_info_tag(fourcc: [u8; 4], color_info: &ColorInfo) -> (t: VideoTag)
        ensures
            t@ == extended_tag(
                VIDEO_FRAME_INFO,
                EX_PACKET_TYPE_METADATA,
                Some(fourcc@),
                color_info_body(*color_info),
            ),
    {
        let mut body: Vec<u8> = Vec::new();
        encode(&mut body, &Amf0Value::String("colorInfo".to_owned()));
        encode(&mut body, &color_info.to_amf0());
        proof {
            let a = Amf0::String("colorInfo"@);
            let b = color_info.value();
            let all = seq![a, b];
            let one = all.subrange(1, 2);
            assert(one.subrange(1, 1) =~= Seq::empty());
            assert(items_bytes(one.subrange(1, 1)) =~= Seq::empty());
            assert(items_bytes(one) =~= encoded(b));
            assert(body@ =~= items_bytes(all));
        }
        extended(VIDEO_FRAME_INFO, EX_PACKET_TYPE_METADATA, Some(fourcc), body)
    }
}

// ---------------------------------------------------------------------------
// Laws
// ---------------------------------------------------------------------------

proof fn lemma_color_config(c: ColorConfig)
    ensures
        ColorConfig::of(Amf0::Object(present(c.fields()))) == c,
        pairs_fit(present(c.fields()), 62),
{
    reveal_strlit("bitDepth");
    reveal_strlit("colorPrimaries");
    reveal_strlit("transferCharacteristics");
    reveal_strlit("matrixCoefficients");
    let f = c.fields();
    lemma_marked(
        f,
        seq![
            mark("bitDepth"@),
            mark("colorPrimaries"@),
            mark("transferCharacteristics"@),
            mark("matrixCoefficients"@),
        ],
    );
    lemma_first_present(f, 0);
    lemma_first_present(f, 1);
    lemma_first_present(f, 2);
    lemma_first_present(f, 3);
    lemma_present_fits(f, 62);
}

proof fn lemma_hdr_cll(c: HdrCll)
    ensures
        HdrCll::of(Amf0::Object(present(c.fields()))) == c,
        pairs_fit(present(c.fields()), 62),
{
    reveal_strlit("maxFall");
    reveal_strlit("maxCLL");
    let f = c.fields();
    lemma_marked(f, seq![mark("maxFall"@), mark("maxCLL"@)]);
    lemma_first_present(f, 0);
    lemma_first_present(f, 1);
    lemma_present_fits(f, 62);
}

proof fn lemma_hdr_mdcv(c: HdrMdcv)
    ensures
        HdrMdcv::of(Amf0::Object(present(c.fields()))) == c,
        pairs_fit(present(c.fields()), 62),
{
    reveal_strlit("redX");
    reveal_strlit("redY");
    reveal_strlit("greenX");
    reveal_strlit("greenY");
    reveal_strlit("blueX");
    reveal_strlit("blueY");
    reveal_strlit("whitePointX");
    reveal_strlit("whitePointY");
    reveal_strlit("maxLuminance");
    reveal_strlit("minLuminance");
    let f = c.fields();
    lemma_marked(
        f,
        seq![
            mark("redX"@),
            mark("redY"@),
            mark("greenX"@),
            mark("greenY"@),
            mark("blueX"@),
            mark("blueY"@),
            mark("whitePointX"@),
            mark("whitePointY"@),
            mark("maxLuminance"@),
            mark("minLuminance"@),
        ],
    );
    lemma_first_present(f, 0);
    lemma_first_present(f, 1);
    lemma_first_present(f, 2);
    lemma_first_present(f, 3);
    lemma_first_present(f, 4);
    lemma_first_present(f, 5);
    lemma_first_present(f, 6);
    lemma_first_present(f, 7);
    lemma_first_present(f, 8);
    lemma_first_present(f, 9);
    lemma_present_fits(f, 62);
}

proof fn lemma_parts(c: ColorInfo)
    ensures
        ColorInfo::parts_of(Amf0::Object(present(c.fields()))) == c,
        pairs_fit(present(c.fields()), 63),
{
    reveal_strlit("colorConfig");
    reveal_strlit("hdrCll");
    reveal_strlit("hdrMdcv");
    let f = c.fields();
    if let Some(x) = c.color_config {
        lemma_color_config(x);
    }
    if let Some(x) = c.hdr_cll {
        lemma_hdr_cll(x);
    }
    if let Some(x) = c.hdr_mdcv {
        lemma_hdr_mdcv(x);
    }
    lemma_marked(f, seq![mark("colorConfig"@), mark("hdrCll"@), mark("hdrMdcv"@)]);
    lemma_first_present(f, 0);
    lemma_first_present(f, 1);
    lemma_first_present(f, 2);
    lemma_present_fits(f, 63);
}

/// Colour metadata reads back as it was written, also where parts or properties
/// are absent, and a part that is there but empty stays apart from an absent
/// one.
pub proof fn law_color_info_round_trip(c: ColorInfo)
    ensures
        ColorInfo::of(c.value()) == Ok::<ColorInfo, Fault>(c),
{
    lemma_parts(c);
}

/// A tag made of colour metadata gives it back.
pub proof fn law_color_info_tag_round_trip(fourcc: Seq<u8>, c: ColorInfo)
    ensures
        color_info_of(
            extended_tag(
                VIDEO_FRAME_INFO,
                EX_PACKET_TYPE_METADATA,
                Some(fourcc),
                color_info_body(c),
            ),
        ) == Ok::<Option<ColorInfo>, Fault>(Some(c)),
{
    lemma_parts(c);
    reveal_strlit("colorInfo");
    crate::amf_fields::lemma_utf8_length("colorInfo"@);
    let a = Amf0::String("colorInfo"@);
    let b = c.value();
    let all = seq![a, b];
    let one = all.subrange(1, 2);
    assert(fits(a, 64));
    assert(fits(b, 64));
    assert(one.subrange(1, 1) =~= Seq::empty());
    assert(items_fit(one.subrange(1, 1), 64));
    assert(items_fit(one, 64));
    assert(items_fit(all, 64));
    law_message_round_trip(all);
    law_color_info_round_trip(c);
}

/// The first value of a name, if that is a number.
pub open spec fn number_under(v: Amf0, key: Seq<char>) -> Option<Double> {
    match v.get(key) {
        Some(Amf0::Number(bits)) => Some(Double { bits }),
        _ => None,
    }
}

/// Each part of the colour metadata is what stands under its own name: `colorConfig`,
/// `hdrCll` and `hdrMdcv`; and in each of them each number stands under its own.
pub proof fn law_colors_are_said_under_their_own_names(
    value: &Amf0Value,
    r: Result<ColorInfo>,
    x: Amf0,
)
    requires
        call_ensures(ColorInfo::from_amf0, (value,), r),
        value@ is Object || value@ is EcmaArray,
    ensures
        r is Ok,
        value@.get("colorConfig"@) is None ==> r->Ok_0.color_config is None,
        value@.get("colorConfig"@) == Some(x) ==> (r->Ok_0.color_config matches Some(c) && {
            &&& c.bit_depth == number_under(x, "bitDepth"@)
            &&& c.color_primaries == number_under(x, "colorPrimaries"@)
            &&& c.transfer_characteristics == number_under(x, "transferCharacteristics"@)
            &&& c.matrix_coefficients == number_under(x, "matrixCoefficients"@)
        }),
        value@.get("hdrCll"@) is None ==> r->Ok_0.hdr_cll is None,
        value@.get("hdrCll"@) == Some(x) ==> (r->Ok_0.hdr_cll matches Some(c) && {
            &&& c.max_fall == number_under(x, "maxFall"@)
            &&& c.max_cll == number_under(x, "maxCLL"@)
        }),
        value@.get("hdrMdcv"@) is None ==> r->Ok_0.hdr_mdcv is None,
        value@.get("hdrMdcv"@) == Some(x) ==> (r->Ok_0.hdr_mdcv matches Some(c) && {
            &&& c.red_x == number_under(x, "redX"@)
            &&& c.red_y == number_under(x, "redY"@)
            &&& c.green_x == number_under(x, "greenX"@)
            &&& c.green_y == number_under(x, "greenY"@)
            &&& c.blue_x == number_under(x, "blueX"@)
            &&& c.blue_y == number_under(x, "blueY"@)
            &&& c.white_point_x == number_under(x, "whitePointX"@)
            &&& c.white_point_y == number_under(x, "whitePointY"@)
            &&& c.max_luminance == number_under(x, "maxLuminance"@)
            &&& c.min_luminance == number_under(x, "minLuminance"@)
        }),
{
}

/// An object and an ECMA array say the same, an undefined value says nothing, and any
/// other value is refused.
pub proof fn law_what_says_colors(p: Seq<(Seq<char>, Amf0)>, v: Amf0)
    ensures
        ColorInfo::of(Amf0::Object(p)) == ColorInfo::of(Amf0::EcmaArray(p)),
        ColorInfo::of(Amf0::Undefined) matches Ok(c) && c.color_config is None && c.hdr_cll is None
            && c.hdr_mdcv is None,
        !(v is Object) && !(v is EcmaArray) && !(v is Undefined) ==> ColorInfo::of(v) == Err::<
            ColorInfo,
            Fault,
        >(Fault::Other("colorInfo: value must be an Object/ECMA array or Undefined"@)),
{
}

/// Colours are written in this order, and as undefined where there is nothing to say.
pub proof fn law_colors_are_written_in_order(
    info: &ColorInfo,
    v: Amf0Value,
    c: ColorConfig,
    l: HdrCll,
    m: HdrMdcv,
)
    requires
        call_ensures(ColorInfo::to_amf0, (info,), v),
    ensures
        ({
            &&& c.fields().len() == 4
            &&& c.fields()[0] == number_field("bitDepth"@, c.bit_depth)
            &&& c.fields()[1] == number_field("colorPrimaries"@, c.color_primaries)
            &&& c.fields()[2] == number_field("transferCharacteristics"@, c.transfer_characteristics)
            &&& c.fields()[3] == number_field("matrixCoefficients"@, c.matrix_coefficients)
        }),
        ({
            &&& l.fields().len() == 2
            &&& l.fields()[0] == number_field("maxFall"@, l.max_fall)
            &&& l.fields()[1] == number_field("maxCLL"@, l.max_cll)
        }),
        ({
            &&& m.fields().len() == 10
            &&& m.fields()[0] == number_field("redX"@, m.red_x)
            &&& m.fields()[1] == number_field("redY"@, m.red_y)
            &&& m.fields()[2] == number_field("greenX"@, m.green_x)
            &&& m.fields()[3] == number_field("greenY"@, m.green_y)
            &&& m.fields()[4] == number_field("blueX"@, m.blue_x)
            &&& m.fields()[5] == number_field("blueY"@, m.blue_y)
            &&& m.fields()[6] == number_field("whitePointX"@, m.white_point_x)
            &&& m.fields()[7] == number_field("whitePointY"@, m.white_point_y)
            &&& m.fields()[8] == number_field("maxLuminance"@, m.max_luminance)
            &&& m.fields()[9] == number_field("minLuminance"@, m.min_luminance)
        }),
        info.color_config is None && info.hdr_cll is None && info.hdr_mdcv is None ==> v@
            is Undefined,
        info.color_config is Some || info.hdr_cll is Some || info.hdr_mdcv is Some ==> v@
            == Amf0::Object(
            (match info.color_config {
                Some(x) => seq![("colorConfig"@, Amf0::Object(present(x.fields())))],
                None => Seq::empty(),
            }) + (match info.hdr_cll {
                Some(x) => seq![("hdrCll"@, Amf0::Object(present(x.fields())))],
                None => Seq::empty(),
            }) + (match info.hdr_mdcv {
                Some(x) => seq![("hdrMdcv"@, Amf0::Object(present(x.fields())))],
                None => Seq::empty(),
            }),
        ),
{
    let f = info.fields();
    let one = f.drop_last();
    let two = one.drop_last();
    assert(two.drop_last() =~= Seq::empty());
    assert(present(two.drop_last()) == Seq::<(Seq<char>, Amf0)>::empty());
    assert(present(two) =~= crate::amf_fields::one(f[0]));
    assert(present(one) == present(two) + crate::amf_fields::one(f[1]));
    assert(present(f) == present(one) + crate::amf_fields::one(f[2]));
}

/// Colours are looked for in metadata tags only, packet type 4 under a FourCC: there names
/// and values take turns, and the value behind the first name `colorInfo` counts.
pub proof fn law_colors_of_a_tag(tag: &VideoTag, r: Result<Option<ColorInfo>>, i: int)
    requires
        call_ensures(VideoTag::color_info, (tag,), r),
    ensures
        tag.fourcc is None || tag.ex_packet_type != Some(4u8) ==> (r matches Ok(x) && x is None),
        tag.fourcc is Some && tag.ex_packet_type == Some(4u8) ==> (match values_of(tag.body@) {
            Err(f) => r matches Err(e) && e@ == f,
            Ok(v) => {
                &&& 0 <= i && 2 * i + 1 < v.len() && v[2 * i] == Amf0::String("colorInfo"@) && (
                forall|j: int|
                    0 <= j < i ==> #[trigger] at_turn(v, j) != Amf0::String("colorInfo"@)) ==> (
                match ColorInfo::of(v[2 * i + 1]) {
                    Ok(c) => r matches Ok(Some(x)) && x == c,
                    Err(f) => r matches Err(e) && e@ == f,
                })
                &&& (forall|j: int|
                    0 <= j && 2 * j + 1 < v.len() ==> #[trigger] at_turn(v, j) != Amf0::String(
                        "colorInfo"@,
                    )) ==> (r matches Ok(x) && x is None)
            },
        }),
{
    if tag.fourcc is Some && tag.ex_packet_type == Some(4u8) {
        if let Ok(v) = values_of(tag.body@) {
            if 0 <= i && 2 * i + 1 < v.len() && v[2 * i] == Amf0::String("colorInfo"@) && (
            forall|j: int|
                0 <= j < i ==> #[trigger] at_turn(v, j) != Amf0::String("colorInfo"@)) {
                lemma_turns(v, 0, i);
            }
            if forall|j: int|
                0 <= j && 2 * j + 1 < v.len() ==> #[trigger] at_turn(v, j) != Amf0::String(
                    "colorInfo"@,
                ) {
                lemma_no_turn(v, 0);
            }
        }
    }
}

/// The `j`th name where names and values take turns.
pub open spec fn at_turn(v: Seq<Amf0>, j: int) -> Amf0 {
    v[2 * j]
}

proof fn lemma_turns(v: Seq<Amf0>, k: int, i: int)
    requires
        0 <= k <= i,
        2 * i + 1 < v.len(),
        v[2 * i] == Amf0::String("colorInfo"@),
        forall|j: int| k <= j < i ==> #[trigger] at_turn(v, j) != Amf0::String("colorInfo"@),
    ensures
        color_info_among(v, 2 * k) == (match ColorInfo::of(v[2 * i + 1]) {
            Ok(c) => Ok::<Option<ColorInfo>, Fault>(Some(c)),
            Err(f) => Err::<Option<ColorInfo>, Fault>(f),
        }),
    decreases i - k,
{
    if k < i {
        assert(at_turn(v, k) != Amf0::String("colorInfo"@));
        lemma_turns(v, k + 1, i);
    }
}

proof fn lemma_no_turn(v: Seq<Amf0>, k: int)
    requires
        0 <= k,
        forall|j: int|
            k <= j && 2 * j + 1 < v.len() ==> #[trigger] at_turn(v, j) != Amf0::String(
                "colorInfo"@,
            ),
    ensures
        color_info_among(v, 2 * k) == Ok::<Option<ColorInfo>, Fault>(None),
    decreases v.len() - k,
{
    if 2 * k + 1 < v.len() {
        assert(at_turn(v, k) != Amf0::String("colorInfo"@));
        lemma_no_turn(v, k + 1);
    }
}

/// A tag with colours is an information frame, type 5, of packet type 4 under its FourCC;
/// its body is the name `colorInfo` and the colours in AMF0.
pub proof fn law_tag_of_colors(fourcc: [u8; 4], info: &ColorInfo, t: VideoTag)
    requires
        call_ensures(VideoTag::color_info_tag, (fourcc, info), t),
    ensures
        t.frame_type == 5,
        t.ex_packet_type == Some(4u8),
        t.fourcc matches Some(f) && f@ == fourcc@,
        t.body@ == encoded(Amf0::String("colorInfo"@)) + encoded(info.value()),
        t.mod_ex@.len() == 0,
        t.multitrack is None,
        t.composition_time == 0,
{
    let b = info.value();
    let all = seq![Amf0::String("colorInfo"@), b];
    let one = all.subrange(1, 2);
    assert(one.subrange(1, 1) =~= Seq::empty());
    assert(items_bytes(one.subrange(1, 1)) =~= Seq::empty());
    assert(items_bytes(one) =~= encoded(b));
    assert(t@.mod_ex.len() == 0);
}

/// A part says nothing where none of its numbers is there.
pub proof fn law_empty_parts(
    c: &ColorConfig,
    l: &HdrCll,
    m: &HdrMdcv,
    info: &ColorInfo,
    a: bool,
    b: bool,
    d: bool,
    e: bool,
)
    requires
        call_ensures(ColorConfig::is_empty, (c,), a),
        call_ensures(HdrCll::is_empty, (l,), b),
        call_ensures(HdrMdcv::is_empty, (m,), d),
        call_ensures(ColorInfo::is_reset, (info,), e),
    ensures
        a <==> c.bit_depth is None && c.color_primaries is None && c.transfer_characteristics is None
            && c.matrix_coefficients is None,
        b <==> l.max_fall is None && l.max_cll is None,
        d <==> m.red_x is None && m.red_y is None && m.green_x is None && m.green_y is None
            && m.blue_x is None && m.blue_y is None && m.white_point_x is None
            && m.white_point_y is None && m.max_luminance is None && m.min_luminance is None,
        e <==> info.color_config is None && info.hdr_cll is None && info.hdr_mdcv is None,
{
}

} // verus!
