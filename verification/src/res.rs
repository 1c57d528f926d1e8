//! The resources of an OFD document (`PublicRes.xml`, `DocumentRes.xml` and
//! those of pages): color spaces, drawing parameters, fonts, media and
//! composite graphic units.
use crate::dom::{
    all_ok, attr_text_of, bool_of, check, child_text_of, float_of, floats_of, lemma_all_ok_prefix,
    named_children, no_attr, no_elem, opt_nat_u64, opt_nat_u8, opt_u16s, opt_view, opt_words,
    outcome, read_bool, read_float, read_floats, read_str, read_u16s, read_u8, read_uint,
    req_attr, req_elem, required, str_of, then, u16s_view, uint_of, uints_of, view_opt_ref,
    DomFault, TryFromDom, TryFromDomError,
};
use crate::graphic::{
    cap_of, color_outcome, color_read, join_of, read_cap, read_join, unit_outcome, unit_read, Cap,
    CtColor, Join, VtGraphicUnit,
};
use crate::value::{StArray, ValueError};
use crate::xml::{attr_of, child_of, child_text, children_named, str_eq, XmlElement};
use vstd::prelude::*;

verus! {

pub struct ResourceXmlFile {
    pub base_loc: String,
    pub resources: Option<Vec<Resource>>,
}

pub enum Resource {
    ColorSpaces(ColorSpaces),
    DrawParams(DrawParams),
    Fonts(Fonts),
    MultiMedias(MultiMedias),
    CompositeGraphicUnits(CompositeGraphicUnits),
}

pub struct ColorSpaces {
    pub color_spaces: Vec<ColorSpace>,
}

#[derive(Debug, PartialEq, Eq, Structural, Clone, Copy)]
pub enum Type {
    RGB,
    GRAY,
    CMYK,
}

impl Type {
    /// The number of channels of a color in the space.
    pub fn channel_count(&self) -> (n: usize)
        ensures
            n == match *self {
                Type::RGB => 3usize,
                Type::GRAY => 1usize,
                Type::CMYK => 4usize,
            },
    {
        match self {
            Type::RGB => 3,
            Type::GRAY => 1,
            Type::CMYK => 4,
        }
    }

    /// Reads a variant from its name.
    pub fn from_str(s: &str) -> (r: Result<Type, ValueError>)
        ensures
            match spec_color_type(s@) {
                Some(v) => r == Ok::<Type, ValueError>(v),
                None => r == Err::<Type, ValueError>(ValueError::ParseEnum),
            },
    {
        if str_eq(s, "RGB") {
            Ok(Type::RGB)
        } else if str_eq(s, "GRAY") {
            Ok(Type::GRAY)
        } else if str_eq(s, "CMYK") {
            Ok(Type::CMYK)
        } else {
            Err(ValueError::ParseEnum)
        }
    }
}

pub struct ColorSpace {
    pub id: u64,
    pub typ: Type,
    /// default 8
    pub bits_per_component: Option<u8>,
    pub profile: Option<String>,
    pub palette: Option<Palette>,
}

/// The color space that stands where none is named or found: RGB with eight
/// bits to a component.
pub open spec fn spec_srgb() -> ColorSpace {
    ColorSpace { id: 0, typ: Type::RGB, bits_per_component: Some(8), profile: None, palette: None }
}

/// The sRGB color space, the fallback of color lookups.
pub fn srgb() -> (cs: ColorSpace)
    ensures
        cs == spec_srgb(),
{
    ColorSpace { id: 0, typ: Type::RGB, bits_per_component: Some(8), profile: None, palette: None }
}

/// A table of colors: the position of a color is its index.
pub struct Palette {
    pub cv: Vec<StArray<u16>>,
}

/// A color space as the common types describe it.
pub struct CtColorSpace {
    pub typ: String,
    /// default 8
    pub bits_per_component: Option<u8>,
    pub profile: Option<String>,
    pub palette: Palette,
}

pub struct DrawParams {
    pub draw_params: Vec<DrawParam>,
}

pub struct DrawParam {
    pub id: u64,
    pub relative: Option<u64>,
    /// default 0.353
    pub line_width: Option<String>,
    /// default Miter
    pub join: Option<Join>,
    /// default Butt
    pub cap: Option<Cap>,
    /// default 0
    pub dash_offset: Option<String>,
    pub dash_pattern: Option<StArray<String>>,
    /// default 4.234
    pub miter_limit: Option<String>,
    pub fill_color: Option<CtColor>,
    pub stroke_color: Option<CtColor>,
}

/// Drawing parameters as the common types describe them.
pub struct CtDrawParam {
    pub relative: Option<u64>,
    /// default 0.353
    pub line_width: Option<String>,
    /// default Miter
    pub join: Option<Join>,
    /// default Butt
    pub cap: Option<Cap>,
    /// default 0
    pub dash_offset: Option<String>,
    pub dash_pattern: Option<StArray<String>>,
    /// default 4.234
    pub miter_limit: Option<String>,
    pub fill_color: Option<CtColor>,
    pub stroke_color: Option<CtColor>,
}

pub struct Fonts {
    pub fonts: Vec<Font>,
}

pub struct Font {
    pub id: u64,
    pub font_name: String,
    pub family_name: Option<String>,
    /// default unicode
    pub charset: Option<String>,
    pub italic: Option<bool>,
    pub bold: Option<bool>,
    pub serif: Option<bool>,
    pub fixed_width: Option<bool>,
    pub font_file: Option<String>,
}

/// CT_Font
pub struct CtFont {
    pub font_name: String,
    pub family_name: Option<String>,
    pub charset: Option<String>,
    pub italic: Option<bool>,
    pub bold: Option<bool>,
    pub serif: Option<bool>,
    pub fixed_width: Option<bool>,
    pub font_file: Option<String>,
}

pub struct MultiMedias {
    pub multi_medias: Vec<MultiMedia>,
}

pub struct MultiMedia {
    pub id: u64,
    pub typ: MultiMediaType,
    pub format: Option<String>,
    pub media_file: String,
}

#[derive(Debug, PartialEq, Eq, Structural, Clone, Copy)]
pub enum MultiMediaType {
    Video,
    Audio,
    Image,
}

impl MultiMediaType {
    /// Reads a variant from its name.
    pub fn from_str(s: &str) -> (r: Result<MultiMediaType, ValueError>)
        ensures
            match spec_media_type(s@) {
                Some(v) => r == Ok::<MultiMediaType, ValueError>(v),
                None => r == Err::<MultiMediaType, ValueError>(ValueError::ParseEnum),
            },
    {
        if str_eq(s, "Video") {
            Ok(MultiMediaType::Video)
        } else if str_eq(s, "Audio") {
            Ok(MultiMediaType::Audio)
        } else if str_eq(s, "Image") {
            Ok(MultiMediaType::Image)
        } else {
            Err(ValueError::ParseEnum)
        }
    }
}

pub struct CompositeGraphicUnits {
    pub composite_graphic_units: Vec<CompositeGraphicUnit>,
}

pub struct CompositeGraphicUnit {
    pub id: u64,
    pub content: VtGraphicUnit,
}

// ---------------------------------------------------------------------------
// Names of variants
// ---------------------------------------------------------------------------

pub open spec fn spec_color_type(s: Seq<char>) -> Option<Type> {
    if s == "RGB"@ {
        Some(Type::RGB)
    } else if s == "GRAY"@ {
        Some(Type::GRAY)
    } else if s == "CMYK"@ {
        Some(Type::CMYK)
    } else {
        None
    }
}

pub open spec fn spec_media_type(s: Seq<char>) -> Option<MultiMediaType> {
    if s == "Video"@ {
        Some(MultiMediaType::Video)
    } else if s == "Audio"@ {
        Some(MultiMediaType::Audio)
    } else if s == "Image"@ {
        Some(MultiMediaType::Image)
    } else {
        None
    }
}

pub open spec fn color_type_of(o: Option<Seq<char>>) -> Result<Option<Type>, DomFault> {
    match o {
        None => Ok(None),
        Some(s) => match spec_color_type(s) {
            Some(v) => Ok(Some(v)),
            None => Err(DomFault::Warp(ValueError::ParseEnum)),
        },
    }
}

pub open spec fn media_type_of(o: Option<Seq<char>>) -> Result<Option<MultiMediaType>, DomFault> {
    match o {
        None => Ok(None),
        Some(s) => match spec_media_type(s) {
            Some(v) => Ok(Some(v)),
            None => Err(DomFault::Warp(ValueError::ParseEnum)),
        },
    }
}

// ---------------------------------------------------------------------------
// What each structure needs of its element
// ---------------------------------------------------------------------------

pub open spec fn cv_outcome(e: XmlElement) -> Result<(), DomFault> {
    check(uints_of(Some(e.text@), u16::MAX as int))
}

pub open spec fn palette_outcome(e: XmlElement) -> Result<(), DomFault> {
    match all_ok(children_named(e, "CV"@), |c: XmlElement| cv_outcome(c)) {
        Err(f) => Err(f),
        Ok(_) => if children_named(e, "CV"@).len() == 0 {
            Err(no_elem("CV"@))
        } else {
            Ok(())
        },
    }
}

impl Palette {
    pub open spec fn read_from(self, e: XmlElement) -> bool {
        &&& self.cv@.len() == children_named(e, "CV"@).len()
        &&& forall|i: int|
            0 <= i < self.cv@.len() ==> uints_of(
                Some(children_named(e, "CV"@)[i].text@),
                u16::MAX as int,
            ) == Ok::<Option<Seq<nat>>, DomFault>(Some(u16s_view(#[trigger] self.cv@[i])))
    }
}

pub open spec fn color_space_outcome(e: XmlElement) -> Result<(), DomFault> {
    then(check(required(uint_of(attr_of(e, "ID"@), u64::MAX as int), no_attr("ID"@))),
    then(check(required(color_type_of(attr_of(e, "Type"@)), no_attr("Type"@))),
    then(check(uint_of(attr_of(e, "BitsPerComponent"@), u8::MAX as int)),
    match child_of(e, "Palette"@) {
        None => Ok(()),
        Some(c) => palette_outcome(c),
    })))
}

impl ColorSpace {
    pub open spec fn read_from(self, e: XmlElement) -> bool {
        &&& uint_of(attr_of(e, "ID"@), u64::MAX as int) == Ok::<Option<nat>, DomFault>(
            Some(self.id as nat),
        )
        &&& color_type_of(attr_of(e, "Type"@)) == Ok::<Option<Type>, DomFault>(Some(self.typ))
        &&& uint_of(attr_of(e, "BitsPerComponent"@), u8::MAX as int) == Ok::<Option<nat>, DomFault>(
            opt_nat_u8(self.bits_per_component),
        )
        &&& opt_view(self.profile) == attr_of(e, "Profile"@)
        &&& match child_of(e, "Palette"@) {
            None => self.palette is None,
            Some(c) => self.palette matches Some(p) && p.read_from(c),
        }
    }
}

pub open spec fn color_spaces_outcome(e: XmlElement) -> Result<(), DomFault> {
    all_ok(e.children@, |c: XmlElement| color_space_outcome(c))
}

impl ColorSpaces {
    pub open spec fn read_from(self, e: XmlElement) -> bool {
        &&& self.color_spaces@.len() == e.children@.len()
        &&& forall|i: int|
            0 <= i < e.children@.len() ==> (#[trigger] self.color_spaces@[i]).read_from(
                e.children@[i],
            )
    }
}

pub open spec fn color_child_of(e: XmlElement, n: Seq<char>) -> Result<(), DomFault> {
    match child_of(e, n) {
        None => Ok(()),
        Some(c) => color_outcome(c),
    }
}

pub open spec fn color_child_is(v: Option<CtColor>, e: XmlElement, n: Seq<char>) -> bool {
    match child_of(e, n) {
        None => v is None,
        Some(c) => v matches Some(x) && color_read(x, c),
    }
}

/// Whether a draw parameter can be read from `e`.
pub open spec fn draw_param_outcome(e: XmlElement) -> Result<(), DomFault> {
    then(check(required(uint_of(attr_of(e, "ID"@), u64::MAX as int), no_attr("ID"@))),
    then(check(uint_of(attr_of(e, "Relative"@), u64::MAX as int)),
    then(check(float_of(attr_of(e, "LineWidth"@))),
    then(check(join_of(attr_of(e, "Join"@))),
    then(check(cap_of(attr_of(e, "Cap"@))),
    then(check(float_of(attr_of(e, "DashOffset"@))),
    then(check(floats_of(attr_of(e, "DashPattern"@))),
    then(check(float_of(attr_of(e, "MiterLimit"@))),
    then(color_child_of(e, "FillColor"@), color_child_of(e, "StrokeColor"@))))))))))
}

impl DrawParam {
    pub open spec fn read_from(self, e: XmlElement) -> bool {
        &&& uint_of(attr_of(e, "ID"@), u64::MAX as int) == Ok::<Option<nat>, DomFault>(
            Some(self.id as nat),
        )
        &&& uint_of(attr_of(e, "Relative"@), u64::MAX as int) == Ok::<Option<nat>, DomFault>(
            opt_nat_u64(self.relative),
        )
        &&& float_of(attr_of(e, "LineWidth"@)) == Ok::<Option<Seq<char>>, DomFault>(
            opt_view(self.line_width),
        )
        &&& join_of(attr_of(e, "Join"@)) == Ok::<Option<Join>, DomFault>(self.join)
        &&& cap_of(attr_of(e, "Cap"@)) == Ok::<Option<Cap>, DomFault>(self.cap)
        &&& float_of(attr_of(e, "DashOffset"@)) == Ok::<Option<Seq<char>>, DomFault>(
            opt_view(self.dash_offset),
        )
        &&& floats_of(attr_of(e, "DashPattern"@)) == Ok::<Option<Seq<Seq<char>>>, DomFault>(
            opt_words(self.dash_pattern),
        )
        &&& float_of(attr_of(e, "MiterLimit"@)) == Ok::<Option<Seq<char>>, DomFault>(
            opt_view(self.miter_limit),
        )
        &&& color_child_is(self.fill_color, e, "FillColor"@)
        &&& color_child_is(self.stroke_color, e, "StrokeColor"@)
    }
}

pub open spec fn draw_params_outcome(e: XmlElement) -> Result<(), DomFault> {
    all_ok(e.children@, |c: XmlElement| draw_param_outcome(c))
}

impl DrawParams {
    pub open spec fn read_from(self, e: XmlElement) -> bool {
        &&& self.draw_params@.len() == e.children@.len()
        &&& forall|i: int|
            0 <= i < e.children@.len() ==> (#[trigger] self.draw_params@[i]).read_from(
                e.children@[i],
            )
    }
}

pub open spec fn font_outcome(e: XmlElement) -> Result<(), DomFault> {
    then(check(required(uint_of(attr_of(e, "ID"@), u64::MAX as int), no_attr("ID"@))),
    then(check(required(str_of(attr_of(e, "FontName"@)), no_attr("FontName"@))),
    then(check(bool_of(attr_of(e, "Italic"@))),
    then(check(bool_of(attr_of(e, "Bold"@))),
    then(check(bool_of(attr_of(e, "Serif"@))), check(bool_of(attr_of(e, "FixedWidth"@))))))))
}

impl Font {
    pub open spec fn read_from(self, e: XmlElement) -> bool {
        &&& uint_of(attr_of(e, "ID"@), u64::MAX as int) == Ok::<Option<nat>, DomFault>(
            Some(self.id as nat),
        )
        &&& attr_of(e, "FontName"@) == Some(self.font_name@)
        &&& opt_view(self.family_name) == attr_of(e, "FamilyName"@)
        &&& opt_view(self.charset) == attr_of(e, "Charset"@)
        &&& bool_of(attr_of(e, "Italic"@)) == Ok::<Option<bool>, DomFault>(self.italic)
        &&& bool_of(attr_of(e, "Bold"@)) == Ok::<Option<bool>, DomFault>(self.bold)
        &&& bool_of(attr_of(e, "Serif"@)) == Ok::<Option<bool>, DomFault>(self.serif)
        &&& bool_of(attr_of(e, "FixedWidth"@)) == Ok::<Option<bool>, DomFault>(self.fixed_width)
        &&& opt_view(self.font_file) == child_text(e, "FontFile"@)
    }
}

pub open spec fn fonts_outcome(e: XmlElement) -> Result<(), DomFault> {
    all_ok(e.children@, |c: XmlElement| font_outcome(c))
}

impl Fonts {
    pub open spec fn read_from(self, e: XmlElement) -> bool {
        &&& self.fonts@.len() == e.children@.len()
        &&& forall|i: int|
            0 <= i < e.children@.len() ==> (#[trigger] self.fonts@[i]).read_from(e.children@[i])
    }
}

pub open spec fn media_outcome(e: XmlElement) -> Result<(), DomFault> {
    then(check(required(uint_of(attr_of(e, "ID"@), u64::MAX as int), no_attr("ID"@))),
    then(check(required(media_type_of(attr_of(e, "Type"@)), no_attr("Type"@))),
    check(required(str_of(child_text(e, "MediaFile"@)), no_elem("MediaFile"@)))))
}

impl MultiMedia {
    pub open spec fn read_from(self, e: XmlElement) -> bool {
        &&& uint_of(attr_of(e, "ID"@), u64::MAX as int) == Ok::<Option<nat>, DomFault>(
            Some(self.id as nat),
        )
        &&& media_type_of(attr_of(e, "Type"@)) == Ok::<Option<MultiMediaType>, DomFault>(
            Some(self.typ),
        )
        &&& opt_view(self.format) == attr_of(e, "Format"@)
        &&& child_text(e, "MediaFile"@) == Some(self.media_file@)
    }
}

pub open spec fn medias_outcome(e: XmlElement) -> Result<(), DomFault> {
    all_ok(e.children@, |c: XmlElement| media_outcome(c))
}

impl MultiMedias {
    pub open spec fn read_from(self, e: XmlElement) -> bool {
        &&& self.multi_medias@.len() == e.children@.len()
        &&& forall|i: int|
            0 <= i < e.children@.len() ==> (#[trigger] self.multi_medias@[i]).read_from(
                e.children@[i],
            )
    }
}

pub open spec fn composite_outcome(e: XmlElement) -> Result<(), DomFault> {
    then(check(required(uint_of(attr_of(e, "ID"@), u64::MAX as int), no_attr("ID"@))),
    match child_of(e, "Content"@) {
        None => Err(no_elem("Content"@)),
        Some(c) => unit_outcome(c),
    })
}

impl CompositeGraphicUnit {
    pub open spec fn read_from(self, e: XmlElement) -> bool {
        &&& uint_of(attr_of(e, "ID"@), u64::MAX as int) == Ok::<Option<nat>, DomFault>(
            Some(self.id as nat),
        )
        &&& child_of(e, "Content"@) matches Some(c) && unit_read(self.content, c)
    }
}

pub open spec fn composites_outcome(e: XmlElement) -> Result<(), DomFault> {
    all_ok(e.children@, |c: XmlElement| composite_outcome(c))
}

impl CompositeGraphicUnits {
    pub open spec fn read_from(self, e: XmlElement) -> bool {
        &&& self.composite_graphic_units@.len() == e.children@.len()
        &&& forall|i: int|
            0 <= i < e.children@.len() ==> (#[trigger] self.composite_graphic_units@[i]).read_from(
                e.children@[i],
            )
    }
}

pub open spec fn one_of_resources() -> Seq<char> {
    "one of\"ColorSpaces, DrawParams, Fonts, MultiMedias, CompositeGraphicUnits\""@
}

pub open spec fn resource_outcome(e: XmlElement) -> Result<(), DomFault> {
    if e.name@ == "ColorSpaces"@ {
        color_spaces_outcome(e)
    } else if e.name@ == "DrawParams"@ {
        draw_params_outcome(e)
    } else if e.name@ == "Fonts"@ {
        fonts_outcome(e)
    } else if e.name@ == "MultiMedias"@ {
        medias_outcome(e)
    } else if e.name@ == "CompositeGraphicUnits"@ {
        composites_outcome(e)
    } else {
        Err(DomFault::ElementNameNotExpected(one_of_resources(), e.name@))
    }
}

impl Resource {
    pub open spec fn read_from(self, e: XmlElement) -> bool {
        match self {
            Resource::ColorSpaces(v) => e.name@ == "ColorSpaces"@ && v.read_from(e),
            Resource::DrawParams(v) => e.name@ == "DrawParams"@ && v.read_from(e),
            Resource::Fonts(v) => e.name@ == "Fonts"@ && v.read_from(e),
            Resource::MultiMedias(v) => e.name@ == "MultiMedias"@ && v.read_from(e),
            Resource::CompositeGraphicUnits(v) => e.name@ == "CompositeGraphicUnits"@
                && v.read_from(e),
        }
    }
}

pub open spec fn resource_file_outcome(e: XmlElement) -> Result<(), DomFault> {
    then(
        check(required(str_of(attr_of(e, "BaseLoc"@)), no_attr("BaseLoc"@))),
        all_ok(e.children@, |c: XmlElement| resource_outcome(c)),
    )
}

impl ResourceXmlFile {
    pub open spec fn read_from(self, e: XmlElement) -> bool {
        &&& attr_of(e, "BaseLoc"@) == Some(self.base_loc@)
        &&& match self.resources {
            None => e.children@.len() == 0,
            Some(v) => v@.len() == e.children@.len() && v@.len() > 0 && forall|i: int|
                0 <= i < v@.len() ==> (#[trigger] v@[i]).read_from(e.children@[i]),
        }
    }
}

// ---------------------------------------------------------------------------
// The conversions
// ---------------------------------------------------------------------------

impl<'a> TryFromDom<&'a XmlElement> for Palette {
    open spec fn unhandled(dom: &'a XmlElement) -> bool {
        false
    }

    fn try_from_dom(dom: &'a XmlElement) -> (r: Result<Self, TryFromDomError>)
        ensures
            outcome(r) == palette_outcome(*dom),
            r matches Ok(v) ==> v.read_from(*dom),
    {
        let ghost f = |c: XmlElement| cv_outcome(c);
        let ghost cs = children_named(*dom, "CV"@);
        let pos = named_children(dom, "CV");
        let mut cv: Vec<StArray<u16>> = Vec::new();
        let mut k: usize = 0;
        assert(cs.take(0) =~= Seq::<XmlElement>::empty());
        while k < pos.len()
            invariant
                k <= pos@.len() == cs.len(),
                cs == children_named(*dom, "CV"@),
                f == (|c: XmlElement| cv_outcome(c)),
                forall|m: int|
                    0 <= m < pos@.len() ==> (#[trigger] pos@[m]) < dom.children@.len()
                        && dom.children@[pos@[m] as int] == cs[m],
                all_ok(cs.take(k as int), f) == Ok::<(), DomFault>(()),
                cv@.len() == k,
                forall|m: int|
                    0 <= m < k ==> uints_of(Some(cs[m].text@), u16::MAX as int) == Ok::<
                        Option<Seq<nat>>,
                        DomFault,
                    >(Some(u16s_view(#[trigger] cv@[m]))),
            decreases pos@.len() - k,
        {
            assert(cs.take(k + 1).drop_last() =~= cs.take(k as int));
            let c = &dom.children[pos[k]];
            match read_u16s(Some(&c.text)) {
                Ok(Some(a)) => {
                    cv.push(a);
                },
                Ok(None) => {
                    return Err(TryFromDomError::NoSuchElement("CV".to_owned()));
                },
                Err(e) => {
                    proof {
                        assert(all_ok(cs.take(k + 1), f) == f(cs[k as int]));
                        lemma_all_ok_prefix(cs, f, k as int + 1);
                    }
                    return Err(e);
                },
            }
            k = k + 1;
        }
        assert(cs.take(k as int) =~= cs);
        if cv.len() == 0 {
            return Err(TryFromDomError::NoSuchElement("CV".to_owned()));
        }
        Ok(Palette { cv })
    }
}

fn read_color_type(o: Option<&String>) -> (r: Result<Option<Type>, TryFromDomError>)
    ensures
        match color_type_of(view_opt_ref(o)) {
            Ok(v) => r == Ok::<Option<Type>, TryFromDomError>(v),
            Err(f) => r matches Err(e) && e.fault() == f,
        },
{
    match o {
        None => Ok(None),
        Some(s) => match Type::from_str(s.as_str()) {
            Ok(v) => Ok(Some(v)),
            Err(e) => Err(TryFromDomError::Warp(e)),
        },
    }
}

fn read_media_type(o: Option<&String>) -> (r: Result<Option<MultiMediaType>, TryFromDomError>)
    ensures
        match media_type_of(view_opt_ref(o)) {
            Ok(v) => r == Ok::<Option<MultiMediaType>, TryFromDomError>(v),
            Err(f) => r matches Err(e) && e.fault() == f,
        },
{
    match o {
        None => Ok(None),
        Some(s) => match MultiMediaType::from_str(s.as_str()) {
            Ok(v) => Ok(Some(v)),
            Err(e) => Err(TryFromDomError::Warp(e)),
        },
    }
}

impl<'a> TryFromDom<&'a XmlElement> for ColorSpace {
    open spec fn unhandled(dom: &'a XmlElement) -> bool {
        false
    }

    fn try_from_dom(dom: &'a XmlElement) -> (r: Result<Self, TryFromDomError>)
        ensures
            outcome(r) == color_space_outcome(*dom),
            r matches Ok(v) ==> v.read_from(*dom),
    {
        let id = req_attr(read_uint(attr_text_of(dom, "ID"), u64::MAX), "ID")?;
        let typ = req_attr(read_color_type(attr_text_of(dom, "Type")), "Type")?;
        let bits_per_component = read_u8(attr_text_of(dom, "BitsPerComponent"))?;
        let profile = read_str(attr_text_of(dom, "Profile"))?;
        let palette = match dom.get_child("Palette") {
            None => None,
            Some(c) => Some(Palette::try_from_dom(c)?),
        };
        Ok(ColorSpace { id, typ, bits_per_component, profile, palette })
    }
}

fn read_color_child_of(dom: &XmlElement, name: &str) -> (r: Result<Option<CtColor>, TryFromDomError>)
    ensures
        match color_child_of(*dom, name@) {
            Err(f) => r matches Err(e) && e.fault() == f,
            Ok(_) => r matches Ok(v) && color_child_is(v, *dom, name@),
        },
{
    match dom.get_child(name) {
        None => Ok(None),
        Some(c) => Ok(Some(crate::graphic::read_color(c)?)),
    }
}

/// Reads a `DrawParam`; a part that the conversion does not handle is the error
/// `Unhandled`.
pub fn draw_param_from(dom: &XmlElement) -> (r: Result<DrawParam, TryFromDomError>)
    ensures
        outcome(r) == draw_param_outcome(*dom),
        r matches Ok(v) ==> v.read_from(*dom),
{
    let id = req_attr(read_uint(attr_text_of(dom, "ID"), u64::MAX), "ID")?;
    let relative = read_uint(attr_text_of(dom, "Relative"), u64::MAX)?;
    let line_width = read_float(attr_text_of(dom, "LineWidth"))?;
    let join = read_join(attr_text_of(dom, "Join"))?;
    let cap = read_cap(attr_text_of(dom, "Cap"))?;
    let dash_offset = read_float(attr_text_of(dom, "DashOffset"))?;
    let dash_pattern = read_floats(attr_text_of(dom, "DashPattern"))?;
    let miter_limit = read_float(attr_text_of(dom, "MiterLimit"))?;
    let fill_color = read_color_child_of(dom, "FillColor")?;
    let stroke_color = read_color_child_of(dom, "StrokeColor")?;
    Ok(DrawParam {
        id,
        relative,
        line_width,
        join,
        cap,
        dash_offset,
        dash_pattern,
        miter_limit,
        fill_color,
        stroke_color,
    })
}

impl<'a> TryFromDom<&'a XmlElement> for DrawParam {
    open spec fn unhandled(dom: &'a XmlElement) -> bool {
        draw_param_outcome(*dom) == Err::<(), DomFault>(DomFault::Unimplemented)
    }

    fn try_from_dom(dom: &'a XmlElement) -> (r: Result<Self, TryFromDomError>)
        ensures
            outcome(r) == draw_param_outcome(*dom),
            r matches Ok(v) ==> v.read_from(*dom),
    {
        draw_param_from(dom)
    }
}

impl<'a> TryFromDom<&'a XmlElement> for Font {
    open spec fn unhandled(dom: &'a XmlElement) -> bool {
        false
    }

    fn try_from_dom(dom: &'a XmlElement) -> (r: Result<Self, TryFromDomError>)
        ensures
            outcome(r) == font_outcome(*dom),
            r matches Ok(v) ==> v.read_from(*dom),
    {
        let id = req_attr(read_uint(attr_text_of(dom, "ID"), u64::MAX), "ID")?;
        let font_name = req_attr(read_str(attr_text_of(dom, "FontName")), "FontName")?;
        let family_name = read_str(attr_text_of(dom, "FamilyName"))?;
        let charset = read_str(attr_text_of(dom, "Charset"))?;
        let italic = read_bool(attr_text_of(dom, "Italic"))?;
        let bold = read_bool(attr_text_of(dom, "Bold"))?;
        let serif = read_bool(attr_text_of(dom, "Serif"))?;
        let fixed_width = read_bool(attr_text_of(dom, "FixedWidth"))?;
        let font_file = read_str(child_text_of(dom, "FontFile"))?;
        Ok(Font {
            id,
            font_name,
            family_name,
            charset,
            italic,
            bold,
            serif,
            fixed_width,
            font_file,
        })
    }
}

impl<'a> TryFromDom<&'a XmlElement> for MultiMedia {
    open spec fn unhandled(dom: &'a XmlElement) -> bool {
        false
    }

    fn try_from_dom(dom: &'a XmlElement) -> (r: Result<Self, TryFromDomError>)
        ensures
            outcome(r) == media_outcome(*dom),
            r matches Ok(v) ==> v.read_from(*dom),
    {
        let id = req_attr(read_uint(attr_text_of(dom, "ID"), u64::MAX), "ID")?;
        let typ = req_attr(read_media_type(attr_text_of(dom, "Type")), "Type")?;
        let format = read_str(attr_text_of(dom, "Format"))?;
        let media_file = req_elem(read_str(child_text_of(dom, "MediaFile")), "MediaFile")?;
        Ok(MultiMedia { id, typ, format, media_file })
    }
}

/// Reads a `CompositeGraphicUnit`; a part that the conversion does not handle is the error
/// `Unhandled`.
pub fn composite_from(dom: &XmlElement) -> (r: Result<CompositeGraphicUnit, TryFromDomError>)
    ensures
        outcome(r) == composite_outcome(*dom),
        r matches Ok(v) ==> v.read_from(*dom),
{
    let id = req_attr(read_uint(attr_text_of(dom, "ID"), u64::MAX), "ID")?;
    let content = match dom.get_child("Content") {
        None => {
            return Err(TryFromDomError::NoSuchElement("Content".to_owned()));
        },
        Some(c) => crate::graphic::read_unit(c)?,
    };
    Ok(CompositeGraphicUnit { id, content })
}

impl<'a> TryFromDom<&'a XmlElement> for CompositeGraphicUnit {
    open spec fn unhandled(dom: &'a XmlElement) -> bool {
        composite_outcome(*dom) == Err::<(), DomFault>(DomFault::Unimplemented)
    }

    fn try_from_dom(dom: &'a XmlElement) -> (r: Result<Self, TryFromDomError>)
        ensures
            outcome(r) == composite_outcome(*dom),
            r matches Ok(v) ==> v.read_from(*dom),
    {
        composite_from(dom)
    }
}

impl<'a> TryFromDom<&'a XmlElement> for ColorSpaces {
    open spec fn unhandled(dom: &'a XmlElement) -> bool {
        false
    }

    fn try_from_dom(dom: &'a XmlElement) -> (r: Result<Self, TryFromDomError>)
        ensures
            outcome(r) == color_spaces_outcome(*dom),
            r matches Ok(v) ==> v.read_from(*dom),
    {
        let ghost f = |c: XmlElement| color_space_outcome(c);
        let ghost cs = dom.children@;
        let mut out: Vec<ColorSpace> = Vec::new();
        let mut i: usize = 0;
        assert(cs.take(0) =~= Seq::<XmlElement>::empty());
        while i < dom.children.len()
            invariant
                i <= cs.len(),
                cs == dom.children@,
                f == (|c: XmlElement| color_space_outcome(c)),
                all_ok(cs, f) == color_spaces_outcome(*dom),
                all_ok(cs.take(i as int), f) == Ok::<(), DomFault>(()),
                out@.len() == i,
                forall|k: int| 0 <= k < i ==> (#[trigger] out@[k]).read_from(cs[k]),
            decreases cs.len() - i,
        {
            assert(cs.take(i + 1).drop_last() =~= cs.take(i as int));
            assert(all_ok(cs.take(i + 1), f) == f(cs[i as int]));
            proof {
                if color_space_outcome(cs[i as int]) is Err {
                    lemma_all_ok_prefix(cs, f, i as int + 1);
                }
            }
            match ColorSpace::try_from_dom(&dom.children[i]) {
                Ok(v) => {
                    out.push(v);
                },
                Err(e) => {
                    return Err(e);
                },
            }
            i = i + 1;
        }
        assert(cs.take(i as int) =~= cs);
        Ok(ColorSpaces { color_spaces: out })
    }
}

/// Reads a `DrawParams`; a part that the conversion does not handle is the error
/// `Unhandled`.
pub fn draw_params_from(dom: &XmlElement) -> (r: Result<DrawParams, TryFromDomError>)
    ensures
        outcome(r) == draw_params_outcome(*dom),
        r matches Ok(v) ==> v.read_from(*dom),
{
    let ghost f = |c: XmlElement| draw_param_outcome(c);
    let ghost cs = dom.children@;
    let mut out: Vec<DrawParam> = Vec::new();
    let mut i: usize = 0;
    assert(cs.take(0) =~= Seq::<XmlElement>::empty());
    while i < dom.children.len()
        invariant
            i <= cs.len(),
            cs == dom.children@,
            f == (|c: XmlElement| draw_param_outcome(c)),
            all_ok(cs, f) == draw_params_outcome(*dom),
            all_ok(cs.take(i as int), f) == Ok::<(), DomFault>(()),
            out@.len() == i,
            forall|k: int| 0 <= k < i ==> (#[trigger] out@[k]).read_from(cs[k]),
        decreases cs.len() - i,
    {
        assert(cs.take(i + 1).drop_last() =~= cs.take(i as int));
        assert(all_ok(cs.take(i + 1), f) == f(cs[i as int]));
        proof {
            if draw_param_outcome(cs[i as int]) is Err {
                lemma_all_ok_prefix(cs, f, i as int + 1);
            }
        }
        match draw_param_from(&dom.children[i]) {
            Ok(v) => {
                out.push(v);
            },
            Err(e) => {
                return Err(e);
            },
        }
        i = i + 1;
    }
    assert(cs.take(i as int) =~= cs);
    Ok(DrawParams { draw_params: out })
}

impl<'a> TryFromDom<&'a XmlElement> for DrawParams {
    open spec fn unhandled(dom: &'a XmlElement) -> bool {
        draw_params_outcome(*dom) == Err::<(), DomFault>(DomFault::Unimplemented)
    }

    fn try_from_dom(dom: &'a XmlElement) -> (r: Result<Self, TryFromDomError>)
        ensures
            outcome(r) == draw_params_outcome(*dom),
            r matches Ok(v) ==> v.read_from(*dom),
    {
        draw_params_from(dom)
    }
}

impl<'a> TryFromDom<&'a XmlElement> for Fonts {
    open spec fn unhandled(dom: &'a XmlElement) -> bool {
        false
    }

    fn try_from_dom(dom: &'a XmlElement) -> (r: Result<Self, TryFromDomError>)
        ensures
            outcome(r) == fonts_outcome(*dom),
            r matches Ok(v) ==> v.read_from(*dom),
    {
        let ghost f = |c: XmlElement| font_outcome(c);
        let ghost cs = dom.children@;
        let mut out: Vec<Font> = Vec::new();
        let mut i: usize = 0;
        assert(cs.take(0) =~= Seq::<XmlElement>::empty());
        while i < dom.children.len()
            invariant
                i <= cs.len(),
                cs == dom.children@,
                f == (|c: XmlElement| font_outcome(c)),
                all_ok(cs, f) == fonts_outcome(*dom),
                all_ok(cs.take(i as int), f) == Ok::<(), DomFault>(()),
                out@.len() == i,
                forall|k: int| 0 <= k < i ==> (#[trigger] out@[k]).read_from(cs[k]),
            decreases cs.len() - i,
        {
            assert(cs.take(i + 1).drop_last() =~= cs.take(i as int));
            assert(all_ok(cs.take(i + 1), f) == f(cs[i as int]));
            proof {
                if font_outcome(cs[i as int]) is Err {
                    lemma_all_ok_prefix(cs, f, i as int + 1);
                }
            }
            match Font::try_from_dom(&dom.children[i]) {
                Ok(v) => {
                    out.push(v);
                },
                Err(e) => {
                    return Err(e);
                },
            }
            i = i + 1;
        }
        assert(cs.take(i as int) =~= cs);
        Ok(Fonts { fonts: out })
    }
}

impl<'a> TryFromDom<&'a XmlElement> for MultiMedias {
    open spec fn unhandled(dom: &'a XmlElement) -> bool {
        false
    }

    fn try_from_dom(dom: &'a XmlElement) -> (r: Result<Self, TryFromDomError>)
        ensures
            outcome(r) == medias_outcome(*dom),
            r matches Ok(v) ==> v.read_from(*dom),
    {
        let ghost f = |c: XmlElement| media_outcome(c);
        let ghost cs = dom.children@;
        let mut out: Vec<MultiMedia> = Vec::new();
        let mut i: usize = 0;
        assert(cs.take(0) =~= Seq::<XmlElement>::empty());
        while i < dom.children.len()
            invariant
                i <= cs.len(),
                cs == dom.children@,
                f == (|c: XmlElement| media_outcome(c)),
                all_ok(cs, f) == medias_outcome(*dom),
                all_ok(cs.take(i as int), f) == Ok::<(), DomFault>(()),
                out@.len() == i,
                forall|k: int| 0 <= k < i ==> (#[trigger] out@[k]).read_from(cs[k]),
            decreases cs.len() - i,
        {
            assert(cs.take(i + 1).drop_last() =~= cs.take(i as int));
            assert(all_ok(cs.take(i + 1), f) == f(cs[i as int]));
            proof {
                if media_outcome(cs[i as int]) is Err {
                    lemma_all_ok_prefix(cs, f, i as int + 1);
                }
            }
            match MultiMedia::try_from_dom(&dom.children[i]) {
                Ok(v) => {
                    out.push(v);
                },
                Err(e) => {
                    return Err(e);
                },
            }
            i = i + 1;
        }
        assert(cs.take(i as int) =~= cs);
        Ok(MultiMedias { multi_medias: out })
    }
}

/// Reads a `CompositeGraphicUnits`; a part that the conversion does not handle is the error
/// `Unhandled`.
pub fn composites_from(dom: &XmlElement) -> (r: Result<CompositeGraphicUnits, TryFromDomError>)
    ensures
        outcome(r) == composites_outcome(*dom),
        r matches Ok(v) ==> v.read_from(*dom),
{
    let ghost f = |c: XmlElement| composite_outcome(c);
    let ghost cs = dom.children@;
    let mut out: Vec<CompositeGraphicUnit> = Vec::new();
    let mut i: usize = 0;
    assert(cs.take(0) =~= Seq::<XmlElement>::empty());
    while i < dom.children.len()
        invariant
            i <= cs.len(),
            cs == dom.children@,
            f == (|c: XmlElement| composite_outcome(c)),
            all_ok(cs, f) == composites_outcome(*dom),
            all_ok(cs.take(i as int), f) == Ok::<(), DomFault>(()),
            out@.len() == i,
            forall|k: int| 0 <= k < i ==> (#[trigger] out@[k]).read_from(cs[k]),
        decreases cs.len() - i,
    {
        assert(cs.take(i + 1).drop_last() =~= cs.take(i as int));
        assert(all_ok(cs.take(i + 1), f) == f(cs[i as int]));
        proof {
            if composite_outcome(cs[i as int]) is Err {
                lemma_all_ok_prefix(cs, f, i as int + 1);
            }
        }
        match composite_from(&dom.children[i]) {
            Ok(v) => {
                out.push(v);
            },
            Err(e) => {
                return Err(e);
            },
        }
        i = i + 1;
    }
    assert(cs.take(i as int) =~= cs);
    Ok(CompositeGraphicUnits { composite_graphic_units: out })
}

impl<'a> TryFromDom<&'a XmlElement> for CompositeGraphicUnits {
    open spec fn unhandled(dom: &'a XmlElement) -> bool {
        composites_outcome(*dom) == Err::<(), DomFault>(DomFault::Unimplemented)
    }

    fn try_from_dom(dom: &'a XmlElement) -> (r: Result<Self, TryFromDomError>)
        ensures
            outcome(r) == composites_outcome(*dom),
            r matches Ok(v) ==> v.read_from(*dom),
    {
        composites_from(dom)
    }
}

/// Reads a `Resource`; a part that the conversion does not handle is the error
/// `Unhandled`.
pub fn resource_from(dom: &XmlElement) -> (r: Result<Resource, TryFromDomError>)
    ensures
        outcome(r) == resource_outcome(*dom),
        r matches Ok(v) ==> v.read_from(*dom),
{
    if dom.is_named("ColorSpaces") {
        Ok(Resource::ColorSpaces(ColorSpaces::try_from_dom(dom)?))
    } else if dom.is_named("DrawParams") {
        Ok(Resource::DrawParams(draw_params_from(dom)?))
    } else if dom.is_named("Fonts") {
        Ok(Resource::Fonts(Fonts::try_from_dom(dom)?))
    } else if dom.is_named("MultiMedias") {
        Ok(Resource::MultiMedias(MultiMedias::try_from_dom(dom)?))
    } else if dom.is_named("CompositeGraphicUnits") {
        Ok(Resource::CompositeGraphicUnits(composites_from(dom)?))
    } else {
        Err(
            crate::dom::name_not_expected(
                "one of\"ColorSpaces, DrawParams, Fonts, MultiMedias, CompositeGraphicUnits\"",
                &dom.name,
            ),
        )
    }
}

impl<'a> TryFromDom<&'a XmlElement> for Resource {
    open spec fn unhandled(dom: &'a XmlElement) -> bool {
        resource_outcome(*dom) == Err::<(), DomFault>(DomFault::Unimplemented)
    }

    fn try_from_dom(dom: &'a XmlElement) -> (r: Result<Self, TryFromDomError>)
        ensures
            outcome(r) == resource_outcome(*dom),
            r matches Ok(v) ==> v.read_from(*dom),
    {
        resource_from(dom)
    }
}

/// Reads a `ResourceXmlFile`; a part that the conversion does not handle is the error
/// `Unhandled`.
pub fn resource_file_from(dom: &XmlElement) -> (r: Result<ResourceXmlFile, TryFromDomError>)
    ensures
        outcome(r) == resource_file_outcome(*dom),
        r matches Ok(v) ==> v.read_from(*dom),
{
    let base_loc = req_attr(read_str(attr_text_of(dom, "BaseLoc")), "BaseLoc")?;
    let ghost f = |c: XmlElement| resource_outcome(c);
    let ghost cs = dom.children@;
    let mut out: Vec<Resource> = Vec::new();
    let mut i: usize = 0;
    assert(cs.take(0) =~= Seq::<XmlElement>::empty());
    while i < dom.children.len()
        invariant
            i <= cs.len(),
            cs == dom.children@,
            f == (|c: XmlElement| resource_outcome(c)),
            resource_file_outcome(*dom) == all_ok(cs, f),
            all_ok(cs.take(i as int), f) == Ok::<(), DomFault>(()),
            out@.len() == i,
            forall|k: int| 0 <= k < i ==> (#[trigger] out@[k]).read_from(cs[k]),
        decreases cs.len() - i,
    {
        assert(cs.take(i + 1).drop_last() =~= cs.take(i as int));
        assert(all_ok(cs.take(i + 1), f) == f(cs[i as int]));
        proof {
            if resource_outcome(cs[i as int]) is Err {
                lemma_all_ok_prefix(cs, f, i as int + 1);
            }
        }
        match resource_from(&dom.children[i]) {
            Ok(v) => {
                out.push(v);
            },
            Err(e) => {
                return Err(e);
            },
        }
        i = i + 1;
    }
    assert(cs.take(i as int) =~= cs);
    let resources = if out.len() == 0 {
        None
    } else {
        Some(out)
    };
    Ok(ResourceXmlFile { base_loc, resources })
}

impl<'a> TryFromDom<&'a XmlElement> for ResourceXmlFile {
    open spec fn unhandled(dom: &'a XmlElement) -> bool {
        resource_file_outcome(*dom) == Err::<(), DomFault>(DomFault::Unimplemented)
    }

    fn try_from_dom(dom: &'a XmlElement) -> (r: Result<Self, TryFromDomError>)
        ensures
            outcome(r) == resource_file_outcome(*dom),
            r matches Ok(v) ==> v.read_from(*dom),
    {
        resource_file_from(dom)
    }
}

impl TryFromDom<XmlElement> for ResourceXmlFile {
    open spec fn unhandled(dom: XmlElement) -> bool {
        resource_file_outcome(dom) == Err::<(), DomFault>(DomFault::Unimplemented)
    }

    fn try_from_dom(dom: XmlElement) -> (r: Result<Self, TryFromDomError>)
        ensures
            outcome(r) == resource_file_outcome(dom),
            r matches Ok(v) ==> v.read_from(dom),
    {
        ResourceXmlFile::try_from_dom(&dom)
    }
}

} // verus!
