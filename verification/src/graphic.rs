//! The graphic units of a page (text, path and image objects) and the colors,
//! patterns and borders that they hold, read from their elements.
use crate::dom::{
    attr_text_of, bool_of, box_of, check, child_text_of, float_of, floats_of, lemma_all_ok_prefix,
    lemma_child_of_depth, lemma_named_depth, name_not_expected, named_children, no_attr, no_elem,
    opt_box, opt_nat_u32, opt_nat_u64, opt_nat_u8, opt_nat_usize, opt_u16s, opt_u32s, opt_view,
    opt_words, outcome, read_bool, read_box, read_float, read_floats, read_str, read_u16s,
    read_u32, read_u32s, read_u8, read_uint, read_usize, read_words, req_attr, req_elem,
    required, then, u32s_view, uint_of, uints_of, view_opt_ref, words_of, words_view, DomFault,
    TryFromDom, TryFromDomError,
};
use crate::value::{StArray, StBox, ValueError};
use crate::xml::{attr_of, child_of, child_text, children_named, depth, str_eq, XmlElement};
use vstd::prelude::*;

verus! {

#[derive(Debug, PartialEq, Eq, Structural, Clone, Copy)]
pub enum Join {
    Miter,
    Round,
    Bevel,
}

#[derive(Debug, PartialEq, Eq, Structural, Clone, Copy)]
pub enum Cap {
    Butt,
    Round,
    Square,
}

#[derive(Debug, PartialEq, Eq, Structural, Clone, Copy)]
pub enum FillRule {
    NoneZero,
    EvenOdd,
}

/// The actions of a graphic unit. Their conversion from an element is not
/// implemented, so no value of it is ever read.
#[derive(Debug)]
pub struct Actions {
    pub actions: Vec<CtAction>,
}

#[derive(Debug, PartialEq, Eq, Structural, Clone, Copy)]
pub enum Event {
    DO,
    PO,
    Click,
}

#[derive(Debug)]
pub struct CtAction {
    /// must be one of DO, PO, CLICK
    pub event: Event,
}

/// 包括基本颜色、底纹和渐变
pub struct CtColor {
    /// 各通道颜色的分量
    pub value: Option<StArray<u16>>,
    /// 调色板颜色
    pub index: Option<usize>,
    /// 引用资源文件中的颜色空间的标识
    pub color_space: Option<u64>,
    /// 颜色透明度 取值范围是0~255 默认255
    pub alpha: Option<u8>,
    /// 底纹
    pub pattern: Option<CtPattern>,
}

pub struct CtPattern {
    pub width: String,
    pub height: String,
    pub x_step: Option<String>,
    pub y_step: Option<String>,
    pub reflect_method: Option<String>,
    /// can be `Page` or `Object`, default `Object`
    pub relative_to: Option<String>,
    pub ctm: Option<StArray<String>>,
    pub cell_content: Vec<CellContent>,
}

pub struct CellContent {
    pub thumbnail: Option<u64>,
    pub base: VtGraphicUnit,
}

pub struct Border {
    /// default 0.353 mm
    pub line_width: String,
    pub horizontal_corner_radius: Option<String>,
    pub vertical_corner_radius: Option<String>,
    pub dash_offset: Option<String>,
    pub dash_pattern: Option<StArray<String>>,
    pub border_color: Option<CtColor>,
}

pub struct CGTransform {
    pub code_position: u32,
    /// default 1
    pub code_count: Option<u32>,
    /// default 1
    pub glyph_count: Option<u32>,
    pub glyphs: StArray<u32>,
}

pub struct TextCode {
    pub x: Option<String>,
    pub y: Option<String>,
    pub delta_x: Option<StArray<String>>,
    pub delta_y: Option<StArray<String>>,
    pub val: String,
}

pub struct TextVal {
    pub cg_transform: Option<CGTransform>,
    pub text_code: TextCode,
}

pub struct TextObject {
    pub id: u64,
    pub font: u64,
    pub size: String,
    pub stroke: Option<bool>,
    pub fill: Option<bool>,
    pub h_scale: Option<String>,
    pub read_direction: Option<u32>,
    pub char_direction: Option<u32>,
    /// default 400
    pub weight: Option<u32>,
    pub italic: Option<bool>,
    pub fill_color: Option<CtColor>,
    pub stroke_color: Option<CtColor>,
    pub text_vals: Vec<TextVal>,
    pub boundary: StBox,
    pub name: Option<String>,
    pub visible: Option<bool>,
    pub ctm: Option<StArray<String>>,
    pub draw_param: Option<u64>,
    pub line_width: Option<String>,
    pub cap: Option<Cap>,
    pub join: Option<Join>,
    pub miter_limit: Option<String>,
    pub dash_offset: Option<String>,
    pub dash_pattern: Option<StArray<String>>,
    pub alpha: Option<u8>,
    pub actions: Option<Actions>,
}

pub struct PathObject {
    pub id: u64,
    /// default true
    pub stroke: Option<bool>,
    /// default false
    pub fill: Option<bool>,
    /// default NoneZero
    pub rule: Option<FillRule>,
    pub fill_color: Option<CtColor>,
    pub stroke_color: Option<CtColor>,
    pub abbreviated_data: StArray<String>,
    pub boundary: StBox,
    pub name: Option<String>,
    pub visible: Option<bool>,
    pub ctm: Option<StArray<String>>,
    pub draw_param: Option<u64>,
    pub line_width: Option<String>,
    pub cap: Option<Cap>,
    pub join: Option<Join>,
    pub miter_limit: Option<String>,
    pub dash_offset: Option<String>,
    pub dash_pattern: Option<StArray<String>>,
    pub alpha: Option<u8>,
    pub actions: Option<Actions>,
}

pub struct ImageObject {
    pub id: u64,
    pub resource_id: u64,
    pub substitution: Option<u64>,
    pub image_mask: Option<u64>,
    pub border: Option<Border>,
    pub boundary: StBox,
    pub name: Option<String>,
    pub visible: Option<bool>,
    pub ctm: Option<StArray<String>>,
    pub draw_param: Option<u64>,
    pub line_width: Option<String>,
    pub cap: Option<Cap>,
    pub join: Option<Join>,
    pub miter_limit: Option<String>,
    pub dash_offset: Option<String>,
    pub dash_pattern: Option<StArray<String>>,
    pub alpha: Option<u8>,
    pub actions: Option<Actions>,
}

pub enum VtGraphicUnit {
    TextObject(TextObject),
    PathObject(PathObject),
    ImageObject(ImageObject),
}

/// The attributes that every graphic unit has.
pub struct CommonFields {
    pub boundary: StBox,
    pub name: Option<String>,
    pub visible: Option<bool>,
    pub ctm: Option<StArray<String>>,
    pub draw_param: Option<u64>,
    pub line_width: Option<String>,
    pub cap: Option<Cap>,
    pub join: Option<Join>,
    pub miter_limit: Option<String>,
    pub dash_offset: Option<String>,
    pub dash_pattern: Option<StArray<String>>,
    pub alpha: Option<u8>,
}

// ---------------------------------------------------------------------------
// Names of variants
// ---------------------------------------------------------------------------

pub open spec fn spec_join(s: Seq<char>) -> Option<Join> {
    if s == "Miter"@ {
        Some(Join::Miter)
    } else if s == "Round"@ {
        Some(Join::Round)
    } else if s == "Bevel"@ {
        Some(Join::Bevel)
    } else {
        None
    }
}

pub open spec fn spec_cap(s: Seq<char>) -> Option<Cap> {
    if s == "Butt"@ {
        Some(Cap::Butt)
    } else if s == "Round"@ {
        Some(Cap::Round)
    } else if s == "Square"@ {
        Some(Cap::Square)
    } else {
        None
    }
}

pub open spec fn spec_fill_rule(s: Seq<char>) -> Option<FillRule> {
    if s == "NoneZero"@ {
        Some(FillRule::NoneZero)
    } else if s == "EvenOdd"@ {
        Some(FillRule::EvenOdd)
    } else {
        None
    }
}

/// The name that the format writes for a join.
pub open spec fn join_name(j: Join) -> Seq<char> {
    match j {
        Join::Miter => "Miter"@,
        Join::Round => "Round"@,
        Join::Bevel => "Bevel"@,
    }
}

/// The name that the format writes for a cap.
pub open spec fn cap_name(c: Cap) -> Seq<char> {
    match c {
        Cap::Butt => "Butt"@,
        Cap::Round => "Round"@,
        Cap::Square => "Square"@,
    }
}

/// The name that the format writes for a fill rule.
pub open spec fn fill_rule_name(f: FillRule) -> Seq<char> {
    match f {
        FillRule::NoneZero => "NoneZero"@,
        FillRule::EvenOdd => "EvenOdd"@,
    }
}

/// A join is read from its own name and from no other text: the three names
/// read as three different joins.
pub proof fn lemma_join_names(s: Seq<char>, j: Join)
    ensures
        spec_join(join_name(j)) == Some(j),
        spec_join(s) == Some(j) <==> s == join_name(j),
{
    reveal_strlit("Miter");
    reveal_strlit("Round");
    reveal_strlit("Bevel");
    assert("Miter"@ != "Round"@) by {
        assert("Miter"@[0] != "Round"@[0]);
    }
    assert("Miter"@ != "Bevel"@) by {
        assert("Miter"@[0] != "Bevel"@[0]);
    }
    assert("Round"@ != "Bevel"@) by {
        assert("Round"@[0] != "Bevel"@[0]);
    }
}

/// A cap is read from its own name and from no other text.
pub proof fn lemma_cap_names(s: Seq<char>, c: Cap)
    ensures
        spec_cap(cap_name(c)) == Some(c),
        spec_cap(s) == Some(c) <==> s == cap_name(c),
{
    reveal_strlit("Butt");
    reveal_strlit("Round");
    reveal_strlit("Square");
    assert("Butt"@ != "Round"@) by {
        assert("Butt"@[0] != "Round"@[0]);
    }
    assert("Butt"@ != "Square"@) by {
        assert("Butt"@[0] != "Square"@[0]);
    }
    assert("Round"@ != "Square"@) by {
        assert("Round"@[0] != "Square"@[0]);
    }
}

/// A fill rule is read from its own name and from no other text.
pub proof fn lemma_fill_rule_names(s: Seq<char>, f: FillRule)
    ensures
        spec_fill_rule(fill_rule_name(f)) == Some(f),
        spec_fill_rule(s) == Some(f) <==> s == fill_rule_name(f),
{
    reveal_strlit("NoneZero");
    reveal_strlit("EvenOdd");
    assert("NoneZero"@ != "EvenOdd"@) by {
        assert("NoneZero"@[0] != "EvenOdd"@[0]);
    }
}

pub open spec fn join_of(o: Option<Seq<char>>) -> Result<Option<Join>, DomFault> {
    match o {
        None => Ok(None),
        Some(s) => match spec_join(s) {
            Some(v) => Ok(Some(v)),
            None => Err(DomFault::Warp(ValueError::ParseEnum)),
        },
    }
}

pub open spec fn cap_of(o: Option<Seq<char>>) -> Result<Option<Cap>, DomFault> {
    match o {
        None => Ok(None),
        Some(s) => match spec_cap(s) {
            Some(v) => Ok(Some(v)),
            None => Err(DomFault::Warp(ValueError::ParseEnum)),
        },
    }
}

pub open spec fn fill_rule_of(o: Option<Seq<char>>) -> Result<Option<FillRule>, DomFault> {
    match o {
        None => Ok(None),
        Some(s) => match spec_fill_rule(s) {
            Some(v) => Ok(Some(v)),
            None => Err(DomFault::Warp(ValueError::ParseEnum)),
        },
    }
}

impl Join {
    /// Reads a variant from its name.
    pub fn from_str(s: &str) -> (r: Result<Join, ValueError>)
        ensures
            match spec_join(s@) {
                Some(v) => r == Ok::<Join, ValueError>(v),
                None => r == Err::<Join, ValueError>(ValueError::ParseEnum),
            },
            forall|v: Join| #[trigger] join_name(v) == s@ <==> r == Ok::<Join, ValueError>(v),
    {
        proof {
            assert forall|v: Join| #[trigger] join_name(v) == s@ <==> spec_join(s@) == Some(v) by {
                lemma_join_names(s@, v);
            }
        }
        if str_eq(s, "Miter") {
            Ok(Join::Miter)
        } else if str_eq(s, "Round") {
            Ok(Join::Round)
        } else if str_eq(s, "Bevel") {
            Ok(Join::Bevel)
        } else {
            Err(ValueError::ParseEnum)
        }
    }
}

impl Cap {
    /// Reads a variant from its name.
    pub fn from_str(s: &str) -> (r: Result<Cap, ValueError>)
        ensures
            match spec_cap(s@) {
                Some(v) => r == Ok::<Cap, ValueError>(v),
                None => r == Err::<Cap, ValueError>(ValueError::ParseEnum),
            },
            forall|v: Cap| #[trigger] cap_name(v) == s@ <==> r == Ok::<Cap, ValueError>(v),
    {
        proof {
            assert forall|v: Cap| #[trigger] cap_name(v) == s@ <==> spec_cap(s@) == Some(v) by {
                lemma_cap_names(s@, v);
            }
        }
        if str_eq(s, "Butt") {
            Ok(Cap::Butt)
        } else if str_eq(s, "Round") {
            Ok(Cap::Round)
        } else if str_eq(s, "Square") {
            Ok(Cap::Square)
        } else {
            Err(ValueError::ParseEnum)
        }
    }
}

impl FillRule {
    /// Reads a variant from its name.
    pub fn from_str(s: &str) -> (r: Result<FillRule, ValueError>)
        ensures
            match spec_fill_rule(s@) {
                Some(v) => r == Ok::<FillRule, ValueError>(v),
                None => r == Err::<FillRule, ValueError>(ValueError::ParseEnum),
            },
            forall|v: FillRule| #[trigger] fill_rule_name(v) == s@ <==> r == Ok::<FillRule, ValueError>(v),
    {
        proof {
            assert forall|v: FillRule| #[trigger] fill_rule_name(v) == s@ <==> spec_fill_rule(s@) == Some(v) by {
                lemma_fill_rule_names(s@, v);
            }
        }
        if str_eq(s, "NoneZero") {
            Ok(FillRule::NoneZero)
        } else if str_eq(s, "EvenOdd") {
            Ok(FillRule::EvenOdd)
        } else {
            Err(ValueError::ParseEnum)
        }
    }
}

pub fn read_join(o: Option<&String>) -> (r: Result<Option<Join>, TryFromDomError>)
    ensures
        match join_of(view_opt_ref(o)) {
            Ok(v) => r == Ok::<Option<Join>, TryFromDomError>(v),
            Err(f) => r matches Err(e) && e.fault() == f,
        },
{
    match o {
        None => Ok(None),
        Some(s) => match Join::from_str(s.as_str()) {
            Ok(v) => Ok(Some(v)),
            Err(e) => Err(TryFromDomError::Warp(e)),
        },
    }
}

pub fn read_cap(o: Option<&String>) -> (r: Result<Option<Cap>, TryFromDomError>)
    ensures
        match cap_of(view_opt_ref(o)) {
            Ok(v) => r == Ok::<Option<Cap>, TryFromDomError>(v),
            Err(f) => r matches Err(e) && e.fault() == f,
        },
{
    match o {
        None => Ok(None),
        Some(s) => match Cap::from_str(s.as_str()) {
            Ok(v) => Ok(Some(v)),
            Err(e) => Err(TryFromDomError::Warp(e)),
        },
    }
}

fn read_fill_rule(o: Option<&String>) -> (r: Result<Option<FillRule>, TryFromDomError>)
    ensures
        match fill_rule_of(view_opt_ref(o)) {
            Ok(v) => r == Ok::<Option<FillRule>, TryFromDomError>(v),
            Err(f) => r matches Err(e) && e.fault() == f,
        },
{
    match o {
        None => Ok(None),
        Some(s) => match FillRule::from_str(s.as_str()) {
            Ok(v) => Ok(Some(v)),
            Err(e) => Err(TryFromDomError::Warp(e)),
        },
    }
}

// ---------------------------------------------------------------------------
// What each structure needs of its element
// ---------------------------------------------------------------------------

/// The attributes common to graphic units, read in the order of the
/// conversion; an `Actions` child is not handled.
pub open spec fn common_outcome(e: XmlElement) -> Result<(), DomFault> {
    then(check(required(box_of(attr_of(e, "Boundary"@)), no_attr("Boundary"@))),
    then(check(bool_of(attr_of(e, "Visible"@))),
    then(check(floats_of(attr_of(e, "CTM"@))),
    then(check(uint_of(attr_of(e, "DrawParam"@), u64::MAX as int)),
    then(check(float_of(attr_of(e, "LineWidth"@))),
    then(check(cap_of(attr_of(e, "Cap"@))),
    then(check(join_of(attr_of(e, "Join"@))),
    then(check(float_of(attr_of(e, "MiterLimit"@))),
    then(check(float_of(attr_of(e, "DashOffset"@))),
    then(check(floats_of(attr_of(e, "DashPattern"@))),
    then(check(uint_of(attr_of(e, "Alpha"@), u8::MAX as int)),
    if child_of(e, "Actions"@) is Some { Err(DomFault::Unimplemented) } else { Ok(()) }
    )))))))))))
}

impl CommonFields {
    pub open spec fn read_from(self, e: XmlElement) -> bool {
        &&& required(box_of(attr_of(e, "Boundary"@)), no_attr("Boundary"@)) == Ok::<
            Seq<Seq<char>>,
            DomFault,
        >(self.boundary.parts())
        &&& opt_view(self.name) == attr_of(e, "Name"@)
        &&& bool_of(attr_of(e, "Visible"@)) == Ok::<Option<bool>, DomFault>(self.visible)
        &&& floats_of(attr_of(e, "CTM"@)) == Ok::<Option<Seq<Seq<char>>>, DomFault>(
            opt_words(self.ctm),
        )
        &&& uint_of(attr_of(e, "DrawParam"@), u64::MAX as int) == Ok::<Option<nat>, DomFault>(
            opt_nat_u64(self.draw_param),
        )
        &&& float_of(attr_of(e, "LineWidth"@)) == Ok::<Option<Seq<char>>, DomFault>(
            opt_view(self.line_width),
        )
        &&& cap_of(attr_of(e, "Cap"@)) == Ok::<Option<Cap>, DomFault>(self.cap)
        &&& join_of(attr_of(e, "Join"@)) == Ok::<Option<Join>, DomFault>(self.join)
        &&& float_of(attr_of(e, "MiterLimit"@)) == Ok::<Option<Seq<char>>, DomFault>(
            opt_view(self.miter_limit),
        )
        &&& float_of(attr_of(e, "DashOffset"@)) == Ok::<Option<Seq<char>>, DomFault>(
            opt_view(self.dash_offset),
        )
        &&& floats_of(attr_of(e, "DashPattern"@)) == Ok::<Option<Seq<Seq<char>>>, DomFault>(
            opt_words(self.dash_pattern),
        )
        &&& uint_of(attr_of(e, "Alpha"@), u8::MAX as int) == Ok::<Option<nat>, DomFault>(
            opt_nat_u8(self.alpha),
        )
    }
}

pub open spec fn cgt_outcome(e: XmlElement) -> Result<(), DomFault> {
    then(check(required(uint_of(attr_of(e, "CodePosition"@), u32::MAX as int), no_attr("CodePosition"@))),
    then(check(uint_of(attr_of(e, "CodeCount"@), u32::MAX as int)),
    then(check(uint_of(attr_of(e, "GlyphCount"@), u32::MAX as int)),
    check(required(uints_of(child_text(e, "Glyphs"@), u32::MAX as int), no_elem("Glyphs"@))))))
}

impl CGTransform {
    pub open spec fn read_from(self, e: XmlElement) -> bool {
        &&& attr_of(e, "CodePosition"@) is Some
        &&& uint_of(attr_of(e, "CodePosition"@), u32::MAX as int) == Ok::<Option<nat>, DomFault>(
            Some(self.code_position as nat),
        )
        &&& uint_of(attr_of(e, "CodeCount"@), u32::MAX as int) == Ok::<Option<nat>, DomFault>(
            opt_nat_u32(self.code_count),
        )
        &&& uint_of(attr_of(e, "GlyphCount"@), u32::MAX as int) == Ok::<Option<nat>, DomFault>(
            opt_nat_u32(self.glyph_count),
        )
        &&& uints_of(child_text(e, "Glyphs"@), u32::MAX as int) == Ok::<Option<Seq<nat>>, DomFault>(
            Some(u32s_view(self.glyphs)),
        )
    }
}

pub open spec fn text_code_outcome(e: XmlElement) -> Result<(), DomFault> {
    then(check(float_of(attr_of(e, "X"@))), check(float_of(attr_of(e, "Y"@))))
}

impl TextCode {
    pub open spec fn read_from(self, e: XmlElement) -> bool {
        &&& float_of(attr_of(e, "X"@)) == Ok::<Option<Seq<char>>, DomFault>(opt_view(self.x))
        &&& float_of(attr_of(e, "Y"@)) == Ok::<Option<Seq<char>>, DomFault>(opt_view(self.y))
        &&& words_of(attr_of(e, "DeltaX"@)) == Ok::<Option<Seq<Seq<char>>>, DomFault>(
            opt_words(self.delta_x),
        )
        &&& words_of(attr_of(e, "DeltaY"@)) == Ok::<Option<Seq<Seq<char>>>, DomFault>(
            opt_words(self.delta_y),
        )
        &&& self.val@ == e.text@
    }
}

/// Whether a child takes part in the text of a text object.
pub open spec fn text_part() -> spec_fn(XmlElement) -> bool {
    |c: XmlElement| c.name@ == "TextCode"@ || c.name@ == "CGTransform"@
}

/// The state of the pairing of glyph transforms and text codes.
pub enum TvRun {
    Fault(DomFault),
    /// The position of a transform that waits for its text code, and for
    /// each text code read, the position of its transform and its own.
    Run { pending: Option<int>, vals: Seq<(Option<int>, int)> },
}

/// Pairs each text code with the transform just before it, if any: a
/// transform that follows another one is refused.
pub open spec fn tv_run(cs: Seq<XmlElement>) -> TvRun
    decreases cs.len(),
{
    if cs.len() == 0 {
        TvRun::Run { pending: None, vals: Seq::empty() }
    } else {
        let i = cs.len() - 1;
        let c = cs.last();
        match tv_run(cs.drop_last()) {
            TvRun::Fault(f) => TvRun::Fault(f),
            TvRun::Run { pending, vals } => if c.name@ == "CGTransform"@ {
                if pending is Some {
                    TvRun::Fault(DomFault::ElementNameNotExpected("TextCode"@, "CGTransform"@))
                } else {
                    match cgt_outcome(c) {
                        Err(f) => TvRun::Fault(f),
                        Ok(_) => TvRun::Run { pending: Some(i), vals },
                    }
                }
            } else {
                match text_code_outcome(c) {
                    Err(f) => TvRun::Fault(f),
                    Ok(_) => TvRun::Run { pending: None, vals: vals.push((pending, i)) },
                }
            },
        }
    }
}

pub open spec fn text_kids(e: XmlElement) -> Seq<XmlElement> {
    e.children@.filter(text_part())
}

pub open spec fn tv_outcome(e: XmlElement) -> Result<(), DomFault> {
    match tv_run(text_kids(e)) {
        TvRun::Fault(f) => Err(f),
        TvRun::Run { .. } => Ok(()),
    }
}

/// The text values `vs` are the pairs that `tv_run` makes of `cs`.
pub open spec fn tv_matches(vs: Seq<TextVal>, cs: Seq<XmlElement>, idx: Seq<(Option<int>, int)>) -> bool {
    &&& vs.len() == idx.len()
    &&& forall|k: int|
        0 <= k < vs.len() ==> {
            &&& 0 <= (#[trigger] idx[k]).1 < cs.len()
            &&& vs[k].text_code.read_from(cs[idx[k].1])
            &&& match idx[k].0 {
                Some(j) => 0 <= j < cs.len() && (vs[k].cg_transform matches Some(g) && g.read_from(
                    cs[j],
                )),
                None => vs[k].cg_transform is None,
            }
        }
}

pub open spec fn tv_read(vs: Seq<TextVal>, e: XmlElement) -> bool {
    tv_run(text_kids(e)) matches TvRun::Run { vals, .. } && tv_matches(vs, text_kids(e), vals)
}

pub open spec fn one_of_units() -> Seq<char> {
    "one of \"TextObject, PathObject, ImageObject, CompositeObject, PageBlock\""@
}

// The conversions of colors, patterns, cells and graphic units call each other
// on child elements, and the conversion of a cell that of a graphic unit on
// the same element: they are measured by the height of the element, then by
// a rank.

pub open spec fn color_outcome(e: XmlElement) -> Result<(), DomFault>
    decreases depth(e), 0nat, 0nat,
{
    then(check(uints_of(attr_of(e, "Value"@), u16::MAX as int)),
    then(check(uint_of(attr_of(e, "Index"@), usize::MAX as int)),
    then(check(uint_of(attr_of(e, "ColorSpace"@), u64::MAX as int)),
    then(check(uint_of(attr_of(e, "Alpha"@), u8::MAX as int)),
    match child_of(e, "Pattern"@) {
        None => Ok(()),
        Some(c) => {
            proof {
                lemma_child_of_depth(e, "Pattern"@);
            }
            pattern_outcome(c)
        },
    }))))
}

pub open spec fn pattern_outcome(e: XmlElement) -> Result<(), DomFault>
    decreases depth(e), 1nat, 0nat,
{
    then(check(required(float_of(attr_of(e, "Width"@)), no_attr("Width"@))),
    then(check(required(float_of(attr_of(e, "Height"@)), no_attr("Height"@))),
    then(check(float_of(attr_of(e, "XStep"@))),
    then(check(float_of(attr_of(e, "YStep"@))),
    then(check(floats_of(attr_of(e, "CTM"@))),
    match cells_outcome(depth(e), children_named(e, "CellContent"@)) {
        Err(f) => Err(f),
        Ok(_) => if children_named(e, "CellContent"@).len() == 0 {
            Err(no_elem("CellContent"@))
        } else {
            Ok(())
        },
    })))))
}

/// The first fault among the cells `cs`, each lower than `d`.
pub open spec fn cells_outcome(d: nat, cs: Seq<XmlElement>) -> Result<(), DomFault>
    decreases d, 0nat, cs.len(),
{
    if cs.len() == 0 {
        Ok(())
    } else {
        then(
            cells_outcome(d, cs.drop_last()),
            if depth(cs.last()) < d {
                cell_outcome(cs.last())
            } else {
                Ok(())
            },
        )
    }
}

pub open spec fn cell_outcome(e: XmlElement) -> Result<(), DomFault>
    decreases depth(e), 2nat, 0nat,
{
    then(check(uint_of(attr_of(e, "Thumbnail"@), u64::MAX as int)), unit_outcome(e))
}

pub open spec fn unit_outcome(e: XmlElement) -> Result<(), DomFault>
    decreases depth(e), 1nat, 0nat,
{
    if e.name@ == "TextObject"@ {
        text_object_outcome(e)
    } else if e.name@ == "PathObject"@ {
        path_object_outcome(e)
    } else if e.name@ == "ImageObject"@ {
        image_object_outcome(e)
    } else if e.name@ == "CompositeObject"@ || e.name@ == "PageBlock"@ {
        Err(DomFault::Unimplemented)
    } else {
        Err(DomFault::ElementNameNotExpected(one_of_units(), e.name@))
    }
}

pub open spec fn color_child_outcome(e: XmlElement, n: Seq<char>) -> Result<(), DomFault>
    decreases depth(e), 0nat, 1nat,
{
    match child_of(e, n) {
        None => Ok(()),
        Some(c) => {
            proof {
                lemma_child_of_depth(e, n);
            }
            color_outcome(c)
        },
    }
}

pub open spec fn text_object_outcome(e: XmlElement) -> Result<(), DomFault>
    decreases depth(e), 0nat, 2nat,
{
    then(check(required(uint_of(attr_of(e, "ID"@), u64::MAX as int), no_attr("ID"@))),
    then(check(required(uint_of(attr_of(e, "Font"@), u64::MAX as int), no_attr("Font"@))),
    then(check(required(float_of(attr_of(e, "Size"@)), no_attr("Size"@))),
    then(check(bool_of(attr_of(e, "Stroke"@))),
    then(check(bool_of(attr_of(e, "Fill"@))),
    then(check(float_of(attr_of(e, "HScale"@))),
    then(check(uint_of(attr_of(e, "ReadDirection"@), u32::MAX as int)),
    then(check(uint_of(attr_of(e, "CharDirection"@), u32::MAX as int)),
    then(check(uint_of(attr_of(e, "Weight"@), u32::MAX as int)),
    then(check(bool_of(attr_of(e, "Italic"@))),
    then(color_child_outcome(e, "FillColor"@),
    then(color_child_outcome(e, "StrokeColor"@),
    then(tv_outcome(e), common_outcome(e))))))))))))))
}

pub open spec fn path_object_outcome(e: XmlElement) -> Result<(), DomFault>
    decreases depth(e), 0nat, 2nat,
{
    then(check(required(uint_of(attr_of(e, "ID"@), u64::MAX as int), no_attr("ID"@))),
    then(check(bool_of(attr_of(e, "Stroke"@))),
    then(check(bool_of(attr_of(e, "Fill"@))),
    then(check(fill_rule_of(attr_of(e, "Rule"@))),
    then(color_child_outcome(e, "FillColor"@),
    then(color_child_outcome(e, "StrokeColor"@),
    then(check(required(words_of(child_text(e, "AbbreviatedData"@)), no_elem("AbbreviatedData"@))),
    common_outcome(e))))))))
}

pub open spec fn image_object_outcome(e: XmlElement) -> Result<(), DomFault>
    decreases depth(e), 0nat, 2nat,
{
    then(check(required(uint_of(attr_of(e, "ID"@), u64::MAX as int), no_attr("ID"@))),
    then(check(required(uint_of(attr_of(e, "ResourceID"@), u64::MAX as int), no_attr("ResourceID"@))),
    then(check(uint_of(attr_of(e, "Substitution"@), u64::MAX as int)),
    then(check(uint_of(attr_of(e, "ImageMask"@), u64::MAX as int)),
    then(match child_of(e, "Border"@) {
        None => Ok(()),
        Some(c) => {
            proof {
                lemma_child_of_depth(e, "Border"@);
            }
            border_outcome(c)
        },
    },
    common_outcome(e))))))
}

pub open spec fn border_outcome(e: XmlElement) -> Result<(), DomFault>
    decreases depth(e), 0nat, 2nat,
{
    then(check(required(float_of(attr_of(e, "LineWidth"@)), no_attr("LineWidth"@))),
    then(check(float_of(attr_of(e, "HorizontalCornerRadius"@))),
    then(check(float_of(attr_of(e, "VerticalCornerRadius"@))),
    then(check(float_of(attr_of(e, "DashOffset"@))),
    then(check(floats_of(attr_of(e, "DashPattern"@))),
    color_child_outcome(e, "BorderColor"@))))))
}

// ---------------------------------------------------------------------------
// What a structure read from an element holds
// ---------------------------------------------------------------------------

pub open spec fn color_read(v: CtColor, e: XmlElement) -> bool
    decreases depth(e), 0nat, 0nat,
{
    &&& uints_of(attr_of(e, "Value"@), u16::MAX as int) == Ok::<Option<Seq<nat>>, DomFault>(
        opt_u16s(v.value),
    )
    &&& uint_of(attr_of(e, "Index"@), usize::MAX as int) == Ok::<Option<nat>, DomFault>(
        opt_nat_usize(v.index),
    )
    &&& uint_of(attr_of(e, "ColorSpace"@), u64::MAX as int) == Ok::<Option<nat>, DomFault>(
        opt_nat_u64(v.color_space),
    )
    &&& uint_of(attr_of(e, "Alpha"@), u8::MAX as int) == Ok::<Option<nat>, DomFault>(
        opt_nat_u8(v.alpha),
    )
    &&& match child_of(e, "Pattern"@) {
        None => v.pattern is None,
        Some(c) => {
            proof {
                lemma_child_of_depth(e, "Pattern"@);
            }
            v.pattern matches Some(p) && pattern_read(p, c)
        },
    }
}

pub open spec fn pattern_read(v: CtPattern, e: XmlElement) -> bool
    decreases depth(e), 1nat, 0nat,
{
    &&& float_of(attr_of(e, "Width"@)) == Ok::<Option<Seq<char>>, DomFault>(Some(v.width@))
    &&& float_of(attr_of(e, "Height"@)) == Ok::<Option<Seq<char>>, DomFault>(Some(v.height@))
    &&& float_of(attr_of(e, "XStep"@)) == Ok::<Option<Seq<char>>, DomFault>(opt_view(v.x_step))
    &&& float_of(attr_of(e, "YStep"@)) == Ok::<Option<Seq<char>>, DomFault>(opt_view(v.y_step))
    &&& opt_view(v.reflect_method) == attr_of(e, "ReflectMethod"@)
    &&& opt_view(v.relative_to) == attr_of(e, "RelativeTo"@)
    &&& floats_of(attr_of(e, "CTM"@)) == Ok::<Option<Seq<Seq<char>>>, DomFault>(opt_words(v.ctm))
    &&& cells_read(depth(e), v.cell_content@, children_named(e, "CellContent"@))
}

/// Each cell of `vs` is read from the element of `cs` at its position.
pub open spec fn cells_read(d: nat, vs: Seq<CellContent>, cs: Seq<XmlElement>) -> bool
    decreases d, 0nat, cs.len(),
{
    if cs.len() == 0 {
        vs.len() == 0
    } else {
        &&& vs.len() == cs.len()
        &&& cells_read(d, vs.drop_last(), cs.drop_last())
        &&& if depth(cs.last()) < d {
            cell_read(vs.last(), cs.last())
        } else {
            true
        }
    }
}

pub open spec fn cell_read(v: CellContent, e: XmlElement) -> bool
    decreases depth(e), 2nat, 0nat,
{
    &&& uint_of(attr_of(e, "Thumbnail"@), u64::MAX as int) == Ok::<Option<nat>, DomFault>(
        opt_nat_u64(v.thumbnail),
    )
    &&& unit_read(v.base, e)
}

pub open spec fn unit_read(v: VtGraphicUnit, e: XmlElement) -> bool
    decreases depth(e), 1nat, 0nat,
{
    match v {
        VtGraphicUnit::TextObject(t) => e.name@ == "TextObject"@ && text_object_read(t, e),
        VtGraphicUnit::PathObject(p) => e.name@ == "PathObject"@ && path_object_read(p, e),
        VtGraphicUnit::ImageObject(i) => e.name@ == "ImageObject"@ && image_object_read(i, e),
    }
}

pub open spec fn color_child_read(v: Option<CtColor>, e: XmlElement, n: Seq<char>) -> bool
    decreases depth(e), 0nat, 1nat,
{
    match child_of(e, n) {
        None => v is None,
        Some(c) => {
            proof {
                lemma_child_of_depth(e, n);
            }
            v matches Some(x) && color_read(x, c)
        },
    }
}

pub open spec fn text_object_read(v: TextObject, e: XmlElement) -> bool
    decreases depth(e), 0nat, 2nat,
{
    &&& uint_of(attr_of(e, "ID"@), u64::MAX as int) == Ok::<Option<nat>, DomFault>(Some(v.id as nat))
    &&& uint_of(attr_of(e, "Font"@), u64::MAX as int) == Ok::<Option<nat>, DomFault>(Some(v.font as nat))
    &&& float_of(attr_of(e, "Size"@)) == Ok::<Option<Seq<char>>, DomFault>(Some(v.size@))
    &&& bool_of(attr_of(e, "Stroke"@)) == Ok::<Option<bool>, DomFault>(v.stroke)
    &&& bool_of(attr_of(e, "Fill"@)) == Ok::<Option<bool>, DomFault>(v.fill)
    &&& float_of(attr_of(e, "HScale"@)) == Ok::<Option<Seq<char>>, DomFault>(opt_view(v.h_scale))
    &&& uint_of(attr_of(e, "ReadDirection"@), u32::MAX as int) == Ok::<Option<nat>, DomFault>(
        opt_nat_u32(v.read_direction),
    )
    &&& uint_of(attr_of(e, "CharDirection"@), u32::MAX as int) == Ok::<Option<nat>, DomFault>(
        opt_nat_u32(v.char_direction),
    )
    &&& uint_of(attr_of(e, "Weight"@), u32::MAX as int) == Ok::<Option<nat>, DomFault>(
        opt_nat_u32(v.weight),
    )
    &&& bool_of(attr_of(e, "Italic"@)) == Ok::<Option<bool>, DomFault>(v.italic)
    &&& color_child_read(v.fill_color, e, "FillColor"@)
    &&& color_child_read(v.stroke_color, e, "StrokeColor"@)
    &&& tv_read(v.text_vals@, e)
    &&& v.common().read_from(e)
    &&& v.actions is None
}

pub open spec fn path_object_read(v: PathObject, e: XmlElement) -> bool
    decreases depth(e), 0nat, 2nat,
{
    &&& uint_of(attr_of(e, "ID"@), u64::MAX as int) == Ok::<Option<nat>, DomFault>(Some(v.id as nat))
    &&& bool_of(attr_of(e, "Stroke"@)) == Ok::<Option<bool>, DomFault>(v.stroke)
    &&& bool_of(attr_of(e, "Fill"@)) == Ok::<Option<bool>, DomFault>(v.fill)
    &&& fill_rule_of(attr_of(e, "Rule"@)) == Ok::<Option<FillRule>, DomFault>(v.rule)
    &&& color_child_read(v.fill_color, e, "FillColor"@)
    &&& color_child_read(v.stroke_color, e, "StrokeColor"@)
    &&& words_of(child_text(e, "AbbreviatedData"@)) == Ok::<Option<Seq<Seq<char>>>, DomFault>(
        Some(words_view(v.abbreviated_data)),
    )
    &&& v.common().read_from(e)
    &&& v.actions is None
}

pub open spec fn image_object_read(v: ImageObject, e: XmlElement) -> bool
    decreases depth(e), 0nat, 2nat,
{
    &&& uint_of(attr_of(e, "ID"@), u64::MAX as int) == Ok::<Option<nat>, DomFault>(Some(v.id as nat))
    &&& uint_of(attr_of(e, "ResourceID"@), u64::MAX as int) == Ok::<Option<nat>, DomFault>(
        Some(v.resource_id as nat),
    )
    &&& uint_of(attr_of(e, "Substitution"@), u64::MAX as int) == Ok::<Option<nat>, DomFault>(
        opt_nat_u64(v.substitution),
    )
    &&& uint_of(attr_of(e, "ImageMask"@), u64::MAX as int) == Ok::<Option<nat>, DomFault>(
        opt_nat_u64(v.image_mask),
    )
    &&& match child_of(e, "Border"@) {
        None => v.border is None,
        Some(c) => {
            proof {
                lemma_child_of_depth(e, "Border"@);
            }
            v.border matches Some(b) && border_read(b, c)
        },
    }
    &&& v.common().read_from(e)
    &&& v.actions is None
}

pub open spec fn border_read(v: Border, e: XmlElement) -> bool
    decreases depth(e), 0nat, 2nat,
{
    &&& float_of(attr_of(e, "LineWidth"@)) == Ok::<Option<Seq<char>>, DomFault>(Some(v.line_width@))
    &&& float_of(attr_of(e, "HorizontalCornerRadius"@)) == Ok::<Option<Seq<char>>, DomFault>(
        opt_view(v.horizontal_corner_radius),
    )
    &&& float_of(attr_of(e, "VerticalCornerRadius"@)) == Ok::<Option<Seq<char>>, DomFault>(
        opt_view(v.vertical_corner_radius),
    )
    &&& float_of(attr_of(e, "DashOffset"@)) == Ok::<Option<Seq<char>>, DomFault>(
        opt_view(v.dash_offset),
    )
    &&& floats_of(attr_of(e, "DashPattern"@)) == Ok::<Option<Seq<Seq<char>>>, DomFault>(
        opt_words(v.dash_pattern),
    )
    &&& color_child_read(v.border_color, e, "BorderColor"@)
}

impl TextObject {
    pub open spec fn common(self) -> CommonFields {
        CommonFields {
            boundary: self.boundary,
            name: self.name,
            visible: self.visible,
            ctm: self.ctm,
            draw_param: self.draw_param,
            line_width: self.line_width,
            cap: self.cap,
            join: self.join,
            miter_limit: self.miter_limit,
            dash_offset: self.dash_offset,
            dash_pattern: self.dash_pattern,
            alpha: self.alpha,
        }
    }
}

impl PathObject {
    pub open spec fn common(self) -> CommonFields {
        CommonFields {
            boundary: self.boundary,
            name: self.name,
            visible: self.visible,
            ctm: self.ctm,
            draw_param: self.draw_param,
            line_width: self.line_width,
            cap: self.cap,
            join: self.join,
            miter_limit: self.miter_limit,
            dash_offset: self.dash_offset,
            dash_pattern: self.dash_pattern,
            alpha: self.alpha,
        }
    }
}

impl ImageObject {
    pub open spec fn common(self) -> CommonFields {
        CommonFields {
            boundary: self.boundary,
            name: self.name,
            visible: self.visible,
            ctm: self.ctm,
            draw_param: self.draw_param,
            line_width: self.line_width,
            cap: self.cap,
            join: self.join,
            miter_limit: self.miter_limit,
            dash_offset: self.dash_offset,
            dash_pattern: self.dash_pattern,
            alpha: self.alpha,
        }
    }
}

// ---------------------------------------------------------------------------
// The conversions
// ---------------------------------------------------------------------------

pub fn read_common(dom: &XmlElement) -> (r: Result<CommonFields, TryFromDomError>)
    ensures
        outcome(r) == common_outcome(*dom),
        r matches Ok(c) ==> c.read_from(*dom),
{
    let boundary = req_attr(read_box(attr_text_of(dom, "Boundary")), "Boundary")?;
    let name = read_str(attr_text_of(dom, "Name"))?;
    let visible = read_bool(attr_text_of(dom, "Visible"))?;
    let ctm = read_floats(attr_text_of(dom, "CTM"))?;
    let draw_param = read_uint(attr_text_of(dom, "DrawParam"), u64::MAX)?;
    let line_width = read_float(attr_text_of(dom, "LineWidth"))?;
    let cap = read_cap(attr_text_of(dom, "Cap"))?;
    let join = read_join(attr_text_of(dom, "Join"))?;
    let miter_limit = read_float(attr_text_of(dom, "MiterLimit"))?;
    let dash_offset = read_float(attr_text_of(dom, "DashOffset"))?;
    let dash_pattern = read_floats(attr_text_of(dom, "DashPattern"))?;
    let alpha = read_u8(attr_text_of(dom, "Alpha"))?;
    if dom.get_child("Actions").is_some() {
        return Err(TryFromDomError::Unhandled);
    }
    Ok(CommonFields {
        boundary,
        name,
        visible,
        ctm,
        draw_param,
        line_width,
        cap,
        join,
        miter_limit,
        dash_offset,
        dash_pattern,
        alpha,
    })
}

pub fn read_cgt(dom: &XmlElement) -> (r: Result<CGTransform, TryFromDomError>)
    ensures
        outcome(r) == cgt_outcome(*dom),
        r matches Ok(v) ==> v.read_from(*dom),
{
    let code_position = req_attr(read_u32(attr_text_of(dom, "CodePosition")), "CodePosition")?;
    let code_count = read_u32(attr_text_of(dom, "CodeCount"))?;
    let glyph_count = read_u32(attr_text_of(dom, "GlyphCount"))?;
    let glyphs = req_elem(read_u32s(child_text_of(dom, "Glyphs")), "Glyphs")?;
    Ok(CGTransform { code_position, code_count, glyph_count, glyphs })
}

pub fn read_text_code(dom: &XmlElement) -> (r: Result<TextCode, TryFromDomError>)
    ensures
        outcome(r) == text_code_outcome(*dom),
        r matches Ok(v) ==> v.read_from(*dom),
{
    let x = read_float(attr_text_of(dom, "X"))?;
    let y = read_float(attr_text_of(dom, "Y"))?;
    let delta_x = read_words(attr_text_of(dom, "DeltaX"))?;
    let delta_y = read_words(attr_text_of(dom, "DeltaY"))?;
    let val = dom.text.clone();
    Ok(TextCode { x, y, delta_x, delta_y, val })
}

/// A fault in a prefix of the pairing is the fault of the whole.
proof fn lemma_tv_prefix(cs: Seq<XmlElement>, n: int)
    requires
        0 <= n <= cs.len(),
        tv_run(cs.take(n)) is Fault,
    ensures
        tv_run(cs) == tv_run(cs.take(n)),
    decreases cs.len() - n,
{
    if n < cs.len() {
        assert(cs.take(n + 1).drop_last() =~= cs.take(n));
        lemma_tv_prefix(cs, n + 1);
    } else {
        assert(cs.take(n) =~= cs);
    }
}

proof fn lemma_text_kids_prefix(e: XmlElement, j: int)
    requires
        0 <= j <= e.children@.len(),
    ensures
        e.children@.take(j).filter(text_part()).len() <= text_kids(e).len(),
        forall|m: int|
            0 <= m < e.children@.take(j).filter(text_part()).len() ==> text_kids(e)[m]
                == #[trigger] e.children@.take(j).filter(text_part())[m],
{
    let f = text_part();
    let a = e.children@.take(j);
    let b = e.children@.skip(j);
    assert(a + b =~= e.children@);
    Seq::filter_distributes_over_add(a, b, f);
}

/// Pairs the glyph transforms and text codes among the children of a text
/// object.
pub fn read_text_vals(dom: &XmlElement) -> (r: Result<Vec<TextVal>, TryFromDomError>)
    ensures
        match tv_run(text_kids(*dom)) {
            TvRun::Fault(f) => r matches Err(e) && e.fault() == f,
            TvRun::Run { vals, .. } => r matches Ok(v) && tv_matches(v@, text_kids(*dom), vals),
        },
{
    let ghost f = text_part();
    let ghost cs = dom.children@;
    let mut res: Vec<TextVal> = Vec::new();
    let mut temp_cg: Option<CGTransform> = None;
    let ghost mut pending: Option<int> = None;
    let ghost mut idx: Seq<(Option<int>, int)> = Seq::empty();
    let mut j: usize = 0;
    proof {
        reveal(Seq::filter);
        assert(cs.take(0) =~= Seq::<XmlElement>::empty());
    }
    while j < dom.children.len()
        invariant
            j <= cs.len(),
            cs == dom.children@,
            f == text_part(),
            tv_run(cs.take(j as int).filter(f)) == (TvRun::Run { pending, vals: idx }),
            tv_matches(res@, cs.take(j as int).filter(f), idx),
            match pending {
                Some(p) => 0 <= p < cs.take(j as int).filter(f).len() && (temp_cg matches Some(g)
                    && g.read_from(cs.take(j as int).filter(f)[p])),
                None => temp_cg is None,
            },
        decreases cs.len() - j,
    {
        let ghost kids = cs.take(j as int).filter(f);
        let c = &dom.children[j];
        proof {
            reveal(Seq::filter);
            assert(cs.take(j + 1).drop_last() =~= cs.take(j as int));
            assert(cs.take(j + 1).last() == cs[j as int]);
        }
        if c.is_named("CGTransform") {
            let ghost kids1 = kids.push(*c);
            assert(cs.take(j + 1).filter(f) == kids1);
            assert(kids1.drop_last() =~= kids);
            if temp_cg.is_some() {
                proof {
                    lemma_text_kids_prefix(*dom, j + 1);
                    assert(text_kids(*dom).take(kids1.len() as int) =~= kids1);
                    lemma_tv_prefix(text_kids(*dom), kids1.len() as int);
                }
                return Err(name_not_expected("TextCode", &"CGTransform".to_owned()));
            }
            match read_cgt(c) {
                Ok(g) => {
                    temp_cg = Some(g);
                    proof {
                        pending = Some(kids.len() as int);
                        assert forall|k: int| 0 <= k < res@.len() implies ({
                            &&& 0 <= (#[trigger] idx[k]).1 < kids1.len()
                            &&& res@[k].text_code.read_from(kids1[idx[k].1])
                            &&& match idx[k].0 {
                                Some(q) => 0 <= q < kids1.len() && (res@[k].cg_transform matches Some(
                                    g,
                                ) && g.read_from(kids1[q])),
                                None => res@[k].cg_transform is None,
                            }
                        }) by {
                            assert(kids1[idx[k].1] == kids[idx[k].1]);
                            if idx[k].0 is Some {
                                assert(kids1[idx[k].0.unwrap()] == kids[idx[k].0.unwrap()]);
                            }
                        }
                    }
                },
                Err(e) => {
                    proof {
                        lemma_text_kids_prefix(*dom, j + 1);
                        assert(text_kids(*dom).take(kids1.len() as int) =~= kids1);
                        lemma_tv_prefix(text_kids(*dom), kids1.len() as int);
                    }
                    return Err(e);
                },
            }
        } else if c.is_named("TextCode") {
            let ghost kids1 = kids.push(*c);
            assert(cs.take(j + 1).filter(f) == kids1);
            assert(kids1.drop_last() =~= kids);
            match read_text_code(c) {
                Ok(t) => {
                    let mut cg: Option<CGTransform> = None;
                    std::mem::swap(&mut cg, &mut temp_cg);
                    res.push(TextVal { cg_transform: cg, text_code: t });
                    proof {
                        idx = idx.push((pending, kids.len() as int));
                        pending = None;
                        assert forall|k: int| 0 <= k < res@.len() implies ({
                            &&& 0 <= (#[trigger] idx[k]).1 < kids1.len()
                            &&& res@[k].text_code.read_from(kids1[idx[k].1])
                            &&& match idx[k].0 {
                                Some(q) => 0 <= q < kids1.len() && (res@[k].cg_transform matches Some(
                                    g,
                                ) && g.read_from(kids1[q])),
                                None => res@[k].cg_transform is None,
                            }
                        }) by {
                            if k < res@.len() - 1 {
                                assert(kids1[idx[k].1] == kids[idx[k].1]);
                                if idx[k].0 is Some {
                                    assert(kids1[idx[k].0.unwrap()] == kids[idx[k].0.unwrap()]);
                                }
                            }
                        }
                    }
                },
                Err(e) => {
                    proof {
                        lemma_text_kids_prefix(*dom, j + 1);
                        assert(text_kids(*dom).take(kids1.len() as int) =~= kids1);
                        lemma_tv_prefix(text_kids(*dom), kids1.len() as int);
                    }
                    return Err(e);
                },
            }
        } else {
            assert(cs.take(j + 1).filter(f) == kids);
        }
        j = j + 1;
    }
    assert(cs.take(j as int) =~= cs);
    Ok(res)
}

/// A fault among the first `n` cells is the fault of all of them.
proof fn lemma_cells_prefix(d: nat, cs: Seq<XmlElement>, n: int)
    requires
        0 <= n <= cs.len(),
        cells_outcome(d, cs.take(n)) is Err,
    ensures
        cells_outcome(d, cs) == cells_outcome(d, cs.take(n)),
    decreases cs.len() - n,
{
    if n < cs.len() {
        assert(cs.take(n + 1).drop_last() =~= cs.take(n));
        lemma_cells_prefix(d, cs, n + 1);
    } else {
        assert(cs.take(n) =~= cs);
    }
}

pub fn read_color(dom: &XmlElement) -> (r: Result<CtColor, TryFromDomError>)
    ensures
        outcome(r) == color_outcome(*dom),
        r matches Ok(v) ==> color_read(v, *dom),
    decreases depth(*dom), 0nat, 0nat,
{
    let value = read_u16s(attr_text_of(dom, "Value"))?;
    let index = read_usize(attr_text_of(dom, "Index"))?;
    let color_space = read_uint(attr_text_of(dom, "ColorSpace"), u64::MAX)?;
    let alpha = read_u8(attr_text_of(dom, "Alpha"))?;
    let pattern = match dom.get_child("Pattern") {
        None => None,
        Some(c) => {
            proof {
                lemma_child_of_depth(*dom, "Pattern"@);
            }
            Some(read_pattern(c)?)
        },
    };
    Ok(CtColor { value, index, color_space, alpha, pattern })
}

pub fn read_pattern(dom: &XmlElement) -> (r: Result<CtPattern, TryFromDomError>)
    ensures
        outcome(r) == pattern_outcome(*dom),
        r matches Ok(v) ==> pattern_read(v, *dom),
    decreases depth(*dom), 1nat, 0nat,
{
    let width = req_attr(read_float(attr_text_of(dom, "Width")), "Width")?;
    let height = req_attr(read_float(attr_text_of(dom, "Height")), "Height")?;
    let x_step = read_float(attr_text_of(dom, "XStep"))?;
    let y_step = read_float(attr_text_of(dom, "YStep"))?;
    let reflect_method = read_str(attr_text_of(dom, "ReflectMethod"))?;
    let relative_to = read_str(attr_text_of(dom, "RelativeTo"))?;
    let ctm = read_floats(attr_text_of(dom, "CTM"))?;
    let cell_content = read_cells(dom)?;
    proof {
        lemma_named_depth(*dom, "CellContent"@);
    }
    if cell_content.len() == 0 {
        return Err(TryFromDomError::NoSuchElement("CellContent".to_owned()));
    }
    Ok(CtPattern { width, height, x_step, y_step, reflect_method, relative_to, ctm, cell_content })
}

/// Reads the cells of a pattern, in order.
pub fn read_cells(dom: &XmlElement) -> (r: Result<Vec<CellContent>, TryFromDomError>)
    ensures
        match cells_outcome(depth(*dom), children_named(*dom, "CellContent"@)) {
            Err(f) => r matches Err(e) && e.fault() == f,
            Ok(_) => r matches Ok(v) && v@.len() == children_named(*dom, "CellContent"@).len()
                && cells_read(depth(*dom), v@, children_named(*dom, "CellContent"@)),
        },
    decreases depth(*dom), 0nat, 3nat,
{
    let ghost d = depth(*dom);
    let ghost cs = children_named(*dom, "CellContent"@);
    let pos = named_children(dom, "CellContent");
    proof {
        lemma_named_depth(*dom, "CellContent"@);
        assert(cs.take(0) =~= Seq::<XmlElement>::empty());
    }
    let mut cell_content: Vec<CellContent> = Vec::new();
    let mut k: usize = 0;
    while k < pos.len()
        invariant
            k <= pos@.len() == cs.len(),
            d == depth(*dom),
            cs == children_named(*dom, "CellContent"@),
            forall|m: int|
                0 <= m < pos@.len() ==> (#[trigger] pos@[m]) < dom.children@.len()
                    && dom.children@[pos@[m] as int] == cs[m],
            forall|m: int| 0 <= m < cs.len() ==> depth(#[trigger] cs[m]) < d,
            cells_outcome(d, cs.take(k as int)) == Ok::<(), DomFault>(()),
            cell_content@.len() == k,
            cells_read(d, cell_content@, cs.take(k as int)),
        decreases pos@.len() - k,
    {
        let c = &dom.children[pos[k]];
        assert(cs.take(k + 1).drop_last() =~= cs.take(k as int));
        assert(cs.take(k + 1).last() == cs[k as int]);
        assert(depth(*c) < d);
        proof {
            if cell_outcome(*c) is Err {
                lemma_cells_prefix(d, cs, k + 1);
            }
        }
        let ghost before = cell_content@;
        match read_cell(c) {
            Ok(v) => {
                cell_content.push(v);
                assert(cell_content@.drop_last() =~= before);
                assert(cell_content@.last() == v);
                assert(cells_read(d, cell_content@, cs.take(k + 1)));
            },
            Err(e) => {
                return Err(e);
            },
        }
        k = k + 1;
    }
    assert(cs.take(k as int) =~= cs);
    Ok(cell_content)
}

pub fn read_cell(dom: &XmlElement) -> (r: Result<CellContent, TryFromDomError>)
    ensures
        outcome(r) == cell_outcome(*dom),
        r matches Ok(v) ==> cell_read(v, *dom),
    decreases depth(*dom), 2nat, 0nat,
{
    let thumbnail = read_uint(attr_text_of(dom, "Thumbnail"), u64::MAX)?;
    let base = read_unit(dom)?;
    Ok(CellContent { thumbnail, base })
}

pub fn read_unit(dom: &XmlElement) -> (r: Result<VtGraphicUnit, TryFromDomError>)
    ensures
        outcome(r) == unit_outcome(*dom),
        r matches Ok(v) ==> unit_read(v, *dom),
    decreases depth(*dom), 1nat, 0nat,
{
    if dom.is_named("TextObject") {
        Ok(VtGraphicUnit::TextObject(read_text_object(dom)?))
    } else if dom.is_named("PathObject") {
        Ok(VtGraphicUnit::PathObject(read_path_object(dom)?))
    } else if dom.is_named("ImageObject") {
        Ok(VtGraphicUnit::ImageObject(read_image_object(dom)?))
    } else if dom.is_named("CompositeObject") || dom.is_named("PageBlock") {
        Err(TryFromDomError::Unhandled)
    } else {
        Err(
            name_not_expected(
                "one of \"TextObject, PathObject, ImageObject, CompositeObject, PageBlock\"",
                &dom.name,
            ),
        )
    }
}

pub fn read_color_child(dom: &XmlElement, name: &str) -> (r: Result<Option<CtColor>, TryFromDomError>)
    ensures
        match color_child_outcome(*dom, name@) {
            Err(f) => r matches Err(e) && e.fault() == f,
            Ok(_) => r matches Ok(v) && color_child_read(v, *dom, name@),
        },
    decreases depth(*dom), 0nat, 1nat,
{
    match dom.get_child(name) {
        None => Ok(None),
        Some(c) => {
            proof {
                lemma_child_of_depth(*dom, name@);
            }
            Ok(Some(read_color(c)?))
        },
    }
}

pub fn read_text_object(dom: &XmlElement) -> (r: Result<TextObject, TryFromDomError>)
    ensures
        outcome(r) == text_object_outcome(*dom),
        r matches Ok(v) ==> text_object_read(v, *dom),
    decreases depth(*dom), 0nat, 2nat,
{
    let id = req_attr(read_uint(attr_text_of(dom, "ID"), u64::MAX), "ID")?;
    let font = req_attr(read_uint(attr_text_of(dom, "Font"), u64::MAX), "Font")?;
    let size = req_attr(read_float(attr_text_of(dom, "Size")), "Size")?;
    let stroke = read_bool(attr_text_of(dom, "Stroke"))?;
    let fill = read_bool(attr_text_of(dom, "Fill"))?;
    let h_scale = read_float(attr_text_of(dom, "HScale"))?;
    let read_direction = read_u32(attr_text_of(dom, "ReadDirection"))?;
    let char_direction = read_u32(attr_text_of(dom, "CharDirection"))?;
    let weight = read_u32(attr_text_of(dom, "Weight"))?;
    let italic = read_bool(attr_text_of(dom, "Italic"))?;
    let fill_color = read_color_child(dom, "FillColor")?;
    let stroke_color = read_color_child(dom, "StrokeColor")?;
    let text_vals = read_text_vals(dom)?;
    let c = read_common(dom)?;
    Ok(TextObject {
        id,
        font,
        size,
        stroke,
        fill,
        h_scale,
        read_direction,
        char_direction,
        weight,
        italic,
        fill_color,
        stroke_color,
        text_vals,
        boundary: c.boundary,
        name: c.name,
        visible: c.visible,
        ctm: c.ctm,
        draw_param: c.draw_param,
        line_width: c.line_width,
        cap: c.cap,
        join: c.join,
        miter_limit: c.miter_limit,
        dash_offset: c.dash_offset,
        dash_pattern: c.dash_pattern,
        alpha: c.alpha,
        actions: None,
    })
}

pub fn read_path_object(dom: &XmlElement) -> (r: Result<PathObject, TryFromDomError>)
    ensures
        outcome(r) == path_object_outcome(*dom),
        r matches Ok(v) ==> path_object_read(v, *dom),
    decreases depth(*dom), 0nat, 2nat,
{
    let id = req_attr(read_uint(attr_text_of(dom, "ID"), u64::MAX), "ID")?;
    let stroke = read_bool(attr_text_of(dom, "Stroke"))?;
    let fill = read_bool(attr_text_of(dom, "Fill"))?;
    let rule = read_fill_rule(attr_text_of(dom, "Rule"))?;
    let fill_color = read_color_child(dom, "FillColor")?;
    let stroke_color = read_color_child(dom, "StrokeColor")?;
    let abbreviated_data = req_elem(
        read_words(child_text_of(dom, "AbbreviatedData")),
        "AbbreviatedData",
    )?;
    let c = read_common(dom)?;
    Ok(PathObject {
        id,
        stroke,
        fill,
        rule,
        fill_color,
        stroke_color,
        abbreviated_data,
        boundary: c.boundary,
        name: c.name,
        visible: c.visible,
        ctm: c.ctm,
        draw_param: c.draw_param,
        line_width: c.line_width,
        cap: c.cap,
        join: c.join,
        miter_limit: c.miter_limit,
        dash_offset: c.dash_offset,
        dash_pattern: c.dash_pattern,
        alpha: c.alpha,
        actions: None,
    })
}

pub fn read_image_object(dom: &XmlElement) -> (r: Result<ImageObject, TryFromDomError>)
    ensures
        outcome(r) == image_object_outcome(*dom),
        r matches Ok(v) ==> image_object_read(v, *dom),
    decreases depth(*dom), 0nat, 2nat,
{
    let id = req_attr(read_uint(attr_text_of(dom, "ID"), u64::MAX), "ID")?;
    let resource_id = req_attr(read_uint(attr_text_of(dom, "ResourceID"), u64::MAX), "ResourceID")?;
    let substitution = read_uint(attr_text_of(dom, "Substitution"), u64::MAX)?;
    let image_mask = read_uint(attr_text_of(dom, "ImageMask"), u64::MAX)?;
    let border = match dom.get_child("Border") {
        None => None,
        Some(b) => {
            proof {
                lemma_child_of_depth(*dom, "Border"@);
            }
            Some(read_border(b)?)
        },
    };
    let c = read_common(dom)?;
    Ok(ImageObject {
        id,
        resource_id,
        substitution,
        image_mask,
        border,
        boundary: c.boundary,
        name: c.name,
        visible: c.visible,
        ctm: c.ctm,
        draw_param: c.draw_param,
        line_width: c.line_width,
        cap: c.cap,
        join: c.join,
        miter_limit: c.miter_limit,
        dash_offset: c.dash_offset,
        dash_pattern: c.dash_pattern,
        alpha: c.alpha,
        actions: None,
    })
}

pub fn read_border(dom: &XmlElement) -> (r: Result<Border, TryFromDomError>)
    ensures
        outcome(r) == border_outcome(*dom),
        r matches Ok(v) ==> border_read(v, *dom),
    decreases depth(*dom), 0nat, 2nat,
{
    let line_width = req_attr(read_float(attr_text_of(dom, "LineWidth")), "LineWidth")?;
    let horizontal_corner_radius = read_float(attr_text_of(dom, "HorizontalCornerRadius"))?;
    let vertical_corner_radius = read_float(attr_text_of(dom, "VerticalCornerRadius"))?;
    let dash_offset = read_float(attr_text_of(dom, "DashOffset"))?;
    let dash_pattern = read_floats(attr_text_of(dom, "DashPattern"))?;
    let border_color = read_color_child(dom, "BorderColor")?;
    Ok(Border {
        line_width,
        horizontal_corner_radius,
        vertical_corner_radius,
        dash_offset,
        dash_pattern,
        border_color,
    })
}

impl<'a> TryFromDom<&'a XmlElement> for VtGraphicUnit {
    open spec fn unhandled(dom: &'a XmlElement) -> bool {
        unit_outcome(*dom) == Err::<(), DomFault>(DomFault::Unimplemented)
    }

    fn try_from_dom(dom: &'a XmlElement) -> (r: Result<Self, TryFromDomError>)
        ensures
            outcome(r) == unit_outcome(*dom),
            r matches Ok(v) ==> unit_read(v, *dom),
    {
        read_unit(dom)
    }
}

impl<'a> TryFromDom<&'a XmlElement> for CtColor {
    open spec fn unhandled(dom: &'a XmlElement) -> bool {
        color_outcome(*dom) == Err::<(), DomFault>(DomFault::Unimplemented)
    }

    fn try_from_dom(dom: &'a XmlElement) -> (r: Result<Self, TryFromDomError>)
        ensures
            outcome(r) == color_outcome(*dom),
            r matches Ok(v) ==> color_read(v, *dom),
    {
        read_color(dom)
    }
}

impl<'a> TryFromDom<&'a XmlElement> for CtPattern {
    open spec fn unhandled(dom: &'a XmlElement) -> bool {
        pattern_outcome(*dom) == Err::<(), DomFault>(DomFault::Unimplemented)
    }

    fn try_from_dom(dom: &'a XmlElement) -> (r: Result<Self, TryFromDomError>)
        ensures
            outcome(r) == pattern_outcome(*dom),
            r matches Ok(v) ==> pattern_read(v, *dom),
    {
        read_pattern(dom)
    }
}

impl<'a> TryFromDom<&'a XmlElement> for CellContent {
    open spec fn unhandled(dom: &'a XmlElement) -> bool {
        cell_outcome(*dom) == Err::<(), DomFault>(DomFault::Unimplemented)
    }

    fn try_from_dom(dom: &'a XmlElement) -> (r: Result<Self, TryFromDomError>)
        ensures
            outcome(r) == cell_outcome(*dom),
            r matches Ok(v) ==> cell_read(v, *dom),
    {
        read_cell(dom)
    }
}

impl<'a> TryFromDom<&'a XmlElement> for Border {
    open spec fn unhandled(dom: &'a XmlElement) -> bool {
        border_outcome(*dom) == Err::<(), DomFault>(DomFault::Unimplemented)
    }

    fn try_from_dom(dom: &'a XmlElement) -> (r: Result<Self, TryFromDomError>)
        ensures
            outcome(r) == border_outcome(*dom),
            r matches Ok(v) ==> border_read(v, *dom),
    {
        read_border(dom)
    }
}

impl<'a> TryFromDom<&'a XmlElement> for CGTransform {
    open spec fn unhandled(dom: &'a XmlElement) -> bool {
        cgt_outcome(*dom) == Err::<(), DomFault>(DomFault::Unimplemented)
    }

    fn try_from_dom(dom: &'a XmlElement) -> (r: Result<Self, TryFromDomError>)
        ensures
            outcome(r) == cgt_outcome(*dom),
            r matches Ok(v) ==> v.read_from(*dom),
    {
        read_cgt(dom)
    }
}

impl<'a> TryFromDom<&'a XmlElement> for TextCode {
    open spec fn unhandled(dom: &'a XmlElement) -> bool {
        text_code_outcome(*dom) == Err::<(), DomFault>(DomFault::Unimplemented)
    }

    fn try_from_dom(dom: &'a XmlElement) -> (r: Result<Self, TryFromDomError>)
        ensures
            outcome(r) == text_code_outcome(*dom),
            r matches Ok(v) ==> v.read_from(*dom),
    {
        read_text_code(dom)
    }
}

} // verus!
