//! A page or a template of an OFD document, `Content.xml`: its area,
//! templates, resources and layers of graphic units.
use crate::document::{area_outcome, named_texts, opt_views, CtPageArea};
use crate::dom::{
    all_ok, attr_text_of, check, lemma_all_ok_prefix, named_children, no_attr, no_elem, opt_view,
    outcome, read_str, read_uint, req_attr, required, str_of, then, uint_of, DomFault,
    TryFromDom, TryFromDomError,
};
use crate::graphic::{unit_outcome, unit_read, CGTransform, TextCode, TextVal, VtGraphicUnit};
use crate::xml::{attr_of, child_of, children_named, XmlElement};
use vstd::prelude::*;

verus! {

pub struct PageXmlFile {
    /// size
    pub area: Option<CtPageArea>,
    pub template: Option<Vec<Template>>,
    pub page_res: Option<Vec<String>>,
    pub content: Option<Content>,
}

pub struct Layer {
    pub typ: Option<String>,
    pub draw_param: Option<u64>,
    pub id: u64,
    pub objects: Option<Vec<VtGraphicUnit>>,
}

pub struct Content {
    pub layer: Vec<Layer>,
}

/// The common attributes of a layer.
pub struct CtLayer {
    pub typ: Option<String>,
    pub draw_param: Option<u64>,
}

pub struct Template {
    pub template_id: u64,
    pub z_order: Option<String>,
}

// ---------------------------------------------------------------------------
// What each structure needs of its element
// ---------------------------------------------------------------------------

pub open spec fn template_outcome(e: XmlElement) -> Result<(), DomFault> {
    check(required(uint_of(attr_of(e, "TemplateID"@), u64::MAX as int), no_attr("TemplateID"@)))
}

impl Template {
    pub open spec fn read_from(self, e: XmlElement) -> bool {
        &&& uint_of(attr_of(e, "TemplateID"@), u64::MAX as int) == Ok::<Option<nat>, DomFault>(
            Some(self.template_id as nat),
        )
        &&& opt_view(self.z_order) == attr_of(e, "zOrder"@)
    }
}

pub open spec fn layer_outcome(e: XmlElement) -> Result<(), DomFault> {
    then(check(uint_of(attr_of(e, "DrawParam"@), u64::MAX as int)),
    then(check(required(uint_of(attr_of(e, "ID"@), u64::MAX as int), no_attr("ID"@))),
    all_ok(e.children@, |c: XmlElement| unit_outcome(c))))
}

impl Layer {
    pub open spec fn read_from(self, e: XmlElement) -> bool {
        &&& opt_view(self.typ) == attr_of(e, "Type"@)
        &&& uint_of(attr_of(e, "DrawParam"@), u64::MAX as int) == Ok::<Option<nat>, DomFault>(
            crate::dom::opt_nat_u64(self.draw_param),
        )
        &&& uint_of(attr_of(e, "ID"@), u64::MAX as int) == Ok::<Option<nat>, DomFault>(
            Some(self.id as nat),
        )
        &&& match self.objects {
            None => e.children@.len() == 0,
            Some(v) => v@.len() == e.children@.len() && v@.len() > 0 && forall|i: int|
                0 <= i < v@.len() ==> unit_read(#[trigger] v@[i], e.children@[i]),
        }
    }
}

pub open spec fn content_outcome(e: XmlElement) -> Result<(), DomFault> {
    match all_ok(children_named(e, "Layer"@), |c: XmlElement| layer_outcome(c)) {
        Err(f) => Err(f),
        Ok(_) => if children_named(e, "Layer"@).len() == 0 {
            Err(no_elem("Layer"@))
        } else {
            Ok(())
        },
    }
}

impl Content {
    pub open spec fn read_from(self, e: XmlElement) -> bool {
        &&& self.layer@.len() == children_named(e, "Layer"@).len()
        &&& forall|i: int|
            0 <= i < self.layer@.len() ==> (#[trigger] self.layer@[i]).read_from(
                children_named(e, "Layer"@)[i],
            )
    }
}

pub open spec fn page_file_outcome(e: XmlElement) -> Result<(), DomFault> {
    then(
        match child_of(e, "Area"@) {
            None => Ok(()),
            Some(c) => area_outcome(c),
        },
        then(
            all_ok(children_named(e, "Template"@), |c: XmlElement| template_outcome(c)),
            match child_of(e, "Content"@) {
                None => Ok(()),
                Some(c) => content_outcome(c),
            },
        ),
    )
}

impl PageXmlFile {
    pub open spec fn read_from(self, e: XmlElement) -> bool {
        &&& match child_of(e, "Area"@) {
            None => self.area is None,
            Some(c) => self.area matches Some(a) && a.read_from(c),
        }
        &&& match self.template {
            None => children_named(e, "Template"@).len() == 0,
            Some(v) => v@.len() == children_named(e, "Template"@).len() && v@.len() > 0
                && forall|i: int|
                0 <= i < v@.len() ==> (#[trigger] v@[i]).read_from(
                    children_named(e, "Template"@)[i],
                ),
        }
        &&& opt_views(self.page_res) == named_texts(e, "PageRes"@)
        &&& match child_of(e, "Content"@) {
            None => self.content is None,
            Some(c) => self.content matches Some(x) && x.read_from(c),
        }
    }
}

// ---------------------------------------------------------------------------
// The conversions
// ---------------------------------------------------------------------------

impl<'a> TryFromDom<&'a XmlElement> for Template {
    open spec fn unhandled(dom: &'a XmlElement) -> bool {
        false
    }

    fn try_from_dom(dom: &'a XmlElement) -> (r: Result<Self, TryFromDomError>)
        ensures
            outcome(r) == template_outcome(*dom),
            r matches Ok(v) ==> v.read_from(*dom),
    {
        let template_id = req_attr(read_uint(attr_text_of(dom, "TemplateID"), u64::MAX), "TemplateID")?;
        let z_order = read_str(attr_text_of(dom, "zOrder"))?;
        Ok(Template { template_id, z_order })
    }
}

pub open spec fn ct_layer_outcome(e: XmlElement) -> Result<(), DomFault> {
    check(uint_of(attr_of(e, "DrawParam"@), u64::MAX as int))
}

impl CtLayer {
    pub open spec fn read_from(self, e: XmlElement) -> bool {
        &&& opt_view(self.typ) == attr_of(e, "Type"@)
        &&& uint_of(attr_of(e, "DrawParam"@), u64::MAX as int) == Ok::<Option<nat>, DomFault>(
            crate::dom::opt_nat_u64(self.draw_param),
        )
    }
}

/// Reads the common attributes of a layer, whatever else the element holds.
pub fn ct_layer_from(dom: &XmlElement) -> (r: Result<CtLayer, TryFromDomError>)
    ensures
        outcome(r) == ct_layer_outcome(*dom),
        r matches Ok(v) ==> v.read_from(*dom),
{
    let typ = read_str(attr_text_of(dom, "Type"))?;
    let draw_param = read_uint(attr_text_of(dom, "DrawParam"), u64::MAX)?;
    Ok(CtLayer { typ, draw_param })
}

/// Reads a `Layer`; a part that the conversion does not handle is the error
/// `Unhandled`.
pub fn layer_from(dom: &XmlElement) -> (r: Result<Layer, TryFromDomError>)
    ensures
        outcome(r) == layer_outcome(*dom),
        r matches Ok(v) ==> v.read_from(*dom),
{
    let typ = read_str(attr_text_of(dom, "Type"))?;
    let draw_param = read_uint(attr_text_of(dom, "DrawParam"), u64::MAX)?;
    let id = req_attr(read_uint(attr_text_of(dom, "ID"), u64::MAX), "ID")?;
    let ghost f = |c: XmlElement| unit_outcome(c);
    let ghost cs = dom.children@;
    let mut objects: Vec<VtGraphicUnit> = Vec::new();
    let mut i: usize = 0;
    assert(cs.take(0) =~= Seq::<XmlElement>::empty());
    while i < dom.children.len()
        invariant
            i <= cs.len(),
            cs == dom.children@,
            f == (|c: XmlElement| unit_outcome(c)),
            all_ok(cs.take(i as int), f) == Ok::<(), DomFault>(()),
            objects@.len() == i,
            forall|k: int| 0 <= k < i ==> unit_read(#[trigger] objects@[k], cs[k]),
            layer_outcome(*dom) == all_ok(cs, f),
        decreases cs.len() - i,
    {
        assert(cs.take(i + 1).drop_last() =~= cs.take(i as int));
        assert(all_ok(cs.take(i + 1), f) == f(cs[i as int]));
        proof {
            if unit_outcome(cs[i as int]) is Err {
                lemma_all_ok_prefix(cs, f, i as int + 1);
            }
        }
        match crate::graphic::read_unit(&dom.children[i]) {
            Ok(v) => {
                objects.push(v);
            },
            Err(e) => {
                return Err(e);
            },
        }
        i = i + 1;
    }
    assert(cs.take(i as int) =~= cs);
    let objects = if objects.len() == 0 {
        None
    } else {
        Some(objects)
    };
    Ok(Layer { typ, draw_param, id, objects })
}

impl<'a> TryFromDom<&'a XmlElement> for Layer {
    open spec fn unhandled(dom: &'a XmlElement) -> bool {
        layer_outcome(*dom) == Err::<(), DomFault>(DomFault::Unimplemented)
    }

    fn try_from_dom(dom: &'a XmlElement) -> (r: Result<Self, TryFromDomError>)
        ensures
            outcome(r) == layer_outcome(*dom),
            r matches Ok(v) ==> v.read_from(*dom),
    {
        layer_from(dom)
    }
}

/// Reads a `Content`; a part that the conversion does not handle is the error
/// `Unhandled`.
pub fn content_from(dom: &XmlElement) -> (r: Result<Content, TryFromDomError>)
    ensures
        outcome(r) == content_outcome(*dom),
        r matches Ok(v) ==> v.read_from(*dom),
{
    let ghost f = |c: XmlElement| layer_outcome(c);
    let ghost cs = children_named(*dom, "Layer"@);
    let pos = named_children(dom, "Layer");
    let mut layer: Vec<Layer> = Vec::new();
    let mut k: usize = 0;
    assert(cs.take(0) =~= Seq::<XmlElement>::empty());
    while k < pos.len()
        invariant
            k <= pos@.len() == cs.len(),
            cs == children_named(*dom, "Layer"@),
            f == (|c: XmlElement| layer_outcome(c)),
            forall|m: int|
                0 <= m < pos@.len() ==> (#[trigger] pos@[m]) < dom.children@.len()
                    && dom.children@[pos@[m] as int] == cs[m],
            all_ok(cs.take(k as int), f) == Ok::<(), DomFault>(()),
            layer@.len() == k,
            forall|m: int| 0 <= m < k ==> (#[trigger] layer@[m]).read_from(cs[m]),
        decreases pos@.len() - k,
    {
        assert(cs.take(k + 1).drop_last() =~= cs.take(k as int));
        assert(all_ok(cs.take(k + 1), f) == f(cs[k as int]));
        proof {
            if layer_outcome(cs[k as int]) is Err {
                lemma_all_ok_prefix(cs, f, k as int + 1);
            }
        }
        match layer_from(&dom.children[pos[k]]) {
            Ok(v) => {
                layer.push(v);
            },
            Err(e) => {
                return Err(e);
            },
        }
        k = k + 1;
    }
    assert(cs.take(k as int) =~= cs);
    if layer.len() == 0 {
        return Err(TryFromDomError::NoSuchElement("Layer".to_owned()));
    }
    Ok(Content { layer })
}

impl<'a> TryFromDom<&'a XmlElement> for Content {
    open spec fn unhandled(dom: &'a XmlElement) -> bool {
        content_outcome(*dom) == Err::<(), DomFault>(DomFault::Unimplemented)
    }

    fn try_from_dom(dom: &'a XmlElement) -> (r: Result<Self, TryFromDomError>)
        ensures
            outcome(r) == content_outcome(*dom),
            r matches Ok(v) ==> v.read_from(*dom),
    {
        content_from(dom)
    }
}

/// The templates among the children of a page.
fn read_templates(dom: &XmlElement) -> (r: Result<Option<Vec<Template>>, TryFromDomError>)
    ensures
        match all_ok(children_named(*dom, "Template"@), |c: XmlElement| template_outcome(c)) {
            Err(f) => r matches Err(e) && e.fault() == f,
            Ok(_) => r matches Ok(o) && match o {
                None => children_named(*dom, "Template"@).len() == 0,
                Some(v) => v@.len() == children_named(*dom, "Template"@).len() && v@.len() > 0
                    && forall|i: int|
                    0 <= i < v@.len() ==> (#[trigger] v@[i]).read_from(
                        children_named(*dom, "Template"@)[i],
                    ),
            },
        },
{
    let ghost f = |c: XmlElement| template_outcome(c);
    let ghost cs = children_named(*dom, "Template"@);
    let pos = named_children(dom, "Template");
    let mut out: Vec<Template> = Vec::new();
    let mut k: usize = 0;
    assert(cs.take(0) =~= Seq::<XmlElement>::empty());
    while k < pos.len()
        invariant
            k <= pos@.len() == cs.len(),
            cs == children_named(*dom, "Template"@),
            f == (|c: XmlElement| template_outcome(c)),
            forall|m: int|
                0 <= m < pos@.len() ==> (#[trigger] pos@[m]) < dom.children@.len()
                    && dom.children@[pos@[m] as int] == cs[m],
            all_ok(cs.take(k as int), f) == Ok::<(), DomFault>(()),
            out@.len() == k,
            forall|m: int| 0 <= m < k ==> (#[trigger] out@[m]).read_from(cs[m]),
        decreases pos@.len() - k,
    {
        assert(cs.take(k + 1).drop_last() =~= cs.take(k as int));
        match Template::try_from_dom(&dom.children[pos[k]]) {
            Ok(v) => {
                out.push(v);
            },
            Err(e) => {
                proof {
                    assert(all_ok(cs.take(k + 1), f) == f(cs[k as int]));
                    lemma_all_ok_prefix(cs, f, k as int + 1);
                }
                return Err(e);
            },
        }
        k = k + 1;
    }
    assert(cs.take(k as int) =~= cs);
    if out.len() == 0 {
        Ok(None)
    } else {
        Ok(Some(out))
    }
}

/// Reads a `PageXmlFile`; a part that the conversion does not handle is the error
/// `Unhandled`.
pub fn page_file_from(dom: &XmlElement) -> (r: Result<PageXmlFile, TryFromDomError>)
    ensures
        outcome(r) == page_file_outcome(*dom),
        r matches Ok(v) ==> v.read_from(*dom),
{
    let area = match dom.get_child("Area") {
        None => None,
        Some(c) => Some(CtPageArea::try_from_dom(c)?),
    };
    let template = read_templates(dom)?;
    let page_res = crate::document::read_named_texts(dom, "PageRes");
    let content = match dom.get_child("Content") {
        None => None,
        Some(c) => Some(content_from(c)?),
    };
    Ok(PageXmlFile { area, template, page_res, content })
}

impl<'a> TryFromDom<&'a XmlElement> for PageXmlFile {
    open spec fn unhandled(dom: &'a XmlElement) -> bool {
        page_file_outcome(*dom) == Err::<(), DomFault>(DomFault::Unimplemented)
    }

    fn try_from_dom(dom: &'a XmlElement) -> (r: Result<Self, TryFromDomError>)
        ensures
            outcome(r) == page_file_outcome(*dom),
            r matches Ok(v) ==> v.read_from(*dom),
    {
        page_file_from(dom)
    }
}

impl TryFromDom<XmlElement> for PageXmlFile {
    open spec fn unhandled(dom: XmlElement) -> bool {
        page_file_outcome(dom) == Err::<(), DomFault>(DomFault::Unimplemented)
    }

    fn try_from_dom(dom: XmlElement) -> (r: Result<Self, TryFromDomError>)
        ensures
            outcome(r) == page_file_outcome(dom),
            r matches Ok(v) ==> v.read_from(dom),
    {
        PageXmlFile::try_from_dom(&dom)
    }
}

// ---------------------------------------------------------------------------
// Text values as a flat sequence of transforms and codes
// ---------------------------------------------------------------------------

pub enum UnifiedText {
    CGTransform(CGTransform),
    TextCode(TextCode),
}

#[derive(Debug, PartialEq, Eq, Structural, Clone, Copy)]
pub enum TryIntoTextValError {
    /// CGTransform more than one
    CgtNotValid,
}

/// The transforms and codes of a text object, in document order.
pub struct UnifiedTextValVec(pub Vec<UnifiedText>);

/// Pairs each code with the transform just before it: the transform that
/// waits for its code, and the values paired so far; nothing where a
/// transform follows another one.
pub open spec fn pair_texts(items: Seq<UnifiedText>) -> Option<(Option<CGTransform>, Seq<TextVal>)>
    decreases items.len(),
{
    if items.len() == 0 {
        Some((None, Seq::empty()))
    } else {
        match pair_texts(items.drop_last()) {
            None => None,
            Some((pending, vals)) => match items.last() {
                UnifiedText::CGTransform(c) => if pending is Some {
                    None
                } else {
                    Some((Some(c), vals))
                },
                UnifiedText::TextCode(t) => Some(
                    (None, vals.push(TextVal { cg_transform: pending, text_code: t })),
                ),
            },
        }
    }
}

/// Each value as its transform, then its code.
pub open spec fn unpair_texts(vals: Seq<TextVal>) -> Seq<UnifiedText>
    decreases vals.len(),
{
    if vals.len() == 0 {
        Seq::empty()
    } else {
        let v = vals.last();
        unpair_texts(vals.drop_last()) + seq![
            UnifiedText::CGTransform(v.cg_transform.unwrap()),
            UnifiedText::TextCode(v.text_code),
        ]
    }
}

pub open spec fn all_transformed(vals: Seq<TextVal>) -> bool {
    forall|i: int| 0 <= i < vals.len() ==> (#[trigger] vals[i]).cg_transform is Some
}

impl UnifiedTextValVec {
    /// Pairs each code with the transform just before it; a transform
    /// without a code after it is dropped.
    pub fn try_into(self) -> (r: Result<Vec<TextVal>, TryIntoTextValError>)
        ensures
            match pair_texts(self.0@) {
                None => r == Err::<Vec<TextVal>, TryIntoTextValError>(
                    TryIntoTextValError::CgtNotValid,
                ),
                Some((_, vals)) => r matches Ok(v) && v@ == vals,
            },
    {
        let ghost all = self.0@;
        let mut items = self.0;
        let mut cur_c: Option<CGTransform> = None;
        let mut res: Vec<TextVal> = Vec::new();
        let ghost mut k: int = 0;
        assert(all.take(0) =~= Seq::<UnifiedText>::empty());
        assert(all.skip(0) =~= all);
        while items.len() > 0
            invariant
                0 <= k <= all.len(),
                all == self.0@,
                items@ == all.skip(k),
                pair_texts(all.take(k)) == Some((cur_c, res@)),
            decreases items@.len(),
        {
            let x = items.remove(0);
            assert(all.take(k + 1).drop_last() =~= all.take(k));
            assert(all[k] == x);
            assert(all.take(k + 1).last() == x);
            match x {
                UnifiedText::CGTransform(c) => {
                    if cur_c.is_some() {
                        proof {
                            assert(all.take(k + 1).last() == UnifiedText::CGTransform(c));
                            assert(pair_texts(all.take(k + 1)) is None);
                            lemma_pair_prefix(all, k + 1);
                        }
                        return Err(TryIntoTextValError::CgtNotValid);
                    }
                    cur_c = Some(c);
                },
                UnifiedText::TextCode(t) => {
                    let mut cg: Option<CGTransform> = None;
                    std::mem::swap(&mut cg, &mut cur_c);
                    res.push(TextVal { cg_transform: cg, text_code: t });
                },
            }
            proof {
                k = k + 1;
            }
            assert(items@ =~= all.skip(k));
        }
        assert(all.take(k) =~= all);
        Ok(res)
    }

    /// Writes each value as its transform, then its code. Every value must
    /// have a transform.
    pub fn from(value: Vec<TextVal>) -> (r: Self)
        requires
            all_transformed(value@),
        ensures
            r.0@ == unpair_texts(value@),
    {
        let ghost all = value@;
        let mut items = value;
        let mut out: Vec<UnifiedText> = Vec::new();
        let ghost mut k: int = 0;
        assert(all.take(0) =~= Seq::<TextVal>::empty());
        assert(all.skip(0) =~= all);
        while items.len() > 0
            invariant
                0 <= k <= all.len(),
                items@ == all.skip(k),
                all_transformed(all),
                out@ == unpair_texts(all.take(k)),
            decreases items@.len(),
        {
            let v = items.remove(0);
            assert(all[k] == v);
            assert(all.take(k + 1).drop_last() =~= all.take(k));
            assert(all.take(k + 1).last() == v);
            let ghost before = out@;
            let TextVal { cg_transform, text_code } = v;
            match cg_transform {
                Some(c) => {
                    out.push(UnifiedText::CGTransform(c));
                    out.push(UnifiedText::TextCode(text_code));
                },
                None => {
                    proof {
                        assert(all_transformed(all) && all[k].cg_transform is Some);
                    }
                },
            }
            assert(out@ =~= before + seq![
                UnifiedText::CGTransform(v.cg_transform.unwrap()),
                UnifiedText::TextCode(v.text_code),
            ]);
            proof {
                k = k + 1;
            }
            assert(items@ =~= all.skip(k));
        }
        assert(all.take(k) =~= all);
        UnifiedTextValVec(out)
    }
}

/// Where a prefix cannot be paired, the whole cannot.
proof fn lemma_pair_prefix(items: Seq<UnifiedText>, n: int)
    requires
        0 <= n <= items.len(),
        pair_texts(items.take(n)) is None,
    ensures
        pair_texts(items) is None,
    decreases items.len() - n,
{
    if n < items.len() {
        assert(items.take(n + 1).drop_last() =~= items.take(n));
        lemma_pair_prefix(items, n + 1);
    } else {
        assert(items.take(n) =~= items);
    }
}

/// Pairing back the flat sequence that values with transforms are written
/// as gives the values again.
pub proof fn lemma_text_vals_roundtrip(vals: Seq<TextVal>)
    requires
        all_transformed(vals),
    ensures
        pair_texts(unpair_texts(vals)) == Some((None::<CGTransform>, vals)),
    decreases vals.len(),
{
    if vals.len() > 0 {
        let vs = vals.drop_last();
        let v = vals.last();
        assert(all_transformed(vs)) by {
            assert forall|i: int| 0 <= i < vs.len() implies (#[trigger] vs[i]).cg_transform is Some by {
                assert(vs[i] == vals[i]);
            }
        }
        assert(vals[vals.len() - 1].cg_transform is Some);
        lemma_text_vals_roundtrip(vs);
        let u = unpair_texts(vs);
        let c = v.cg_transform.unwrap();
        let u1 = u.push(UnifiedText::CGTransform(c));
        let u2 = u1.push(UnifiedText::TextCode(v.text_code));
        assert(u2 =~= unpair_texts(vals));
        assert(u1.drop_last() =~= u);
        assert(u2.drop_last() =~= u1);
        assert(pair_texts(u1) == Some((Some(c), vs)));
        assert(TextVal { cg_transform: Some(c), text_code: v.text_code } == v);
        assert(vs.push(v) =~= vals);
    }
}

} // verus!
