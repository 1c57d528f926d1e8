//! A document of an OFD package, `Document.xml`: its common data, page
//! area, pages and templates.
use crate::dom::{
    all_ok, attr_text_of, box_of, check, child_text_of, lemma_all_ok_prefix, name_not_expected,
    named_children, no_attr, opt_box, opt_view, outcome, read_box, read_str, read_uint, req_attr,
    required, str_of, then, uint_of, view_opt_ref, DomFault, TryFromDom, TryFromDomError,
};
use crate::graphic::Actions;
use crate::value::StBox;
use crate::xml::{attr_of, child_of, child_text, children_named, named, XmlElement};
use vstd::prelude::*;

verus! {

/// Document.xml 文件
pub struct DocumentXmlFile {
    pub common_data: CommonData,
    pub pages: Pages,
    pub outlines: Option<Outlines>,
    pub permissions: Option<CtPermission>,
    pub actions: Option<Actions>,
    pub v_preferences: Option<CtVPreferences>,
    pub bookmarks: Option<Bookmarks>,
    pub annotations: Option<String>,
    pub attachments: Option<String>,
    pub custom_tags: Option<String>,
    pub extensions: Option<String>,
}

pub struct Bookmarks {
    pub bookmarks: Vec<CtBookmark>,
}

pub struct CtBookmark {
    pub name: String,
    pub dest: CtDest,
}

/// A destination in a document; its coordinates and zoom are floats, kept as
/// the literals that the document writes.
pub struct CtDest {
    pub typ: String,
    pub page_id: u64,
    pub left: Option<String>,
    pub right: Option<String>,
    pub top: Option<String>,
    pub bottom: Option<String>,
    pub zoom: Option<String>,
}

pub struct CtVPreferences {
    /// default None
    pub page_mode: Option<String>,
    /// default OneColumn
    pub page_layout: Option<String>,
    /// default DocTitle
    pub tab_display: Option<String>,
    pub hide_toolbar: Option<bool>,
    pub hide_menubar: Option<bool>,
    pub hide_window_ui: Option<bool>,
    pub zoom_mode: Option<String>,
    /// zoom ratio, a float kept as its literal
    pub zoom: Option<String>,
}

pub struct CtPermission {
    pub edit: Option<bool>,
    pub annot: Option<bool>,
    pub export: Option<bool>,
    pub signature: Option<bool>,
    pub watermark: Option<bool>,
    pub print_screen: Option<bool>,
    pub print: Option<Print>,
    pub valid_period: Option<ValidPeriod>,
}

/// A period of validity; its ends are date-times, kept as written.
pub struct ValidPeriod {
    pub start_date: Option<String>,
    pub end_date: Option<String>,
}

pub struct Print {
    pub printable: bool,
    /// default -1
    pub copies: Option<i32>,
}

pub struct Outlines {
    pub outline_elems: Vec<CtOutlineElem>,
}

pub struct CtOutlineElem {
    pub title: String,
    pub count: Option<u32>,
    pub expanded: Option<bool>,
    pub actions: Option<Actions>,
    pub outline_elems: Option<Vec<CtOutlineElem>>,
}

pub struct CommonData {
    pub max_unit_id: u64,
    pub page_area: CtPageArea,
    pub public_res: Option<Vec<String>>,
    pub document_res: Option<Vec<String>>,
    pub template_page: Option<Vec<TemplatePage>>,
    /// 可选属性 默认值为sRGB
    pub default_cs: Option<u64>,
}

pub struct TemplatePage {
    pub id: u64,
    pub name: Option<String>,
    pub z_order: Option<String>,
    pub base_loc: String,
}

pub struct Pages {
    pub page: Vec<Page>,
}

pub struct Page {
    pub id: u64,
    pub base_loc: String,
}

pub struct CtPageArea {
    pub physical_box: StBox,
    pub application_box: Option<StBox>,
    pub content_box: Option<StBox>,
    pub bleed_box: Option<StBox>,
}

// ---------------------------------------------------------------------------
// What each structure needs of its element
// ---------------------------------------------------------------------------

pub open spec fn page_outcome(e: XmlElement) -> Result<(), DomFault> {
    then(
        check(required(uint_of(attr_of(e, "ID"@), u64::MAX as int), no_attr("ID"@))),
        check(required(str_of(attr_of(e, "BaseLoc"@)), no_attr("BaseLoc"@))),
    )
}

impl Page {
    pub open spec fn read_from(self, e: XmlElement) -> bool {
        &&& uint_of(attr_of(e, "ID"@), u64::MAX as int) == Ok::<Option<nat>, DomFault>(
            Some(self.id as nat),
        )
        &&& attr_of(e, "BaseLoc"@) == Some(self.base_loc@)
    }
}

pub open spec fn pages_outcome(e: XmlElement) -> Result<(), DomFault> {
    all_ok(e.children@, |c: XmlElement| page_outcome(c))
}

impl Pages {
    pub open spec fn read_from(self, e: XmlElement) -> bool {
        &&& self.page@.len() == e.children@.len()
        &&& forall|i: int|
            0 <= i < e.children@.len() ==> (#[trigger] self.page@[i]).read_from(e.children@[i])
    }
}

pub open spec fn template_page_outcome(e: XmlElement) -> Result<(), DomFault> {
    then(
        check(required(uint_of(attr_of(e, "ID"@), u64::MAX as int), no_attr("ID"@))),
        check(required(str_of(attr_of(e, "BaseLoc"@)), no_attr("BaseLoc"@))),
    )
}

impl TemplatePage {
    pub open spec fn read_from(self, e: XmlElement) -> bool {
        &&& uint_of(attr_of(e, "ID"@), u64::MAX as int) == Ok::<Option<nat>, DomFault>(
            Some(self.id as nat),
        )
        &&& opt_view(self.name) == attr_of(e, "Name"@)
        &&& opt_view(self.z_order) == attr_of(e, "ZOrder"@)
        &&& attr_of(e, "BaseLoc"@) == Some(self.base_loc@)
    }
}

/// A box in the text of the child `n`, required or not.
pub open spec fn area_outcome(e: XmlElement) -> Result<(), DomFault> {
    then(check(required(box_of(child_text(e, "PhysicalBox"@)), no_attr("PhysicalBox"@))),
    then(check(box_of(child_text(e, "ApplicationBox"@))),
    then(check(box_of(child_text(e, "ContentBox"@))), check(box_of(child_text(e, "BleedBox"@))))))
}

impl CtPageArea {
    pub open spec fn read_from(self, e: XmlElement) -> bool {
        &&& box_of(child_text(e, "PhysicalBox"@)) == Ok::<Option<Seq<Seq<char>>>, DomFault>(
            Some(self.physical_box.parts()),
        )
        &&& box_of(child_text(e, "ApplicationBox"@)) == Ok::<Option<Seq<Seq<char>>>, DomFault>(
            opt_box(self.application_box),
        )
        &&& box_of(child_text(e, "ContentBox"@)) == Ok::<Option<Seq<Seq<char>>>, DomFault>(
            opt_box(self.content_box),
        )
        &&& box_of(child_text(e, "BleedBox"@)) == Ok::<Option<Seq<Seq<char>>>, DomFault>(
            opt_box(self.bleed_box),
        )
    }
}

/// The texts of the children named `n`, or nothing where there is none.
pub open spec fn named_texts(e: XmlElement, n: Seq<char>) -> Option<Seq<Seq<char>>> {
    let cs = children_named(e, n);
    if cs.len() == 0 {
        None
    } else {
        Some(cs.map_values(|c: XmlElement| c.text@))
    }
}

pub open spec fn opt_views(o: Option<Vec<String>>) -> Option<Seq<Seq<char>>> {
    match o {
        Some(v) => Some(v@.map_values(|s: String| s@)),
        None => None,
    }
}

pub open spec fn common_data_outcome(e: XmlElement) -> Result<(), DomFault> {
    then(
        match child_of(e, "MaxUnitID"@) {
            None => Err(no_attr("MaxUnitID"@)),
            Some(c) => check(uint_of(Some(c.text@), u64::MAX as int)),
        },
        then(
            match child_of(e, "PageArea"@) {
                None => Err(no_attr("PageArea"@)),
                Some(c) => area_outcome(c),
            },
            then(
                all_ok(children_named(e, "TemplatePage"@), |c: XmlElement| template_page_outcome(c)),
                check(uint_of(child_text(e, "DefaultCS"@), u64::MAX as int)),
            ),
        ),
    )
}

impl CommonData {
    pub open spec fn read_from(self, e: XmlElement) -> bool {
        &&& child_of(e, "MaxUnitID"@) matches Some(c) && uint_of(Some(c.text@), u64::MAX as int)
            == Ok::<Option<nat>, DomFault>(Some(self.max_unit_id as nat))
        &&& child_of(e, "PageArea"@) matches Some(c) && self.page_area.read_from(c)
        &&& opt_views(self.public_res) == named_texts(e, "PublicRes"@)
        &&& opt_views(self.document_res) == named_texts(e, "DocumentRes"@)
        &&& match self.template_page {
            None => children_named(e, "TemplatePage"@).len() == 0,
            Some(v) => v@.len() == children_named(e, "TemplatePage"@).len() && v@.len() > 0
                && forall|i: int|
                0 <= i < v@.len() ==> (#[trigger] v@[i]).read_from(
                    children_named(e, "TemplatePage"@)[i],
                ),
        }
        &&& uint_of(child_text(e, "DefaultCS"@), u64::MAX as int) == Ok::<Option<nat>, DomFault>(
            crate::dom::opt_nat_u64(self.default_cs),
        )
    }
}

pub open spec fn document_outcome(e: XmlElement) -> Result<(), DomFault> {
    if e.name@ != "Document"@ {
        Err(DomFault::ElementNameNotExpected("Document"@, e.name@))
    } else {
        then(
            match child_of(e, "CommonData"@) {
                None => Err(no_attr("CommonData"@)),
                Some(c) => common_data_outcome(c),
            },
            match child_of(e, "Pages"@) {
                None => Err(no_attr("Pages"@)),
                Some(c) => pages_outcome(c),
            },
        )
    }
}

impl DocumentXmlFile {
    pub open spec fn read_from(self, e: XmlElement) -> bool {
        &&& child_of(e, "CommonData"@) matches Some(c) && self.common_data.read_from(c)
        &&& child_of(e, "Pages"@) matches Some(c) && self.pages.read_from(c)
        &&& self.outlines is None
        &&& self.permissions is None
        &&& self.actions is None
        &&& self.v_preferences is None
        &&& self.bookmarks is None
        &&& opt_view(self.annotations) == child_text(e, "Annotations"@)
        &&& opt_view(self.attachments) == child_text(e, "Attachments"@)
        &&& opt_view(self.custom_tags) == child_text(e, "CustomTags"@)
        &&& self.extensions is None
    }
}

// ---------------------------------------------------------------------------
// The conversions
// ---------------------------------------------------------------------------

impl<'a> TryFromDom<&'a XmlElement> for Page {
    open spec fn unhandled(dom: &'a XmlElement) -> bool {
        false
    }

    fn try_from_dom(dom: &'a XmlElement) -> (r: Result<Self, TryFromDomError>)
        ensures
            outcome(r) == page_outcome(*dom),
            r matches Ok(v) ==> v.read_from(*dom),
    {
        let id = req_attr(read_uint(attr_text_of(dom, "ID"), u64::MAX), "ID")?;
        let base_loc = req_attr(read_str(attr_text_of(dom, "BaseLoc")), "BaseLoc")?;
        Ok(Page { id, base_loc })
    }
}

impl<'a> TryFromDom<&'a XmlElement> for Pages {
    open spec fn unhandled(dom: &'a XmlElement) -> bool {
        false
    }

    fn try_from_dom(dom: &'a XmlElement) -> (r: Result<Self, TryFromDomError>)
        ensures
            outcome(r) == pages_outcome(*dom),
            r matches Ok(v) ==> v.read_from(*dom),
    {
        let ghost f = |c: XmlElement| page_outcome(c);
        let mut page: Vec<Page> = Vec::new();
        let mut i: usize = 0;
        while i < dom.children.len()
            invariant
                i <= dom.children@.len(),
                f == (|c: XmlElement| page_outcome(c)),
                all_ok(dom.children@.take(i as int), f) == Ok::<(), DomFault>(()),
                page@.len() == i,
                forall|k: int| 0 <= k < i ==> (#[trigger] page@[k]).read_from(dom.children@[k]),
            decreases dom.children@.len() - i,
        {
            assert(dom.children@.take(i + 1).drop_last() =~= dom.children@.take(i as int));
            match Page::try_from_dom(&dom.children[i]) {
                Ok(v) => {
                    page.push(v);
                },
                Err(e) => {
                    proof {
                        assert(all_ok(dom.children@.take(i + 1), f) == f(dom.children@[i as int]));
                        lemma_all_ok_prefix(dom.children@, f, i as int + 1);
                    }
                    return Err(e);
                },
            }
            i = i + 1;
        }
        assert(dom.children@.take(i as int) =~= dom.children@);
        Ok(Pages { page })
    }
}

impl<'a> TryFromDom<&'a XmlElement> for TemplatePage {
    open spec fn unhandled(dom: &'a XmlElement) -> bool {
        false
    }

    fn try_from_dom(dom: &'a XmlElement) -> (r: Result<Self, TryFromDomError>)
        ensures
            outcome(r) == template_page_outcome(*dom),
            r matches Ok(v) ==> v.read_from(*dom),
    {
        let id = req_attr(read_uint(attr_text_of(dom, "ID"), u64::MAX), "ID")?;
        let name = read_str(attr_text_of(dom, "Name"))?;
        let z_order = read_str(attr_text_of(dom, "ZOrder"))?;
        let base_loc = req_attr(read_str(attr_text_of(dom, "BaseLoc")), "BaseLoc")?;
        Ok(TemplatePage { id, name, z_order, base_loc })
    }
}

impl<'a> TryFromDom<&'a XmlElement> for CtPageArea {
    open spec fn unhandled(dom: &'a XmlElement) -> bool {
        false
    }

    fn try_from_dom(dom: &'a XmlElement) -> (r: Result<Self, TryFromDomError>)
        ensures
            outcome(r) == area_outcome(*dom),
            r matches Ok(v) ==> v.read_from(*dom),
    {
        let physical_box = req_attr(read_box(child_text_of(dom, "PhysicalBox")), "PhysicalBox")?;
        let application_box = read_box(child_text_of(dom, "ApplicationBox"))?;
        let content_box = read_box(child_text_of(dom, "ContentBox"))?;
        let bleed_box = read_box(child_text_of(dom, "BleedBox"))?;
        Ok(CtPageArea { physical_box, application_box, content_box, bleed_box })
    }
}

/// The texts of the children named `name`, or nothing where there is none.
pub fn read_named_texts(dom: &XmlElement, name: &str) -> (r: Option<Vec<String>>)
    ensures
        opt_views(r) == named_texts(*dom, name@),
{
    let ghost cs = children_named(*dom, name@);
    let pos = named_children(dom, name);
    let mut out: Vec<String> = Vec::new();
    let mut k: usize = 0;
    while k < pos.len()
        invariant
            k <= pos@.len() == cs.len(),
            cs == children_named(*dom, name@),
            forall|m: int|
                0 <= m < pos@.len() ==> (#[trigger] pos@[m]) < dom.children@.len()
                    && dom.children@[pos@[m] as int] == cs[m],
            out@.len() == k,
            forall|m: int| 0 <= m < k ==> (#[trigger] out@[m])@ == cs[m].text@,
        decreases pos@.len() - k,
    {
        out.push(dom.children[pos[k]].text.clone());
        k = k + 1;
    }
    if out.len() == 0 {
        None
    } else {
        assert(out@.map_values(|s: String| s@) =~= cs.map_values(|c: XmlElement| c.text@));
        Some(out)
    }
}

/// The template pages among the children.
fn read_template_pages(dom: &XmlElement) -> (r: Result<Option<Vec<TemplatePage>>, TryFromDomError>)
    ensures
        match all_ok(children_named(*dom, "TemplatePage"@), |c: XmlElement| template_page_outcome(c)) {
            Err(f) => r matches Err(e) && e.fault() == f,
            Ok(_) => r matches Ok(o) && match o {
                None => children_named(*dom, "TemplatePage"@).len() == 0,
                Some(v) => v@.len() == children_named(*dom, "TemplatePage"@).len() && v@.len() > 0
                    && forall|i: int|
                    0 <= i < v@.len() ==> (#[trigger] v@[i]).read_from(
                        children_named(*dom, "TemplatePage"@)[i],
                    ),
            },
        },
{
    let ghost f = |c: XmlElement| template_page_outcome(c);
    let ghost cs = children_named(*dom, "TemplatePage"@);
    let pos = named_children(dom, "TemplatePage");
    let mut out: Vec<TemplatePage> = Vec::new();
    let mut k: usize = 0;
    assert(cs.take(0) =~= Seq::<XmlElement>::empty());
    while k < pos.len()
        invariant
            k <= pos@.len() == cs.len(),
            cs == children_named(*dom, "TemplatePage"@),
            f == (|c: XmlElement| template_page_outcome(c)),
            forall|m: int|
                0 <= m < pos@.len() ==> (#[trigger] pos@[m]) < dom.children@.len()
                    && dom.children@[pos@[m] as int] == cs[m],
            all_ok(cs.take(k as int), f) == Ok::<(), DomFault>(()),
            out@.len() == k,
            forall|m: int| 0 <= m < k ==> (#[trigger] out@[m]).read_from(cs[m]),
        decreases pos@.len() - k,
    {
        assert(cs.take(k + 1).drop_last() =~= cs.take(k as int));
        match TemplatePage::try_from_dom(&dom.children[pos[k]]) {
            Ok(v) => {
                out.push(v);
            },
            Err(e) => {
                proof {
                    assert(all_ok(cs.take(k + 1), f) == f(cs[k as int]));
                    lemma_all_ok_prefix(cs, f, k as int + 1);
                }
                return Err(e);
            },
        }
        k = k + 1;
    }
    assert(cs.take(k as int) =~= cs);
    if out.len() == 0 {
        Ok(None)
    } else {
        Ok(Some(out))
    }
}

impl<'a> TryFromDom<&'a XmlElement> for CommonData {
    open spec fn unhandled(dom: &'a XmlElement) -> bool {
        false
    }

    fn try_from_dom(dom: &'a XmlElement) -> (r: Result<Self, TryFromDomError>)
        ensures
            outcome(r) == common_data_outcome(*dom),
            r matches Ok(v) ==> v.read_from(*dom),
    {
        let max_unit_id = match dom.get_child("MaxUnitID") {
            None => {
                return Err(TryFromDomError::NoSuchAttribute("MaxUnitID".to_owned()));
            },
            Some(c) => match read_uint(Some(&c.text), u64::MAX) {
                Ok(Some(v)) => v,
                Ok(None) => {
                    return Err(TryFromDomError::NoSuchAttribute("MaxUnitID".to_owned()));
                },
                Err(e) => {
                    return Err(e);
                },
            },
        };
        let page_area = match dom.get_child("PageArea") {
            None => {
                return Err(TryFromDomError::NoSuchAttribute("PageArea".to_owned()));
            },
            Some(c) => CtPageArea::try_from_dom(c)?,
        };
        let public_res = read_named_texts(dom, "PublicRes");
        let document_res = read_named_texts(dom, "DocumentRes");
        let template_page = read_template_pages(dom)?;
        let default_cs = read_uint(child_text_of(dom, "DefaultCS"), u64::MAX)?;
        Ok(CommonData { max_unit_id, page_area, public_res, document_res, template_page, default_cs })
    }
}

/// Reads a `Document` element, whatever its name.
fn document_from_dom(dom: &XmlElement) -> (r: Result<DocumentXmlFile, TryFromDomError>)
    requires
        dom.name@ == "Document"@,
    ensures
        outcome(r) == document_outcome(*dom),
        r matches Ok(v) ==> v.read_from(*dom),
{
    let common_data = match dom.get_child("CommonData") {
        None => {
            return Err(TryFromDomError::NoSuchAttribute("CommonData".to_owned()));
        },
        Some(c) => CommonData::try_from_dom(c)?,
    };
    let pages = match dom.get_child("Pages") {
        None => {
            return Err(TryFromDomError::NoSuchAttribute("Pages".to_owned()));
        },
        Some(c) => Pages::try_from_dom(c)?,
    };
    let annotations = read_str(child_text_of(dom, "Annotations"))?;
    let attachments = read_str(child_text_of(dom, "Attachments"))?;
    let custom_tags = read_str(child_text_of(dom, "CustomTags"))?;
    Ok(DocumentXmlFile {
        common_data,
        pages,
        outlines: None,
        permissions: None,
        actions: None,
        v_preferences: None,
        bookmarks: None,
        annotations,
        attachments,
        custom_tags,
        extensions: None,
    })
}

impl<'a> TryFromDom<&'a XmlElement> for DocumentXmlFile {
    open spec fn unhandled(dom: &'a XmlElement) -> bool {
        false
    }

    fn try_from_dom(dom: &'a XmlElement) -> (r: Result<Self, TryFromDomError>)
        ensures
            outcome(r) == document_outcome(*dom),
            r matches Ok(v) ==> v.read_from(*dom),
    {
        if !dom.is_named("Document") {
            return Err(name_not_expected("Document", &dom.name));
        }
        document_from_dom(dom)
    }
}

impl TryFromDom<XmlElement> for DocumentXmlFile {
    open spec fn unhandled(dom: XmlElement) -> bool {
        false
    }

    fn try_from_dom(dom: XmlElement) -> (r: Result<Self, TryFromDomError>)
        ensures
            outcome(r) == document_outcome(dom),
            r matches Ok(v) ==> v.read_from(dom),
    {
        DocumentXmlFile::try_from_dom(&dom)
    }
}

} // verus!
