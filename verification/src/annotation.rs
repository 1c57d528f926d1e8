//! The annotations of a document: the list of pages that have some, and the
//! annotations of a page, with how they are read from their elements.
use crate::dom::{
    all_ok, attr_text_of, bool_of, box_of, check, child_text_of, lemma_all_ok_prefix,
    named_children, no_attr, no_elem, opt_view, outcome, read_bool, read_box, read_str, read_uint,
    req_attr, required, str_of, then, uint_of, DomFault, TryFromDomError,
};
use crate::graphic::{read_unit, unit_outcome, unit_read, VtGraphicUnit};
use crate::ofd_file::{date_of, read_date, NaiveDate};
use crate::value::StBox;
use crate::xml::{attr_of, child_of, child_text, children_named, XmlElement};
use vstd::prelude::*;

verus! {

pub struct AnnotationsXmlFile {
    pub page: Option<Vec<Page>>,
}

/// The annotations of one page: the page, and the file that holds them.
pub struct Page {
    pub page_id: u64,
    pub file_loc: String,
}

pub struct AnnotationXmlFile {
    pub annot: Vec<Annot>,
}

pub struct Annot {
    pub id: u64,
    pub typ: String,
    pub creator: String,
    pub last_mod_date: NaiveDate,
    /// default `true`
    pub visible: Option<bool>,
    pub subtype: Option<String>,
    /// default `true`
    pub print: Option<bool>,
    /// default `false`
    pub no_zoom: Option<bool>,
    /// default `false`
    pub no_rotate: Option<bool>,
    /// default `true`
    pub read_only: Option<bool>,
    pub remark: Option<String>,
    pub parameters: Option<Parameters>,
    pub appearance: Appearance,
}

pub struct Appearance {
    pub boundary: StBox,
    pub objects: Option<Vec<VtGraphicUnit>>,
}

pub struct Parameters {
    pub parameters: Vec<Parameter>,
}

pub struct Parameter {
    pub name: String,
    pub value: String,
}


// ---------------------------------------------------------------------------
// What each structure needs of its element
// ---------------------------------------------------------------------------

pub open spec fn page_entry_outcome(e: XmlElement) -> Result<(), DomFault> {
    then(
        check(required(uint_of(attr_of(e, "PageID"@), u64::MAX as int), no_attr("PageID"@))),
        match child_of(e, "FileLoc"@) {
            None => Err(no_elem("FileLoc"@)),
            Some(_) => Ok(()),
        },
    )
}

impl Page {
    pub open spec fn read_from(self, e: XmlElement) -> bool {
        &&& uint_of(attr_of(e, "PageID"@), u64::MAX as int) == Ok::<Option<nat>, DomFault>(
            Some(self.page_id as nat),
        )
        &&& child_text(e, "FileLoc"@) == Some(self.file_loc@)
    }
}

pub open spec fn annotations_outcome(e: XmlElement) -> Result<(), DomFault> {
    all_ok(children_named(e, "Page"@), |c: XmlElement| page_entry_outcome(c))
}

impl AnnotationsXmlFile {
    pub open spec fn read_from(self, e: XmlElement) -> bool {
        match self.page {
            None => children_named(e, "Page"@).len() == 0,
            Some(v) => v@.len() == children_named(e, "Page"@).len() && v@.len() > 0 && forall|i: int|
                0 <= i < v@.len() ==> (#[trigger] v@[i]).read_from(children_named(e, "Page"@)[i]),
        }
    }
}

pub open spec fn parameter_outcome(e: XmlElement) -> Result<(), DomFault> {
    check(required(str_of(attr_of(e, "Name"@)), no_attr("Name"@)))
}

impl Parameter {
    pub open spec fn read_from(self, e: XmlElement) -> bool {
        &&& attr_of(e, "Name"@) == Some(self.name@)
        &&& self.value@ == e.text@
    }
}

/// At least one `Parameter`, each of them read.
pub open spec fn parameters_outcome(e: XmlElement) -> Result<(), DomFault> {
    match all_ok(children_named(e, "Parameter"@), |c: XmlElement| parameter_outcome(c)) {
        Err(x) => Err(x),
        Ok(_) => if children_named(e, "Parameter"@).len() == 0 {
            Err(no_elem("Parameter"@))
        } else {
            Ok(())
        },
    }
}

impl Parameters {
    pub open spec fn read_from(self, e: XmlElement) -> bool {
        &&& self.parameters@.len() == children_named(e, "Parameter"@).len()
        &&& forall|i: int|
            0 <= i < self.parameters@.len() ==> (#[trigger] self.parameters@[i]).read_from(
                children_named(e, "Parameter"@)[i],
            )
    }
}

/// What reading a graphic unit of an appearance gives.
#[verifier::opaque]
pub open spec fn unit_fault(c: XmlElement) -> Result<(), DomFault> {
    unit_outcome(c)
}

/// `v` is the graphic unit read from `c`.
#[verifier::opaque]
pub open spec fn unit_is(v: VtGraphicUnit, c: XmlElement) -> bool {
    unit_read(v, c)
}

fn appearance_unit(c: &XmlElement) -> (r: Result<VtGraphicUnit, TryFromDomError>)
    ensures
        outcome(r) == unit_fault(*c),
        r matches Ok(v) ==> unit_is(v, *c),
{
    reveal(unit_fault);
    reveal(unit_is);
    read_unit(c)
}

/// The boundary, and the graphic units among the children.
pub open spec fn appearance_outcome(e: XmlElement) -> Result<(), DomFault> {
    then(
        check(required(box_of(attr_of(e, "Boundary"@)), no_attr("Boundary"@))),
        all_ok(e.children@, |c: XmlElement| unit_fault(c)),
    )
}

impl Appearance {
    pub open spec fn read_from(self, e: XmlElement) -> bool {
        &&& box_of(attr_of(e, "Boundary"@)) == Ok::<Option<Seq<Seq<char>>>, DomFault>(
            Some(self.boundary.parts()),
        )
        &&& match self.objects {
            None => e.children@.len() == 0,
            Some(v) => v@.len() == e.children@.len() && v@.len() > 0 && forall|i: int|
                0 <= i < v@.len() ==> unit_is(#[trigger] v@[i], e.children@[i]),
        }
    }
}

pub open spec fn annot_outcome(e: XmlElement) -> Result<(), DomFault> {
    then(
        check(required(uint_of(attr_of(e, "ID"@), u64::MAX as int), no_attr("ID"@))),
        then(
            check(required(str_of(attr_of(e, "Type"@)), no_attr("Type"@))),
            then(
                check(date_of(attr_of(e, "LastModDate"@))),
                then(
                    check(bool_of(attr_of(e, "Visible"@))),
                    then(
                        check(bool_of(attr_of(e, "Print"@))),
                        then(
                            check(bool_of(attr_of(e, "NoZoom"@))),
                            then(
                                check(bool_of(attr_of(e, "NoRotate"@))),
                                then(
                                    check(bool_of(attr_of(e, "ReadOnly"@))),
                                    then(
                                        match child_of(e, "Parameters"@) {
                                            None => Ok(()),
                                            Some(c) => parameters_outcome(c),
                                        },
                                        match child_of(e, "Appearance"@) {
                                            None => Err(no_elem("Appearance"@)),
                                            Some(c) => appearance_outcome(c),
                                        },
                                    ),
                                ),
                            ),
                        ),
                    ),
                ),
            ),
        ),
    )
}

/// The date of an annotation that gives none.
pub open spec fn zero_date() -> NaiveDate {
    NaiveDate { year: 1970, month: 1, day: 1 }
}

impl Annot {
    pub open spec fn read_from(self, e: XmlElement) -> bool {
        &&& uint_of(attr_of(e, "ID"@), u64::MAX as int) == Ok::<Option<nat>, DomFault>(
            Some(self.id as nat),
        )
        &&& attr_of(e, "Type"@) == Some(self.typ@)
        &&& self.creator@ == match attr_of(e, "Creator"@) {
            Some(c) => c,
            None => Seq::empty(),
        }
        &&& date_of(attr_of(e, "LastModDate"@)) == Ok::<Option<NaiveDate>, DomFault>(
            if self.last_mod_date == zero_date() && attr_of(e, "LastModDate"@) is None {
                None
            } else {
                Some(self.last_mod_date)
            },
        )
        &&& bool_of(attr_of(e, "Visible"@)) == Ok::<Option<bool>, DomFault>(self.visible)
        &&& opt_view(self.subtype) == attr_of(e, "Subtype"@)
        &&& bool_of(attr_of(e, "Print"@)) == Ok::<Option<bool>, DomFault>(self.print)
        &&& bool_of(attr_of(e, "NoZoom"@)) == Ok::<Option<bool>, DomFault>(self.no_zoom)
        &&& bool_of(attr_of(e, "NoRotate"@)) == Ok::<Option<bool>, DomFault>(self.no_rotate)
        &&& bool_of(attr_of(e, "ReadOnly"@)) == Ok::<Option<bool>, DomFault>(self.read_only)
        &&& opt_view(self.remark) == child_text(e, "Remark"@)
        &&& match child_of(e, "Parameters"@) {
            None => self.parameters is None,
            Some(c) => self.parameters matches Some(p) && p.read_from(c),
        }
        &&& child_of(e, "Appearance"@) matches Some(c) && self.appearance.read_from(c)
    }
}

/// At least one `Annot`, each of them read.
pub open spec fn annotation_file_outcome(e: XmlElement) -> Result<(), DomFault> {
    match all_ok(children_named(e, "Annot"@), |c: XmlElement| annot_outcome(c)) {
        Err(x) => Err(x),
        Ok(_) => if children_named(e, "Annot"@).len() == 0 {
            Err(no_elem("Annot"@))
        } else {
            Ok(())
        },
    }
}

impl AnnotationXmlFile {
    pub open spec fn read_from(self, e: XmlElement) -> bool {
        &&& self.annot@.len() == children_named(e, "Annot"@).len()
        &&& forall|i: int|
            0 <= i < self.annot@.len() ==> (#[trigger] self.annot@[i]).read_from(
                children_named(e, "Annot"@)[i],
            )
    }
}

// ---------------------------------------------------------------------------
// The conversions
// ---------------------------------------------------------------------------

pub fn page_entry_from(dom: &XmlElement) -> (r: Result<Page, TryFromDomError>)
    ensures
        outcome(r) == page_entry_outcome(*dom),
        r matches Ok(v) ==> v.read_from(*dom),
{
    let page_id = req_attr(read_uint(attr_text_of(dom, "PageID"), u64::MAX), "PageID")?;
    let file_loc = match child_text_of(dom, "FileLoc") {
        None => {
            return Err(TryFromDomError::NoSuchElement("FileLoc".to_owned()));
        },
        Some(t) => t.clone(),
    };
    Ok(Page { page_id, file_loc })
}

/// Reads the list of the pages that have annotations.
pub fn annotations_file_from(dom: &XmlElement) -> (r: Result<AnnotationsXmlFile, TryFromDomError>)
    ensures
        outcome(r) == annotations_outcome(*dom),
        r matches Ok(v) ==> v.read_from(*dom),
{
    let pages = read_pages(dom)?;
    if pages.len() == 0 {
        Ok(AnnotationsXmlFile { page: None })
    } else {
        Ok(AnnotationsXmlFile { page: Some(pages) })
    }
}

pub fn parameter_from(dom: &XmlElement) -> (r: Result<Parameter, TryFromDomError>)
    ensures
        outcome(r) == parameter_outcome(*dom),
        r matches Ok(v) ==> v.read_from(*dom),
{
    let name = req_attr(read_str(attr_text_of(dom, "Name")), "Name")?;
    Ok(Parameter { name, value: dom.text.clone() })
}

pub fn parameters_from(dom: &XmlElement) -> (r: Result<Parameters, TryFromDomError>)
    ensures
        outcome(r) == parameters_outcome(*dom),
        r matches Ok(v) ==> v.read_from(*dom),
{
    let parameters = read_parameters(dom)?;
    if parameters.len() == 0 {
        return Err(TryFromDomError::NoSuchElement("Parameter".to_owned()));
    }
    Ok(Parameters { parameters })
}

pub fn appearance_from(dom: &XmlElement) -> (r: Result<Appearance, TryFromDomError>)
    ensures
        outcome(r) == appearance_outcome(*dom),
        r matches Ok(v) ==> v.read_from(*dom),
{
    let boundary = req_attr(read_box(attr_text_of(dom, "Boundary")), "Boundary")?;
    let ghost f = |c: XmlElement| unit_fault(c);
    let mut objects: Vec<VtGraphicUnit> = Vec::new();
    let mut i: usize = 0;
    assert(dom.children@.take(0) =~= Seq::<XmlElement>::empty());
    while i < dom.children.len()
        invariant
            i <= dom.children@.len(),
            f == (|c: XmlElement| unit_fault(c)),
            box_of(attr_of(*dom, "Boundary"@)) == Ok::<Option<Seq<Seq<char>>>, DomFault>(
                Some(boundary.parts()),
            ),
            all_ok(dom.children@.take(i as int), f) == Ok::<(), DomFault>(()),
            objects@.len() == i,
            forall|k: int| 0 <= k < i ==> unit_is(#[trigger] objects@[k], dom.children@[k]),
        decreases dom.children@.len() - i,
    {
        assert(dom.children@.take(i + 1).drop_last() =~= dom.children@.take(i as int));
        match appearance_unit(&dom.children[i]) {
            Ok(v) => {
                objects.push(v);
            },
            Err(e) => {
                proof {
                    assert(all_ok(dom.children@.take(i + 1), f) == f(dom.children@[i as int]));
                    lemma_all_ok_prefix(dom.children@, f, i as int + 1);
                }
                return Err(e);
            },
        }
        i = i + 1;
    }
    assert(dom.children@.take(i as int) =~= dom.children@);
    if objects.len() == 0 {
        Ok(Appearance { boundary, objects: None })
    } else {
        Ok(Appearance { boundary, objects: Some(objects) })
    }
}

pub fn annot_from(dom: &XmlElement) -> (r: Result<Annot, TryFromDomError>)
    ensures
        outcome(r) == annot_outcome(*dom),
        r matches Ok(v) ==> v.read_from(*dom),
{
    let id = req_attr(read_uint(attr_text_of(dom, "ID"), u64::MAX), "ID")?;
    let typ = req_attr(read_str(attr_text_of(dom, "Type")), "Type")?;
    let date = read_date(attr_text_of(dom, "LastModDate"))?;
    let visible = read_bool(attr_text_of(dom, "Visible"))?;
    let print = read_bool(attr_text_of(dom, "Print"))?;
    let no_zoom = read_bool(attr_text_of(dom, "NoZoom"))?;
    let no_rotate = read_bool(attr_text_of(dom, "NoRotate"))?;
    let read_only = read_bool(attr_text_of(dom, "ReadOnly"))?;
    let parameters = match dom.get_child("Parameters") {
        None => None,
        Some(c) => Some(parameters_from(c)?),
    };
    let appearance = match dom.get_child("Appearance") {
        None => {
            return Err(TryFromDomError::NoSuchElement("Appearance".to_owned()));
        },
        Some(c) => appearance_from(c)?,
    };
    let creator = match attr_text_of(dom, "Creator") {
        Some(c) => c.clone(),
        None => String::new(),
    };
    let subtype = match read_str(attr_text_of(dom, "Subtype")) {
        Ok(v) => v,
        Err(e) => {
            return Err(e);
        },
    };
    let remark = match read_str(child_text_of(dom, "Remark")) {
        Ok(v) => v,
        Err(e) => {
            return Err(e);
        },
    };
    let last_mod_date = match date {
        Some(d) => d,
        None => NaiveDate { year: 1970, month: 1, day: 1 },
    };
    Ok(
        Annot {
            id,
            typ,
            creator,
            last_mod_date,
            visible,
            subtype,
            print,
            no_zoom,
            no_rotate,
            read_only,
            remark,
            parameters,
            appearance,
        },
    )
}

/// Reads the annotations of a page.
pub fn annotation_file_from(dom: &XmlElement) -> (r: Result<AnnotationXmlFile, TryFromDomError>)
    ensures
        outcome(r) == annotation_file_outcome(*dom),
        r matches Ok(v) ==> v.read_from(*dom),
{
    let annot = read_annots(dom)?;
    if annot.len() == 0 {
        return Err(TryFromDomError::NoSuchElement("Annot".to_owned()));
    }
    Ok(AnnotationXmlFile { annot })
}

/// The `Page` children, each read in turn.
fn read_pages(dom: &XmlElement) -> (r: Result<Vec<Page>, TryFromDomError>)
    ensures
        match all_ok(children_named(*dom, "Page"@), |c: XmlElement| page_entry_outcome(c)) {
            Err(f) => r matches Err(e) && e.fault() == f,
            Ok(_) => r matches Ok(v) && v@.len() == children_named(*dom, "Page"@).len()
                && forall|i: int|
                0 <= i < v@.len() ==> (#[trigger] v@[i]).read_from(children_named(*dom, "Page"@)[i]),
        },
{
    let ghost f = |c: XmlElement| page_entry_outcome(c);
    let ghost cs = children_named(*dom, "Page"@);
    let pos = named_children(dom, "Page");
    let mut out: Vec<Page> = Vec::new();
    let mut k: usize = 0;
    assert(cs.take(0) =~= Seq::<XmlElement>::empty());
    while k < pos.len()
        invariant
            k <= pos@.len() == cs.len(),
            cs == children_named(*dom, "Page"@),
            f == (|c: XmlElement| page_entry_outcome(c)),
            forall|m: int|
                0 <= m < pos@.len() ==> (#[trigger] pos@[m]) < dom.children@.len()
                    && dom.children@[pos@[m] as int] == cs[m],
            all_ok(cs.take(k as int), f) == Ok::<(), DomFault>(()),
            out@.len() == k,
            forall|m: int| 0 <= m < k ==> (#[trigger] out@[m]).read_from(cs[m]),
        decreases pos@.len() - k,
    {
        assert(cs.take(k + 1).drop_last() =~= cs.take(k as int));
        match page_entry_from(&dom.children[pos[k]]) {
            Ok(v) => {
                out.push(v);
            },
            Err(e) => {
                proof {
                    assert(all_ok(cs.take(k + 1), f) == f(cs[k as int]));
                    lemma_all_ok_prefix(cs, f, k as int + 1);
                }
                return Err(e);
            },
        }
        k = k + 1;
    }
    assert(cs.take(k as int) =~= cs);
    Ok(out)
}

/// The `Parameter` children, each read in turn.
fn read_parameters(dom: &XmlElement) -> (r: Result<Vec<Parameter>, TryFromDomError>)
    ensures
        match all_ok(children_named(*dom, "Parameter"@), |c: XmlElement| parameter_outcome(c)) {
            Err(f) => r matches Err(e) && e.fault() == f,
            Ok(_) => r matches Ok(v) && v@.len() == children_named(*dom, "Parameter"@).len()
                && forall|i: int|
                0 <= i < v@.len() ==> (#[trigger] v@[i]).read_from(children_named(*dom, "Parameter"@)[i]),
        },
{
    let ghost f = |c: XmlElement| parameter_outcome(c);
    let ghost cs = children_named(*dom, "Parameter"@);
    let pos = named_children(dom, "Parameter");
    let mut out: Vec<Parameter> = Vec::new();
    let mut k: usize = 0;
    assert(cs.take(0) =~= Seq::<XmlElement>::empty());
    while k < pos.len()
        invariant
            k <= pos@.len() == cs.len(),
            cs == children_named(*dom, "Parameter"@),
            f == (|c: XmlElement| parameter_outcome(c)),
            forall|m: int|
                0 <= m < pos@.len() ==> (#[trigger] pos@[m]) < dom.children@.len()
                    && dom.children@[pos@[m] as int] == cs[m],
            all_ok(cs.take(k as int), f) == Ok::<(), DomFault>(()),
            out@.len() == k,
            forall|m: int| 0 <= m < k ==> (#[trigger] out@[m]).read_from(cs[m]),
        decreases pos@.len() - k,
    {
        assert(cs.take(k + 1).drop_last() =~= cs.take(k as int));
        match parameter_from(&dom.children[pos[k]]) {
            Ok(v) => {
                out.push(v);
            },
            Err(e) => {
                proof {
                    assert(all_ok(cs.take(k + 1), f) == f(cs[k as int]));
                    lemma_all_ok_prefix(cs, f, k as int + 1);
                }
                return Err(e);
            },
        }
        k = k + 1;
    }
    assert(cs.take(k as int) =~= cs);
    Ok(out)
}

/// The `Annot` children, each read in turn.
fn read_annots(dom: &XmlElement) -> (r: Result<Vec<Annot>, TryFromDomError>)
    ensures
        match all_ok(children_named(*dom, "Annot"@), |c: XmlElement| annot_outcome(c)) {
            Err(f) => r matches Err(e) && e.fault() == f,
            Ok(_) => r matches Ok(v) && v@.len() == children_named(*dom, "Annot"@).len()
                && forall|i: int|
                0 <= i < v@.len() ==> (#[trigger] v@[i]).read_from(children_named(*dom, "Annot"@)[i]),
        },
{
    let ghost f = |c: XmlElement| annot_outcome(c);
    let ghost cs = children_named(*dom, "Annot"@);
    let pos = named_children(dom, "Annot");
    let mut out: Vec<Annot> = Vec::new();
    let mut k: usize = 0;
    assert(cs.take(0) =~= Seq::<XmlElement>::empty());
    while k < pos.len()
        invariant
            k <= pos@.len() == cs.len(),
            cs == children_named(*dom, "Annot"@),
            f == (|c: XmlElement| annot_outcome(c)),
            forall|m: int|
                0 <= m < pos@.len() ==> (#[trigger] pos@[m]) < dom.children@.len()
                    && dom.children@[pos@[m] as int] == cs[m],
            all_ok(cs.take(k as int), f) == Ok::<(), DomFault>(()),
            out@.len() == k,
            forall|m: int| 0 <= m < k ==> (#[trigger] out@[m]).read_from(cs[m]),
        decreases pos@.len() - k,
    {
        assert(cs.take(k + 1).drop_last() =~= cs.take(k as int));
        match annot_from(&dom.children[pos[k]]) {
            Ok(v) => {
                out.push(v);
            },
            Err(e) => {
                proof {
                    assert(all_ok(cs.take(k + 1), f) == f(cs[k as int]));
                    lemma_all_ok_prefix(cs, f, k as int + 1);
                }
                return Err(e);
            },
        }
        k = k + 1;
    }
    assert(cs.take(k as int) =~= cs);
    Ok(out)
}

} // verus!
