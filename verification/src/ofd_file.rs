//! The entry of an OFD package, `OFD.xml`: its documents and what describes
//! them.
use crate::dom::{
    attr_text_of, check, child_text_of, name_not_expected, no_attr, no_elem, opt_view, outcome,
    read_str, req_attr, required, str_of, then, all_ok, nonempty_all_ok, lemma_all_ok_prefix,
    DomFault, TryFromDom, TryFromDomError,
};
use crate::xml::{attr_of, child_of, child_text, XmlElement};
use chrono::Datelike;
use vstd::prelude::*;

verus! {

pub struct OfdXmlFile {
    pub version: String,
    pub doc_type: String,
    pub doc_body: Vec<DocBody>,
}

pub struct DocBody {
    pub doc_info: CtDocInfo,
    pub doc_root: Option<String>,
    pub versions: Option<Versions>,
    pub signatures: Option<String>,
}

pub struct Versions {
    pub version: Vec<Version>,
}

pub struct Version {
    pub id: String,
    pub index: i32,
    pub current: Option<bool>,
    pub base_loc: String,
}

/// A calendar date: year, month and day.
#[derive(Debug, PartialEq, Eq, Structural, Clone, Copy)]
pub struct NaiveDate {
    pub year: i32,
    pub month: u32,
    pub day: u32,
}

pub struct CtDocInfo {
    pub doc_id: Option<String>,
    pub title: Option<String>,
    pub author: Option<String>,
    pub subject: Option<String>,
    pub doc_abstract: Option<String>,
    pub creation_date: Option<NaiveDate>,
    pub mod_date: Option<NaiveDate>,
    pub doc_usage: Option<String>,
    pub cover: Option<String>,
    pub keywords: Option<Keywords>,
    pub creator: Option<String>,
    pub creator_version: Option<String>,
    pub custom_datas: Option<CustomDatas>,
}

pub struct Keywords {
    pub keywords: Vec<String>,
}

pub struct CustomDatas {
    pub custom_data: Vec<CustomData>,
}

pub struct CustomData {
    pub name: String,
    pub value: String,
}

// ---------------------------------------------------------------------------
// Dates
// ---------------------------------------------------------------------------

/// The date that chrono's `NaiveDate::from_str` reads from a text.
pub uninterp spec fn chrono_naive_date(s: Seq<char>) -> Option<NaiveDate>;

/// Reads a date with chrono's `NaiveDate::from_str`, and gives its year,
/// month and day. The contract claims only that the result is a function of
/// the text, named `chrono_naive_date`.
#[verifier::external_body]
fn chrono_date(s: &str) -> (r: Option<NaiveDate>)
    ensures
        r == chrono_naive_date(s@),
{
    match s.parse::<chrono::NaiveDate>() {
        Ok(d) => Some(NaiveDate { year: d.year(), month: d.month(), day: d.day() }),
        Err(_) => None,
    }
}

pub open spec fn date_of(o: Option<Seq<char>>) -> Result<Option<NaiveDate>, DomFault> {
    match o {
        None => Ok(None),
        Some(s) => match chrono_naive_date(s) {
            Some(d) => Ok(Some(d)),
            None => Err(DomFault::Warp(crate::value::ValueError::ParseDate)),
        },
    }
}

pub fn read_date(o: Option<&String>) -> (r: Result<Option<NaiveDate>, TryFromDomError>)
    ensures
        match date_of(crate::dom::view_opt_ref(o)) {
            Ok(v) => r == Ok::<Option<NaiveDate>, TryFromDomError>(v),
            Err(f) => r matches Err(e) && e.fault() == f,
        },
{
    match o {
        None => Ok(None),
        Some(s) => match chrono_date(s.as_str()) {
            Some(d) => Ok(Some(d)),
            None => Err(TryFromDomError::Warp(crate::value::ValueError::ParseDate)),
        },
    }
}

// ---------------------------------------------------------------------------
// What each structure needs of its element
// ---------------------------------------------------------------------------

pub open spec fn custom_data_outcome(e: XmlElement) -> Result<(), DomFault> {
    if e.name@ != "CustomData"@ {
        Err(DomFault::ElementNameNotExpected("CustomData"@, e.name@))
    } else {
        check(required(str_of(attr_of(e, "Name"@)), no_attr("Name"@)))
    }
}

impl CustomData {
    pub open spec fn read_from(self, e: XmlElement) -> bool {
        &&& attr_of(e, "Name"@) == Some(self.name@)
        &&& self.value@ == e.text@
    }
}

pub open spec fn custom_datas_outcome(e: XmlElement) -> Result<(), DomFault> {
    nonempty_all_ok(e, |c: XmlElement| custom_data_outcome(c))
}

impl CustomDatas {
    pub open spec fn read_from(self, e: XmlElement) -> bool {
        &&& self.custom_data@.len() == e.children@.len()
        &&& forall|i: int|
            0 <= i < e.children@.len() ==> (#[trigger] self.custom_data@[i]).read_from(
                e.children@[i],
            )
    }
}

pub open spec fn doc_info_outcome(e: XmlElement) -> Result<(), DomFault> {
    then(
        check(date_of(child_text(e, "CreationDate"@))),
        match child_of(e, "CustomDatas"@) {
            None => Ok(()),
            Some(c) => custom_datas_outcome(c),
        },
    )
}

impl CtDocInfo {
    pub open spec fn read_from(self, e: XmlElement) -> bool {
        &&& opt_view(self.doc_id) == child_text(e, "DocID"@)
        &&& opt_view(self.title) == child_text(e, "Title"@)
        &&& opt_view(self.author) == child_text(e, "Author"@)
        &&& self.subject is None
        &&& self.doc_abstract is None
        &&& date_of(child_text(e, "CreationDate"@)) == Ok::<Option<NaiveDate>, DomFault>(
            self.creation_date,
        )
        &&& self.mod_date is None
        &&& self.doc_usage is None
        &&& self.cover is None
        &&& self.keywords is None
        &&& self.creator is None
        &&& self.creator_version is None
        &&& match child_of(e, "CustomDatas"@) {
            None => self.custom_datas is None,
            Some(c) => self.custom_datas matches Some(d) && d.read_from(c),
        }
    }
}

pub open spec fn doc_body_outcome(e: XmlElement) -> Result<(), DomFault> {
    if e.name@ != "DocBody"@ {
        Err(DomFault::ElementNameNotExpected("DocBody"@, e.name@))
    } else {
        match child_of(e, "DocInfo"@) {
            None => Err(no_elem("DocInfo"@)),
            Some(c) => doc_info_outcome(c),
        }
    }
}

impl DocBody {
    pub open spec fn read_from(self, e: XmlElement) -> bool {
        &&& child_of(e, "DocInfo"@) matches Some(c) && self.doc_info.read_from(c)
        &&& opt_view(self.doc_root) == child_text(e, "DocRoot"@)
        &&& self.versions is None
        &&& opt_view(self.signatures) == child_text(e, "Signatures"@)
    }
}

/// What the conversion of an `OFD` element needs, its name aside.
pub open spec fn ofd_body_outcome(e: XmlElement) -> Result<(), DomFault> {
    then(
        check(required(str_of(attr_of(e, "Version"@)), no_attr("Version"@))),
        then(
            check(required(str_of(attr_of(e, "DocType"@)), no_attr("DocType"@))),
            nonempty_all_ok(e, |c: XmlElement| doc_body_outcome(c)),
        ),
    )
}

pub open spec fn ofd_outcome(e: XmlElement) -> Result<(), DomFault> {
    if e.name@ != "OFD"@ {
        Err(DomFault::ElementNameNotExpected("OFD"@, e.name@))
    } else {
        ofd_body_outcome(e)
    }
}

impl OfdXmlFile {
    pub open spec fn read_from(self, e: XmlElement) -> bool {
        &&& attr_of(e, "Version"@) == Some(self.version@)
        &&& attr_of(e, "DocType"@) == Some(self.doc_type@)
        &&& self.doc_body@.len() == e.children@.len()
        &&& forall|i: int|
            0 <= i < e.children@.len() ==> (#[trigger] self.doc_body@[i]).read_from(
                e.children@[i],
            )
    }
}

// ---------------------------------------------------------------------------
// The conversions
// ---------------------------------------------------------------------------

impl<'a> TryFromDom<&'a XmlElement> for CustomData {
    open spec fn unhandled(dom: &'a XmlElement) -> bool {
        false
    }

    fn try_from_dom(dom: &'a XmlElement) -> (r: Result<Self, TryFromDomError>)
        ensures
            outcome(r) == custom_data_outcome(*dom),
            r matches Ok(v) ==> v.read_from(*dom),
    {
        if !dom.is_named("CustomData") {
            return Err(name_not_expected("CustomData", &dom.name));
        }
        let name = req_attr(read_str(attr_text_of(dom, "Name")), "Name")?;
        let value = dom.text.clone();
        Ok(CustomData { name, value })
    }
}

impl<'a> TryFromDom<&'a XmlElement> for CustomDatas {
    open spec fn unhandled(dom: &'a XmlElement) -> bool {
        false
    }

    fn try_from_dom(dom: &'a XmlElement) -> (r: Result<Self, TryFromDomError>)
        ensures
            outcome(r) == custom_datas_outcome(*dom),
            r matches Ok(v) ==> v.read_from(*dom),
    {
        let ghost f = |c: XmlElement| custom_data_outcome(c);
        let mut custom_data: Vec<CustomData> = Vec::new();
        let mut i: usize = 0;
        while i < dom.children.len()
            invariant
                i <= dom.children@.len(),
                f == (|c: XmlElement| custom_data_outcome(c)),
                all_ok(dom.children@.take(i as int), f) == Ok::<(), DomFault>(()),
                custom_data@.len() == i,
                forall|k: int|
                    0 <= k < i ==> (#[trigger] custom_data@[k]).read_from(dom.children@[k]),
            decreases dom.children@.len() - i,
        {
            assert(dom.children@.take(i + 1).drop_last() =~= dom.children@.take(i as int));
            let c = CustomData::try_from_dom(&dom.children[i]);
            match c {
                Ok(v) => {
                    custom_data.push(v);
                },
                Err(e) => {
                    proof {
                        lemma_all_ok_prefix(dom.children@, f, i as int + 1);
                    }
                    return Err(e);
                },
            }
            i = i + 1;
        }
        assert(dom.children@.take(i as int) =~= dom.children@);
        if custom_data.len() == 0 {
            return Err(TryFromDomError::NoSuchElement("$value".to_owned()));
        }
        Ok(CustomDatas { custom_data })
    }
}

impl<'a> TryFromDom<&'a XmlElement> for CtDocInfo {
    open spec fn unhandled(dom: &'a XmlElement) -> bool {
        false
    }

    fn try_from_dom(dom: &'a XmlElement) -> (r: Result<Self, TryFromDomError>)
        ensures
            outcome(r) == doc_info_outcome(*dom),
            r matches Ok(v) ==> v.read_from(*dom),
    {
        let doc_id = read_str(child_text_of(dom, "DocID"))?;
        let title = read_str(child_text_of(dom, "Title"))?;
        let author = read_str(child_text_of(dom, "Author"))?;
        let creation_date = read_date(child_text_of(dom, "CreationDate"))?;
        let custom_datas = match dom.get_child("CustomDatas") {
            None => None,
            Some(c) => Some(CustomDatas::try_from_dom(c)?),
        };
        Ok(CtDocInfo {
            doc_id,
            title,
            author,
            subject: None,
            doc_abstract: None,
            creation_date,
            mod_date: None,
            doc_usage: None,
            cover: None,
            keywords: None,
            creator: None,
            creator_version: None,
            custom_datas,
        })
    }
}

impl<'a> TryFromDom<&'a XmlElement> for DocBody {
    open spec fn unhandled(dom: &'a XmlElement) -> bool {
        false
    }

    fn try_from_dom(dom: &'a XmlElement) -> (r: Result<Self, TryFromDomError>)
        ensures
            outcome(r) == doc_body_outcome(*dom),
            r matches Ok(v) ==> v.read_from(*dom),
    {
        if !dom.is_named("DocBody") {
            return Err(name_not_expected("DocBody", &dom.name));
        }
        let doc_info = match dom.get_child("DocInfo") {
            None => {
                return Err(TryFromDomError::NoSuchElement("DocInfo".to_owned()));
            },
            Some(c) => CtDocInfo::try_from_dom(c)?,
        };
        let doc_root = read_str(child_text_of(dom, "DocRoot"))?;
        let signatures = read_str(child_text_of(dom, "Signatures"))?;
        Ok(DocBody { doc_info, doc_root, versions: None, signatures })
    }
}

/// Reads the attributes and the document bodies of an `OFD` element.
fn ofd_from_dom(dom: &XmlElement) -> (r: Result<OfdXmlFile, TryFromDomError>)
    ensures
        outcome(r) == ofd_body_outcome(*dom),
        r matches Ok(v) ==> v.read_from(*dom),
{
    let version = req_attr(read_str(attr_text_of(dom, "Version")), "Version")?;
    let doc_type = req_attr(read_str(attr_text_of(dom, "DocType")), "DocType")?;
    let ghost f = |c: XmlElement| doc_body_outcome(c);
    let mut doc_body: Vec<DocBody> = Vec::new();
    let mut i: usize = 0;
    while i < dom.children.len()
        invariant
            i <= dom.children@.len(),
            f == (|c: XmlElement| doc_body_outcome(c)),
            all_ok(dom.children@.take(i as int), f) == Ok::<(), DomFault>(()),
            attr_of(*dom, "Version"@) == Some(version@),
            attr_of(*dom, "DocType"@) == Some(doc_type@),
            doc_body@.len() == i,
            forall|k: int| 0 <= k < i ==> (#[trigger] doc_body@[k]).read_from(dom.children@[k]),
        decreases dom.children@.len() - i,
    {
        assert(dom.children@.take(i + 1).drop_last() =~= dom.children@.take(i as int));
        match DocBody::try_from_dom(&dom.children[i]) {
            Ok(v) => {
                doc_body.push(v);
            },
            Err(e) => {
                proof {
                    assert(all_ok(dom.children@.take(i + 1), f) == f(dom.children@[i as int]));
                    lemma_all_ok_prefix(dom.children@, f, i as int + 1);
                }
                return Err(e);
            },
        }
        i = i + 1;
    }
    assert(dom.children@.take(i as int) =~= dom.children@);
    if doc_body.len() == 0 {
        return Err(TryFromDomError::NoSuchElement("$value".to_owned()));
    }
    Ok(OfdXmlFile { version, doc_type, doc_body })
}

/// From an owned element, whatever its name.
impl TryFromDom<XmlElement> for OfdXmlFile {
    open spec fn unhandled(dom: XmlElement) -> bool {
        false
    }

    fn try_from_dom(dom: XmlElement) -> (r: Result<Self, TryFromDomError>)
        ensures
            outcome(r) == ofd_body_outcome(dom),
            r matches Ok(v) ==> v.read_from(dom),
    {
        ofd_from_dom(&dom)
    }
}

/// From an element that must be named `OFD`.
impl<'a> TryFromDom<&'a XmlElement> for OfdXmlFile {
    open spec fn unhandled(dom: &'a XmlElement) -> bool {
        false
    }

    fn try_from_dom(dom: &'a XmlElement) -> (r: Result<Self, TryFromDomError>)
        ensures
            outcome(r) == ofd_outcome(*dom),
            r matches Ok(v) ==> v.read_from(*dom),
    {
        if !dom.is_named("OFD") {
            return Err(name_not_expected("OFD", &dom.name));
        }
        ofd_from_dom(dom)
    }
}

} // verus!
