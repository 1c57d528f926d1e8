//! The signatures of a document, `Signatures.xml` and `Signature.xml`, and
//! how they are read from their elements.
use crate::dom::{
    all_ok, attr_text_of, box_of, check, child_text_of, lemma_all_ok_prefix, named_children,
    no_attr, no_elem, opt_box, opt_view, outcome, read_box, read_str, read_uint, req_attr,
    required, str_of, then, uint_of, DomFault, TryFromDom, TryFromDomError,
};
use crate::value::StBox;
use crate::xml::{attr_of, child_of, child_text, children_named, XmlElement};
use vstd::prelude::*;

verus! {

pub struct SignaturesXmlFile {
    pub max_sign_id: Option<String>,
    pub signature: Option<Vec<Signature>>,
}

pub struct Signature {
    pub id: String,
    /// default `Seal`
    pub typ: Option<String>,
    pub base_loc: String,
}

pub struct SignatureXmlFile {
    pub signed_info: SignedInfo,
    pub signed_value: String,
}

pub struct SignedInfo {
    pub provider: Provider,
    pub signature_method: Option<String>,
    pub signature_date_time: Option<String>,
    pub references: References,
    pub stamp_annot: Option<Vec<StampAnnot>>,
    pub seal: Option<Seal>,
}

pub struct Seal {
    pub base_loc: String,
}

pub struct StampAnnot {
    pub id: String,
    pub page_ref: u64,
    pub boundary: StBox,
    pub clip: Option<StBox>,
}

pub struct References {
    /// default `MD5`
    pub check_method: Option<String>,
    pub references: Vec<Reference>,
}

pub struct Reference {
    pub file_ref: String,
    pub check_value: String,
}

pub struct Provider {
    pub provider_name: String,
    pub version: Option<String>,
    pub company: Option<String>,
}


// ---------------------------------------------------------------------------
// What each structure needs of its element
// ---------------------------------------------------------------------------

/// A child that must be there.
pub open spec fn need_child(e: XmlElement, n: Seq<char>) -> Result<(), DomFault> {
    match child_of(e, n) {
        None => Err(no_elem(n)),
        Some(_) => Ok(()),
    }
}

pub open spec fn provider_outcome(e: XmlElement) -> Result<(), DomFault> {
    check(required(str_of(attr_of(e, "ProviderName"@)), no_attr("ProviderName"@)))
}

impl Provider {
    pub open spec fn read_from(self, e: XmlElement) -> bool {
        &&& attr_of(e, "ProviderName"@) == Some(self.provider_name@)
        &&& opt_view(self.version) == attr_of(e, "Version"@)
        &&& opt_view(self.company) == attr_of(e, "Company"@)
    }
}

pub open spec fn reference_outcome(e: XmlElement) -> Result<(), DomFault> {
    then(
        check(required(str_of(attr_of(e, "FileRef"@)), no_attr("FileRef"@))),
        need_child(e, "CheckValue"@),
    )
}

impl Reference {
    pub open spec fn read_from(self, e: XmlElement) -> bool {
        &&& attr_of(e, "FileRef"@) == Some(self.file_ref@)
        &&& child_text(e, "CheckValue"@) == Some(self.check_value@)
    }
}

/// At least one `Reference`, each of them read.
pub open spec fn references_outcome(e: XmlElement) -> Result<(), DomFault> {
    match all_ok(children_named(e, "Reference"@), |c: XmlElement| reference_outcome(c)) {
        Err(x) => Err(x),
        Ok(_) => if children_named(e, "Reference"@).len() == 0 {
            Err(no_elem("Reference"@))
        } else {
            Ok(())
        },
    }
}

impl References {
    pub open spec fn read_from(self, e: XmlElement) -> bool {
        &&& opt_view(self.check_method) == attr_of(e, "CheckMethod"@)
        &&& self.references@.len() == children_named(e, "Reference"@).len()
        &&& forall|i: int|
            0 <= i < self.references@.len() ==> (#[trigger] self.references@[i]).read_from(
                children_named(e, "Reference"@)[i],
            )
    }
}

pub open spec fn stamp_annot_outcome(e: XmlElement) -> Result<(), DomFault> {
    then(
        check(required(str_of(attr_of(e, "ID"@)), no_attr("ID"@))),
        then(
            check(required(uint_of(attr_of(e, "PageRef"@), u64::MAX as int), no_attr("PageRef"@))),
            then(
                check(required(box_of(attr_of(e, "Boundary"@)), no_attr("Boundary"@))),
                check(box_of(attr_of(e, "Clip"@))),
            ),
        ),
    )
}

impl StampAnnot {
    pub open spec fn read_from(self, e: XmlElement) -> bool {
        &&& attr_of(e, "ID"@) == Some(self.id@)
        &&& uint_of(attr_of(e, "PageRef"@), u64::MAX as int) == Ok::<Option<nat>, DomFault>(
            Some(self.page_ref as nat),
        )
        &&& box_of(attr_of(e, "Boundary"@)) == Ok::<Option<Seq<Seq<char>>>, DomFault>(
            Some(self.boundary.parts()),
        )
        &&& box_of(attr_of(e, "Clip"@)) == Ok::<Option<Seq<Seq<char>>>, DomFault>(opt_box(self.clip))
    }
}

pub open spec fn seal_outcome(e: XmlElement) -> Result<(), DomFault> {
    need_child(e, "BaseLoc"@)
}

impl Seal {
    pub open spec fn read_from(self, e: XmlElement) -> bool {
        child_text(e, "BaseLoc"@) == Some(self.base_loc@)
    }
}

pub open spec fn signed_info_outcome(e: XmlElement) -> Result<(), DomFault> {
    then(
        match child_of(e, "Provider"@) {
            None => Err(no_elem("Provider"@)),
            Some(c) => provider_outcome(c),
        },
        then(
            match child_of(e, "References"@) {
                None => Err(no_elem("References"@)),
                Some(c) => references_outcome(c),
            },
            then(
                all_ok(children_named(e, "StampAnnot"@), |c: XmlElement| stamp_annot_outcome(c)),
                match child_of(e, "Seal"@) {
                    None => Ok(()),
                    Some(c) => seal_outcome(c),
                },
            ),
        ),
    )
}

impl SignedInfo {
    pub open spec fn read_from(self, e: XmlElement) -> bool {
        &&& child_of(e, "Provider"@) matches Some(c) && self.provider.read_from(c)
        &&& opt_view(self.signature_method) == child_text(e, "SignatureMethod"@)
        &&& opt_view(self.signature_date_time) == child_text(e, "SignatureDateTime"@)
        &&& child_of(e, "References"@) matches Some(c) && self.references.read_from(c)
        &&& match self.stamp_annot {
            None => children_named(e, "StampAnnot"@).len() == 0,
            Some(v) => v@.len() == children_named(e, "StampAnnot"@).len() && v@.len() > 0
                && forall|i: int|
                0 <= i < v@.len() ==> (#[trigger] v@[i]).read_from(children_named(e, "StampAnnot"@)[i]),
        }
        &&& match child_of(e, "Seal"@) {
            None => self.seal is None,
            Some(c) => self.seal matches Some(s) && s.read_from(c),
        }
    }
}

pub open spec fn signature_file_outcome(e: XmlElement) -> Result<(), DomFault> {
    then(
        match child_of(e, "SignedInfo"@) {
            None => Err(no_elem("SignedInfo"@)),
            Some(c) => signed_info_outcome(c),
        },
        need_child(e, "SignedValue"@),
    )
}

impl SignatureXmlFile {
    pub open spec fn read_from(self, e: XmlElement) -> bool {
        &&& child_of(e, "SignedInfo"@) matches Some(c) && self.signed_info.read_from(c)
        &&& child_text(e, "SignedValue"@) == Some(self.signed_value@)
    }
}

pub open spec fn signature_entry_outcome(e: XmlElement) -> Result<(), DomFault> {
    then(
        check(required(str_of(attr_of(e, "ID"@)), no_attr("ID"@))),
        check(required(str_of(attr_of(e, "BaseLoc"@)), no_attr("BaseLoc"@))),
    )
}

impl Signature {
    pub open spec fn read_from(self, e: XmlElement) -> bool {
        &&& attr_of(e, "ID"@) == Some(self.id@)
        &&& opt_view(self.typ) == attr_of(e, "Type"@)
        &&& attr_of(e, "BaseLoc"@) == Some(self.base_loc@)
    }
}

pub open spec fn signatures_outcome(e: XmlElement) -> Result<(), DomFault> {
    all_ok(children_named(e, "Signature"@), |c: XmlElement| signature_entry_outcome(c))
}

impl SignaturesXmlFile {
    pub open spec fn read_from(self, e: XmlElement) -> bool {
        &&& opt_view(self.max_sign_id) == child_text(e, "MaxSignId"@)
        &&& match self.signature {
            None => children_named(e, "Signature"@).len() == 0,
            Some(v) => v@.len() == children_named(e, "Signature"@).len() && v@.len() > 0
                && forall|i: int|
                0 <= i < v@.len() ==> (#[trigger] v@[i]).read_from(children_named(e, "Signature"@)[i]),
        }
    }
}

// ---------------------------------------------------------------------------
// The conversions
// ---------------------------------------------------------------------------

fn need_child_text(dom: &XmlElement, name: &str) -> (r: Result<String, TryFromDomError>)
    ensures
        match child_text(*dom, name@) {
            None => r matches Err(e) && e.fault() == no_elem(name@),
            Some(t) => r matches Ok(s) && s@ == t,
        },
{
    match child_text_of(dom, name) {
        None => Err(TryFromDomError::NoSuchElement(name.to_owned())),
        Some(t) => Ok(t.clone()),
    }
}

impl<'a> TryFromDom<&'a XmlElement> for Provider {
    open spec fn unhandled(dom: &'a XmlElement) -> bool {
        false
    }

    fn try_from_dom(dom: &'a XmlElement) -> (r: Result<Self, TryFromDomError>)
        ensures
            outcome(r) == provider_outcome(*dom),
            r matches Ok(v) ==> v.read_from(*dom),
    {
        let provider_name = req_attr(read_str(attr_text_of(dom, "ProviderName")), "ProviderName")?;
        let version = read_str(attr_text_of(dom, "Version"))?;
        let company = read_str(attr_text_of(dom, "Company"))?;
        Ok(Provider { provider_name, version, company })
    }
}

impl<'a> TryFromDom<&'a XmlElement> for Reference {
    open spec fn unhandled(dom: &'a XmlElement) -> bool {
        false
    }

    fn try_from_dom(dom: &'a XmlElement) -> (r: Result<Self, TryFromDomError>)
        ensures
            outcome(r) == reference_outcome(*dom),
            r matches Ok(v) ==> v.read_from(*dom),
    {
        let file_ref = req_attr(read_str(attr_text_of(dom, "FileRef")), "FileRef")?;
        let check_value = need_child_text(dom, "CheckValue")?;
        Ok(Reference { file_ref, check_value })
    }
}

impl<'a> TryFromDom<&'a XmlElement> for References {
    open spec fn unhandled(dom: &'a XmlElement) -> bool {
        false
    }

    fn try_from_dom(dom: &'a XmlElement) -> (r: Result<Self, TryFromDomError>)
        ensures
            outcome(r) == references_outcome(*dom),
            r matches Ok(v) ==> v.read_from(*dom),
    {
        let references = read_references(dom)?;
        if references.len() == 0 {
            return Err(TryFromDomError::NoSuchElement("Reference".to_owned()));
        }
        let check_method = match read_str(attr_text_of(dom, "CheckMethod")) {
            Ok(v) => v,
            Err(e) => {
                return Err(e);
            },
        };
        Ok(References { check_method, references })
    }
}

impl<'a> TryFromDom<&'a XmlElement> for StampAnnot {
    open spec fn unhandled(dom: &'a XmlElement) -> bool {
        false
    }

    fn try_from_dom(dom: &'a XmlElement) -> (r: Result<Self, TryFromDomError>)
        ensures
            outcome(r) == stamp_annot_outcome(*dom),
            r matches Ok(v) ==> v.read_from(*dom),
    {
        let id = req_attr(read_str(attr_text_of(dom, "ID")), "ID")?;
        let page_ref = req_attr(read_uint(attr_text_of(dom, "PageRef"), u64::MAX), "PageRef")?;
        let boundary = req_attr(read_box(attr_text_of(dom, "Boundary")), "Boundary")?;
        let clip = read_box(attr_text_of(dom, "Clip"))?;
        Ok(StampAnnot { id, page_ref, boundary, clip })
    }
}

impl<'a> TryFromDom<&'a XmlElement> for Seal {
    open spec fn unhandled(dom: &'a XmlElement) -> bool {
        false
    }

    fn try_from_dom(dom: &'a XmlElement) -> (r: Result<Self, TryFromDomError>)
        ensures
            outcome(r) == seal_outcome(*dom),
            r matches Ok(v) ==> v.read_from(*dom),
    {
        let base_loc = need_child_text(dom, "BaseLoc")?;
        Ok(Seal { base_loc })
    }
}

impl<'a> TryFromDom<&'a XmlElement> for SignedInfo {
    open spec fn unhandled(dom: &'a XmlElement) -> bool {
        false
    }

    fn try_from_dom(dom: &'a XmlElement) -> (r: Result<Self, TryFromDomError>)
        ensures
            outcome(r) == signed_info_outcome(*dom),
            r matches Ok(v) ==> v.read_from(*dom),
    {
        let provider = match dom.get_child("Provider") {
            None => {
                return Err(TryFromDomError::NoSuchElement("Provider".to_owned()));
            },
            Some(c) => Provider::try_from_dom(c)?,
        };
        let references = match dom.get_child("References") {
            None => {
                return Err(TryFromDomError::NoSuchElement("References".to_owned()));
            },
            Some(c) => References::try_from_dom(c)?,
        };
        let stamps = read_stamp_annots(dom)?;
        let seal = match dom.get_child("Seal") {
            None => None,
            Some(c) => Some(Seal::try_from_dom(c)?),
        };
        let signature_method = match read_str(child_text_of(dom, "SignatureMethod")) {
            Ok(v) => v,
            Err(e) => {
                return Err(e);
            },
        };
        let signature_date_time = match read_str(child_text_of(dom, "SignatureDateTime")) {
            Ok(v) => v,
            Err(e) => {
                return Err(e);
            },
        };
        let stamp_annot = if stamps.len() == 0 {
            None
        } else {
            Some(stamps)
        };
        Ok(SignedInfo { provider, signature_method, signature_date_time, references, stamp_annot, seal })
    }
}

impl<'a> TryFromDom<&'a XmlElement> for SignatureXmlFile {
    open spec fn unhandled(dom: &'a XmlElement) -> bool {
        false
    }

    fn try_from_dom(dom: &'a XmlElement) -> (r: Result<Self, TryFromDomError>)
        ensures
            outcome(r) == signature_file_outcome(*dom),
            r matches Ok(v) ==> v.read_from(*dom),
    {
        let signed_info = match dom.get_child("SignedInfo") {
            None => {
                return Err(TryFromDomError::NoSuchElement("SignedInfo".to_owned()));
            },
            Some(c) => SignedInfo::try_from_dom(c)?,
        };
        let signed_value = need_child_text(dom, "SignedValue")?;
        Ok(SignatureXmlFile { signed_info, signed_value })
    }
}

impl<'a> TryFromDom<&'a XmlElement> for Signature {
    open spec fn unhandled(dom: &'a XmlElement) -> bool {
        false
    }

    fn try_from_dom(dom: &'a XmlElement) -> (r: Result<Self, TryFromDomError>)
        ensures
            outcome(r) == signature_entry_outcome(*dom),
            r matches Ok(v) ==> v.read_from(*dom),
    {
        let id = req_attr(read_str(attr_text_of(dom, "ID")), "ID")?;
        let base_loc = req_attr(read_str(attr_text_of(dom, "BaseLoc")), "BaseLoc")?;
        let typ = match read_str(attr_text_of(dom, "Type")) {
            Ok(v) => v,
            Err(e) => {
                return Err(e);
            },
        };
        Ok(Signature { id, typ, base_loc })
    }
}

impl<'a> TryFromDom<&'a XmlElement> for SignaturesXmlFile {
    open spec fn unhandled(dom: &'a XmlElement) -> bool {
        false
    }

    fn try_from_dom(dom: &'a XmlElement) -> (r: Result<Self, TryFromDomError>)
        ensures
            outcome(r) == signatures_outcome(*dom),
            r matches Ok(v) ==> v.read_from(*dom),
    {
        let list = read_signature_entries(dom)?;
        let max_sign_id = match read_str(child_text_of(dom, "MaxSignId")) {
            Ok(v) => v,
            Err(e) => {
                return Err(e);
            },
        };
        let signature = if list.len() == 0 {
            None
        } else {
            Some(list)
        };
        Ok(SignaturesXmlFile { max_sign_id, signature })
    }
}

/// The `Reference` children, each read in turn.
fn read_references(dom: &XmlElement) -> (r: Result<Vec<Reference>, TryFromDomError>)
    ensures
        match all_ok(children_named(*dom, "Reference"@), |c: XmlElement| reference_outcome(c)) {
            Err(f) => r matches Err(e) && e.fault() == f,
            Ok(_) => r matches Ok(v) && v@.len() == children_named(*dom, "Reference"@).len()
                && forall|i: int|
                0 <= i < v@.len() ==> (#[trigger] v@[i]).read_from(children_named(*dom, "Reference"@)[i]),
        },
{
    let ghost f = |c: XmlElement| reference_outcome(c);
    let ghost cs = children_named(*dom, "Reference"@);
    let pos = named_children(dom, "Reference");
    let mut out: Vec<Reference> = Vec::new();
    let mut k: usize = 0;
    assert(cs.take(0) =~= Seq::<XmlElement>::empty());
    while k < pos.len()
        invariant
            k <= pos@.len() == cs.len(),
            cs == children_named(*dom, "Reference"@),
            f == (|c: XmlElement| reference_outcome(c)),
            forall|m: int|
                0 <= m < pos@.len() ==> (#[trigger] pos@[m]) < dom.children@.len()
                    && dom.children@[pos@[m] as int] == cs[m],
            all_ok(cs.take(k as int), f) == Ok::<(), DomFault>(()),
            out@.len() == k,
            forall|m: int| 0 <= m < k ==> (#[trigger] out@[m]).read_from(cs[m]),
        decreases pos@.len() - k,
    {
        assert(cs.take(k + 1).drop_last() =~= cs.take(k as int));
        match <Reference as TryFromDom<&XmlElement>>::try_from_dom(&dom.children[pos[k]]) {
            Ok(v) => {
                out.push(v);
            },
            Err(e) => {
                proof {
                    assert(all_ok(cs.take(k + 1), f) == f(cs[k as int]));
                    lemma_all_ok_prefix(cs, f, k as int + 1);
                }
                return Err(e);
            },
        }
        k = k + 1;
    }
    assert(cs.take(k as int) =~= cs);
    Ok(out)
}

/// The `StampAnnot` children, each read in turn.
fn read_stamp_annots(dom: &XmlElement) -> (r: Result<Vec<StampAnnot>, TryFromDomError>)
    ensures
        match all_ok(children_named(*dom, "StampAnnot"@), |c: XmlElement| stamp_annot_outcome(c)) {
            Err(f) => r matches Err(e) && e.fault() == f,
            Ok(_) => r matches Ok(v) && v@.len() == children_named(*dom, "StampAnnot"@).len()
                && forall|i: int|
                0 <= i < v@.len() ==> (#[trigger] v@[i]).read_from(children_named(*dom, "StampAnnot"@)[i]),
        },
{
    let ghost f = |c: XmlElement| stamp_annot_outcome(c);
    let ghost cs = children_named(*dom, "StampAnnot"@);
    let pos = named_children(dom, "StampAnnot");
    let mut out: Vec<StampAnnot> = Vec::new();
    let mut k: usize = 0;
    assert(cs.take(0) =~= Seq::<XmlElement>::empty());
    while k < pos.len()
        invariant
            k <= pos@.len() == cs.len(),
            cs == children_named(*dom, "StampAnnot"@),
            f == (|c: XmlElement| stamp_annot_outcome(c)),
            forall|m: int|
                0 <= m < pos@.len() ==> (#[trigger] pos@[m]) < dom.children@.len()
                    && dom.children@[pos@[m] as int] == cs[m],
            all_ok(cs.take(k as int), f) == Ok::<(), DomFault>(()),
            out@.len() == k,
            forall|m: int| 0 <= m < k ==> (#[trigger] out@[m]).read_from(cs[m]),
        decreases pos@.len() - k,
    {
        assert(cs.take(k + 1).drop_last() =~= cs.take(k as int));
        match <StampAnnot as TryFromDom<&XmlElement>>::try_from_dom(&dom.children[pos[k]]) {
            Ok(v) => {
                out.push(v);
            },
            Err(e) => {
                proof {
                    assert(all_ok(cs.take(k + 1), f) == f(cs[k as int]));
                    lemma_all_ok_prefix(cs, f, k as int + 1);
                }
                return Err(e);
            },
        }
        k = k + 1;
    }
    assert(cs.take(k as int) =~= cs);
    Ok(out)
}

/// The `Signature` children, each read in turn.
fn read_signature_entries(dom: &XmlElement) -> (r: Result<Vec<Signature>, TryFromDomError>)
    ensures
        match all_ok(children_named(*dom, "Signature"@), |c: XmlElement| signature_entry_outcome(c)) {
            Err(f) => r matches Err(e) && e.fault() == f,
            Ok(_) => r matches Ok(v) && v@.len() == children_named(*dom, "Signature"@).len()
                && forall|i: int|
                0 <= i < v@.len() ==> (#[trigger] v@[i]).read_from(children_named(*dom, "Signature"@)[i]),
        },
{
    let ghost f = |c: XmlElement| signature_entry_outcome(c);
    let ghost cs = children_named(*dom, "Signature"@);
    let pos = named_children(dom, "Signature");
    let mut out: Vec<Signature> = Vec::new();
    let mut k: usize = 0;
    assert(cs.take(0) =~= Seq::<XmlElement>::empty());
    while k < pos.len()
        invariant
            k <= pos@.len() == cs.len(),
            cs == children_named(*dom, "Signature"@),
            f == (|c: XmlElement| signature_entry_outcome(c)),
            forall|m: int|
                0 <= m < pos@.len() ==> (#[trigger] pos@[m]) < dom.children@.len()
                    && dom.children@[pos@[m] as int] == cs[m],
            all_ok(cs.take(k as int), f) == Ok::<(), DomFault>(()),
            out@.len() == k,
            forall|m: int| 0 <= m < k ==> (#[trigger] out@[m]).read_from(cs[m]),
        decreases pos@.len() - k,
    {
        assert(cs.take(k + 1).drop_last() =~= cs.take(k as int));
        match <Signature as TryFromDom<&XmlElement>>::try_from_dom(&dom.children[pos[k]]) {
            Ok(v) => {
                out.push(v);
            },
            Err(e) => {
                proof {
                    assert(all_ok(cs.take(k + 1), f) == f(cs[k as int]));
                    lemma_all_ok_prefix(cs, f, k as int + 1);
                }
                return Err(e);
            },
        }
        k = k + 1;
    }
    assert(cs.take(k as int) =~= cs);
    Ok(out)
}

// ---------------------------------------------------------------------------
// Copies
// ---------------------------------------------------------------------------

fn copy_opt_str(o: &Option<String>) -> (r: Option<String>)
    ensures
        r == *o,
{
    match o {
        Some(v) => Some(v.clone()),
        None => None,
    }
}

fn copy_box(b: &StBox) -> (r: StBox)
    ensures
        r == *b,
{
    StBox { x: b.x.clone(), y: b.y.clone(), w: b.w.clone(), h: b.h.clone() }
}

impl StampAnnot {
    /// A copy of the stamp annotation.
    pub fn copy(&self) -> (r: Self)
        ensures
            r == *self,
    {
        let clip = match &self.clip {
            Some(c) => Some(copy_box(c)),
            None => None,
        };
        StampAnnot { id: self.id.clone(), page_ref: self.page_ref, boundary: copy_box(&self.boundary), clip }
    }
}

fn copy_stamps(v: &Vec<StampAnnot>) -> (r: Vec<StampAnnot>)
    ensures
        r@ == v@,
{
    let mut out: Vec<StampAnnot> = Vec::new();
    let mut i: usize = 0;
    while i < v.len()
        invariant
            i <= v@.len(),
            out@ == v@.take(i as int),
        decreases v@.len() - i,
    {
        out.push(v[i].copy());
        i = i + 1;
        assert(out@ =~= v@.take(i as int));
    }
    assert(v@.take(i as int) =~= v@);
    out
}

fn copy_references(v: &Vec<Reference>) -> (r: Vec<Reference>)
    ensures
        r@ == v@,
{
    let mut out: Vec<Reference> = Vec::new();
    let mut i: usize = 0;
    while i < v.len()
        invariant
            i <= v@.len(),
            out@ == v@.take(i as int),
        decreases v@.len() - i,
    {
        out.push(Reference { file_ref: v[i].file_ref.clone(), check_value: v[i].check_value.clone() });
        i = i + 1;
        assert(out@ =~= v@.take(i as int));
    }
    assert(v@.take(i as int) =~= v@);
    out
}

/// Two signature files that hold the same values, lists taken by their
/// items.
pub open spec fn same_signature_file(a: SignatureXmlFile, b: SignatureXmlFile) -> bool {
    &&& a.signed_value == b.signed_value
    &&& a.signed_info.provider == b.signed_info.provider
    &&& a.signed_info.signature_method == b.signed_info.signature_method
    &&& a.signed_info.signature_date_time == b.signed_info.signature_date_time
    &&& a.signed_info.references.check_method == b.signed_info.references.check_method
    &&& a.signed_info.references.references@ == b.signed_info.references.references@
    &&& match (a.signed_info.stamp_annot, b.signed_info.stamp_annot) {
        (None, None) => true,
        (Some(x), Some(y)) => x@ == y@,
        _ => false,
    }
    &&& a.signed_info.seal == b.signed_info.seal
}

impl SignatureXmlFile {
    /// A copy of the signature file.
    pub fn copy(&self) -> (r: Self)
        ensures
            same_signature_file(*self, r),
            forall|e: XmlElement| self.read_from(e) ==> r.read_from(e),
    {
        let si = &self.signed_info;
        let provider = Provider {
            provider_name: si.provider.provider_name.clone(),
            version: copy_opt_str(&si.provider.version),
            company: copy_opt_str(&si.provider.company),
        };
        let references = References {
            check_method: copy_opt_str(&si.references.check_method),
            references: copy_references(&si.references.references),
        };
        let stamp_annot = match &si.stamp_annot {
            Some(v) => Some(copy_stamps(v)),
            None => None,
        };
        let seal = match &si.seal {
            Some(s) => Some(Seal { base_loc: s.base_loc.clone() }),
            None => None,
        };
        let r = SignatureXmlFile {
            signed_info: SignedInfo {
                provider,
                signature_method: copy_opt_str(&si.signature_method),
                signature_date_time: copy_opt_str(&si.signature_date_time),
                references,
                stamp_annot,
                seal,
            },
            signed_value: self.signed_value.clone(),
        };
        r
    }
}

} // verus!
