//! An OFD package: a zip archive whose items are XML files that refer to one
//! another by relative locations. Finding the documents, pages, templates and
//! resources of the package.
use crate::document::{document_outcome, named_texts, opt_views, DocumentXmlFile};
use crate::dom::{outcome, uint_of, DomFault, TryFromDom, TryFromDomError};
use crate::ofd_file::{ofd_body_outcome, OfdXmlFile};
use crate::page::{page_file_from, page_file_outcome, PageXmlFile};
use crate::res::{
    resource_file_from, resource_file_outcome, ColorSpace, DrawParam, Font, MultiMedia,
    MultiMediaType, Resource, ResourceXmlFile,
};
use crate::xml::{attr_of, child_of, child_text, children_named, parse_xml, xml_document, XmlElement};
use std::io::Read;
use vstd::prelude::*;

verus! {

/// Errors of reading a package.
#[derive(Debug)]
pub enum Error {
    /// No item of the archive has the location; the location.
    OpenZipError(String),
    /// The archive has no `OFD.xml`.
    OfdEntryNotFound,
    NoSuchDocument,
    NoSuchTemplate,
    /// An item is not a well-formed XML document.
    MiniDomError,
    /// The elements of an item do not make the expected structure.
    Dom(TryFromDomError),
    /// The data is not a zip archive that can be read.
    ZipError,
    /// The bytes of the item at the location cannot be read from the archive.
    ReadError(String),
}

/// What an `Error` says, over the characters of its location.
pub enum OfdFault {
    OpenZip(Seq<char>),
    Read(Seq<char>),
    EntryNotFound,
    NoSuchDocument,
    NoSuchTemplate,
    MiniDom,
    Dom(DomFault),
    Zip,
}

impl Error {
    pub open spec fn fault(self) -> OfdFault {
        match self {
            Error::OpenZipError(p) => OfdFault::OpenZip(p@),
            Error::OfdEntryNotFound => OfdFault::EntryNotFound,
            Error::NoSuchDocument => OfdFault::NoSuchDocument,
            Error::NoSuchTemplate => OfdFault::NoSuchTemplate,
            Error::MiniDomError => OfdFault::MiniDom,
            Error::Dom(e) => OfdFault::Dom(e.fault()),
            Error::ZipError => OfdFault::Zip,
            Error::ReadError(p) => OfdFault::Read(p@),
        }
    }
}

// ---------------------------------------------------------------------------
// Locations
// ---------------------------------------------------------------------------

/// The parent that `RelativePath::parent` gives.
pub uninterp spec fn relative_parent(p: Seq<char>) -> Option<Seq<char>>;

/// The path that `RelativePath::join` makes of two.
pub uninterp spec fn relative_join(a: Seq<char>, b: Seq<char>) -> Seq<char>;

/// The path that `RelativePath::normalize` makes.
pub uninterp spec fn relative_normalize(p: Seq<char>) -> Seq<char>;

/// `RelativePath::parent` of relative-path: by its source, no parent for the
/// empty path and one for any other. Of the parent itself the contract claims
/// only that it is a function of the path, named `relative_parent`.
#[verifier::external_body]
fn path_parent(p: &str) -> (r: Option<String>)
    ensures
        match r {
            Some(s) => relative_parent(p@) == Some(s@),
            None => relative_parent(p@) is None,
        },
        r is None <==> p@.len() == 0,
{
    relative_path::RelativePath::new(p).parent().map(|x| x.as_str().to_string())
}

/// `RelativePath::join` of relative-path. The contract claims only that the
/// result is a function of the two paths, named `relative_join`.
#[verifier::external_body]
fn path_join(a: &str, b: &str) -> (r: String)
    ensures
        r@ == relative_join(a@, b@),
{
    relative_path::RelativePath::new(a).join(b).into_string()
}

/// `RelativePath::normalize` of relative-path. The contract claims only that
/// the result is a function of the path, named `relative_normalize`.
#[verifier::external_body]
fn path_normalize(p: &str) -> (r: String)
    ensures
        r@ == relative_normalize(p@),
{
    relative_path::RelativePath::new(p).normalize().into_string()
}

pub open spec fn rooted(p: Seq<char>) -> bool {
    p.len() > 0 && p[0] == '/'
}

/// The location of `other`, written in the item at `this`: a rooted location
/// is taken from the root of the package, its parts kept as they are; any
/// other is taken from the folder of `this` and normalized. Only `/`
/// separates the parts of a location.
pub open spec fn spec_resolve(this: Seq<char>, other: Seq<char>) -> Seq<char> {
    if rooted(other) {
        root_relative(other)
    } else {
        let base = match relative_parent(this) {
            Some(p) => p,
            None => Seq::empty(),
        };
        relative_normalize(relative_join(base, other))
    }
}

/// The parts of `p` between its `/`, in order (an empty part where two
/// separators meet or at either end).
pub open spec fn slash_parts(p: Seq<char>) -> Seq<Seq<char>>
    decreases p.len(),
{
    if p.len() == 0 {
        seq![Seq::empty()]
    } else {
        let s = slash_parts(p.drop_last());
        if p.last() == '/' {
            s.push(Seq::empty())
        } else {
            s.update(s.len() - 1, s.last().push(p.last()))
        }
    }
}

/// A part that names something: neither empty nor `.`.
pub open spec fn named_part(w: Seq<char>) -> bool {
    w.len() > 0 && w != seq!['.']
}

/// The parts of `ws` that name something, in order.
pub open spec fn named_parts(ws: Seq<Seq<char>>) -> Seq<Seq<char>>
    decreases ws.len(),
{
    if ws.len() == 0 {
        Seq::empty()
    } else if named_part(ws.last()) {
        named_parts(ws.drop_last()).push(ws.last())
    } else {
        named_parts(ws.drop_last())
    }
}

/// The parts `ws` joined by `/`.
pub open spec fn slash_join(ws: Seq<Seq<char>>) -> Seq<char>
    decreases ws.len(),
{
    if ws.len() == 0 {
        Seq::empty()
    } else if ws.len() == 1 {
        ws[0]
    } else {
        slash_join(ws.drop_last()) + seq!['/'] + ws.last()
    }
}

/// The location of a rooted path from the root, as `Path::relative_to("/")`
/// gives it where `/` is the only separator: its parts, without the empty
/// ones and `.`, joined by `/`; `..` is kept.
pub open spec fn root_relative(p: Seq<char>) -> Seq<char> {
    slash_join(named_parts(slash_parts(p)))
}

proof fn lemma_slash_parts_len(p: Seq<char>)
    ensures
        slash_parts(p).len() >= 1,
    decreases p.len(),
{
    if p.len() > 0 {
        lemma_slash_parts_len(p.drop_last());
    }
}

/// `out`, joined from the kept parts `k`, with `cur` added if it names
/// something.
fn flush_part(out: &mut Vec<char>, cur: &Vec<char>, Ghost(k): Ghost<Seq<Seq<char>>>)
    requires
        old(out)@ == slash_join(k),
        forall|i: int| 0 <= i < k.len() ==> named_part(#[trigger] k[i]),
    ensures
        final(out)@ == slash_join(if named_part(cur@) { k.push(cur@) } else { k }),
{
    let named = cur.len() > 0 && !(cur.len() == 1 && cur[0] == '.');
    assert(named == named_part(cur@)) by {
        if cur@.len() == 1 && cur@[0] == '.' {
            assert(cur@ =~= seq!['.']);
        }
        if cur@ == seq!['.'] {
            assert(cur@.len() == 1);
        }
    }
    if named {
        let ghost kk = k.push(cur@);
        assert(kk.drop_last() =~= k);
        if out.len() > 0 {
            out.push('/');
        }
        let mut j: usize = 0;
        let ghost start = out@;
        while j < cur.len()
            invariant
                j <= cur@.len(),
                out@ == start + cur@.take(j as int),
            decreases cur@.len() - j,
        {
            out.push(cur[j]);
            j = j + 1;
            assert(out@ =~= start + cur@.take(j as int));
        }
        assert(cur@.take(j as int) =~= cur@);
        proof {
            lemma_join_nonempty(k);
            if k.len() == 0 {
                assert(out@ =~= slash_join(kk));
            } else {
                assert(out@ =~= slash_join(kk));
            }
        }
    }
}

proof fn lemma_join_nonempty(k: Seq<Seq<char>>)
    requires
        forall|i: int| 0 <= i < k.len() ==> named_part(#[trigger] k[i]),
    ensures
        (slash_join(k).len() > 0) == (k.len() > 0),
    decreases k.len(),
{
    if k.len() > 1 {
        lemma_join_nonempty(k.drop_last());
    }
}

proof fn lemma_named_parts_named(ws: Seq<Seq<char>>)
    ensures
        forall|i: int| 0 <= i < named_parts(ws).len() ==> named_part(#[trigger] named_parts(ws)[i]),
    decreases ws.len(),
{
    if ws.len() > 0 {
        let p = ws.drop_last();
        lemma_named_parts_named(p);
        if named_part(ws.last()) {
            assert forall|i: int| 0 <= i < named_parts(ws).len() implies named_part(
                #[trigger] named_parts(ws)[i],
            ) by {
                if i < named_parts(p).len() {
                    assert(named_parts(ws)[i] == named_parts(p)[i]);
                }
            }
        }
    }
}

/// The location of a rooted path from the root.
fn path_relative_to_root(p: &str) -> (r: String)
    ensures
        r@ == root_relative(p@),
{
    let v = crate::value::chars_of(p);
    let mut out: Vec<char> = Vec::new();
    let mut cur: Vec<char> = Vec::new();
    let ghost mut k: Seq<Seq<char>> = Seq::empty();
    let mut i: usize = 0;
    proof {
        assert(v@.take(0) =~= Seq::<char>::empty());
        assert(slash_parts(Seq::<char>::empty()).drop_last() =~= Seq::<Seq<char>>::empty());
    }
    while i < v.len()
        invariant
            i <= v@.len(),
            slash_parts(v@.take(i as int)).len() >= 1,
            slash_parts(v@.take(i as int)).last() == cur@,
            named_parts(slash_parts(v@.take(i as int)).drop_last()) == k,
            out@ == slash_join(k),
        decreases v@.len() - i,
    {
        let ghost s = slash_parts(v@.take(i as int));
        assert(v@.take(i + 1).drop_last() =~= v@.take(i as int));
        assert(v@.take(i + 1).last() == v@[i as int]);
        if v[i] == '/' {
            proof {
                lemma_named_parts_named(s.drop_last());
                assert(s.push(Seq::<char>::empty()).drop_last() =~= s);
                assert(s.drop_last().push(s.last()) =~= s);
            }
            flush_part(&mut out, &cur, Ghost(k));
            proof {
                k = if named_part(cur@) { k.push(cur@) } else { k };
            }
            cur = Vec::new();
        } else {
            cur.push(v[i]);
            proof {
                let s2 = s.update(s.len() - 1, s.last().push(v@[i as int]));
                assert(s2.drop_last() =~= s.drop_last());
            }
        }
        i = i + 1;
    }
    let ghost s = slash_parts(v@.take(i as int));
    proof {
        assert(v@.take(i as int) =~= p@);
        lemma_named_parts_named(s.drop_last());
        assert(s.drop_last().push(s.last()) =~= s);
    }
    flush_part(&mut out, &cur, Ghost(k));
    crate::value::string_from_chars(out.as_slice())
}

fn starts_at_root(p: &str) -> (b: bool)
    ensures
        b == rooted(p@),
{
    if p.unicode_len() == 0 {
        false
    } else {
        p.get_char(0) == '/'
    }
}

/// The location of `other`, written in the item at `this`.
pub fn inner_resolve(this: &str, other: &str) -> (r: String)
    ensures
        r@ == spec_resolve(this@, other@),
{
    if starts_at_root(other) {
        return path_relative_to_root(other);
    }
    let base = match path_parent(this) {
        Some(p) => p,
        None => String::new(),
    };
    let joined = path_join(base.as_str(), other);
    path_normalize(joined.as_str())
}

/// An item of the package: its location and what it holds.
pub struct OfdItem<T> {
    pub path: String,
    pub content: T,
}

impl<T> OfdItem<T> {
    /// The location of `other`, written in this item.
    pub fn resolve(&self, other: &str) -> (r: String)
        ensures
            r@ == spec_resolve(self.path@, other@),
    {
        inner_resolve(self.path.as_str(), other)
    }
}

// ---------------------------------------------------------------------------
// The archive
// ---------------------------------------------------------------------------

/// Whether the zip crate opens the archive (`ZipArchive::new`), and then
/// whether it has an item named `name` (`index_for_name`).
pub uninterp spec fn zip_lookup(data: Seq<u8>, name: Seq<char>) -> Option<bool>;

/// The names of the items of the archive, in order, as `file_names` of the
/// zip crate gives them; `None` where the archive or a name cannot be read.
pub uninterp spec fn zip_names(data: Seq<u8>) -> Option<Seq<Seq<char>>>;

/// The bytes of the item named `name`, as the zip crate reads them
/// (`by_name`, then `read_to_end`): `None` where it finds no such item or
/// cannot open it, `Some(None)` where reading its bytes fails.
pub uninterp spec fn zip_item(data: Seq<u8>, name: Seq<char>) -> Option<Option<Seq<u8>>>;

/// `ZipArchive::new`, then `index_for_name`, of the zip crate: named.
#[verifier::external_body]
fn archive_lookup(data: &[u8], name: &str) -> (r: Option<bool>)
    ensures
        r == zip_lookup(data@, name@),
{
    let zip = zip::ZipArchive::new(std::io::Cursor::new(data)).ok()?;
    Some(zip.index_for_name(name).is_some())
}

/// `ZipArchive::new`, then `file_names`, of the zip crate: named.
#[verifier::external_body]
fn archive_names(data: &[u8]) -> (r: Option<Vec<String>>)
    ensures
        match r {
            Some(v) => zip_names(data@) == Some(v@.map_values(|s: String| s@)),
            None => zip_names(data@) is None,
        },
{
    let zip = zip::ZipArchive::new(std::io::Cursor::new(data)).ok()?;
    zip.file_names().map(|n| n.ok().map(|n| n.to_string())).collect()
}

/// `ZipArchive::new`, `by_name` and `read_to_end` of the zip crate: named.
#[verifier::external_body]
fn archive_item(data: &[u8], name: &str) -> (r: Option<Option<Vec<u8>>>)
    ensures
        match r {
            Some(Some(v)) => zip_item(data@, name@) == Some(Some(v@)),
            Some(None) => zip_item(data@, name@) == Some(None::<Seq<u8>>),
            None => zip_item(data@, name@) is None,
        },
{
    let mut zip = zip::ZipArchive::new(std::io::Cursor::new(data)).ok()?;
    let mut f = zip.by_name(name).ok()?;
    let mut buf = Vec::new();
    Some(f.read_to_end(&mut buf).ok().map(|_| buf))
}

/// An OFD package: the bytes of its archive, whose items are read when they
/// are asked for.
pub struct Ofd {
    pub data: Vec<u8>,
}

impl Ofd {
    pub open spec fn archive(self) -> Seq<u8> {
        self.data@
    }
}

/// The name of the entry of a package.
pub open spec fn entry_name() -> Seq<char> {
    "OFD.xml"@
}

/// The bytes of an XML item without the byte order mark of UTF-8.
pub open spec fn strip_bom(b: Seq<u8>) -> Seq<u8> {
    if b.len() >= 3 && b[0] == 0xef && b[1] == 0xbb && b[2] == 0xbf {
        b.skip(3)
    } else {
        b
    }
}

/// The element tree of the item at `path`.
pub open spec fn item_xml(archive: Seq<u8>, path: Seq<char>) -> Result<
    XmlElement,
    OfdFault,
> {
    match zip_item(archive, path) {
        None => Err(OfdFault::OpenZip(path)),
        Some(None) => Err(OfdFault::Read(path)),
        Some(Some(b)) => match xml_document(strip_bom(b)) {
            None => Err(OfdFault::MiniDom),
            Some(e) => Ok(e),
        },
    }
}

/// Opens a package from the bytes of its archive: one that the zip crate
/// opens and that has an entry `OFD.xml`.
pub fn from_bytes(bytes: &[u8]) -> (r: Result<Ofd, Error>)
    ensures
        match zip_lookup(bytes@, entry_name()) {
            None => r matches Err(e) && e.fault() == OfdFault::Zip,
            Some(false) => r matches Err(e) && e.fault() == OfdFault::EntryNotFound,
            Some(true) => r matches Ok(o) && o.archive() == bytes@,
        },
{
    match archive_lookup(bytes, "OFD.xml") {
        None => Err(Error::ZipError),
        Some(false) => Err(Error::OfdEntryNotFound),
        Some(true) => Ok(Ofd { data: vstd::slice::slice_to_vec(bytes) }),
    }
}

impl Ofd {
    /// The names of the items of the archive, in order; none where they
    /// cannot be read.
    pub fn item_names(&self) -> (r: Vec<String>)
        ensures
            match zip_names(self.archive()) {
                Some(ns) => r@.map_values(|s: String| s@) == ns,
                None => r@.len() == 0,
            },
    {
        match archive_names(self.data.as_slice()) {
            Some(v) => v,
            None => Vec::new(),
        }
    }

    /// The bytes of the item at `path`.
    pub fn bytes(&self, path: &str) -> (r: Result<Vec<u8>, Error>)
        ensures
            match zip_item(self.archive(), path@) {
                Some(Some(b)) => r matches Ok(v) && v@ == b,
                Some(None) => r matches Err(e) && e.fault() == OfdFault::Read(path@),
                None => r matches Err(e) && e.fault() == OfdFault::OpenZip(path@),
            },
    {
        match archive_item(self.data.as_slice(), path) {
            Some(Some(v)) => Ok(v),
            Some(None) => Err(Error::ReadError(path.to_owned())),
            None => Err(Error::OpenZipError(path.to_owned())),
        }
    }

    /// The element tree of the XML item at `path`.
    pub fn load_xml(&self, path: &str) -> (r: Result<XmlElement, Error>)
        ensures
            match item_xml(self.archive(), path@) {
                Ok(x) => r matches Ok(e) && e == x,
                Err(f) => r matches Err(e) && e.fault() == f,
            },
    {
        let b = self.bytes(path)?;
        read_item(b.as_slice())
    }
}

/// The element tree of the bytes of an XML item, a byte order mark of UTF-8
/// at its start skipped.
pub fn read_item(b: &[u8]) -> (r: Result<XmlElement, Error>)
    ensures
        match xml_document(strip_bom(b@)) {
            Some(e) => r == Ok::<XmlElement, Error>(e),
            None => r matches Err(e) && e.fault() == OfdFault::MiniDom,
        },
{
    let data = if b.len() >= 3 && b[0] == 0xef && b[1] == 0xbb && b[2] == 0xbf {
        vstd::slice::slice_subrange(b, 3, b.len())
    } else {
        b
    };
    assert(data@ == strip_bom(b@));
    match parse_xml(data) {
        Some(e) => Ok(e),
        None => Err(Error::MiniDomError),
    }
}

// ---------------------------------------------------------------------------
// Finding the parts of a package
// ---------------------------------------------------------------------------

/// The element tree of the item at `path`, if `check` accepts it.
#[verifier::opaque]
pub open spec fn load_as(
    archive: Seq<u8>,
    path: Seq<char>,
    check: spec_fn(XmlElement) -> Result<(), DomFault>,
) -> Result<(Seq<char>, XmlElement), OfdFault> {
    match item_xml(archive, path) {
        Err(f) => Err(f),
        Ok(x) => match check(x) {
            Err(f) => Err(OfdFault::Dom(f)),
            Ok(_) => Ok((path, x)),
        },
    }
}

/// The entry `OFD.xml`, read as the structure of the entry.
pub open spec fn entry_outcome(archive: Seq<u8>) -> Result<(Seq<char>, XmlElement), OfdFault> {
    load_as(archive, entry_name(), |x: XmlElement| ofd_body_outcome(x))
}

/// The location of the document `d`, as its body in the entry gives it.
pub open spec fn doc_location(archive: Seq<u8>, d: int) -> Result<Seq<char>, OfdFault> {
    match entry_outcome(archive) {
        Err(f) => Err(f),
        Ok((ep, x)) => if d < 0 || d >= x.children@.len() {
            Err(OfdFault::NoSuchDocument)
        } else {
            match child_text(x.children@[d], "DocRoot"@) {
                None => Err(OfdFault::NoSuchDocument),
                Some(loc) => Ok(spec_resolve(ep, loc)),
            }
        },
    }
}

/// The document `d`: its location and its element tree.
pub open spec fn doc_outcome(archive: Seq<u8>, d: int) -> Result<(Seq<char>, XmlElement), OfdFault> {
    match doc_location(archive, d) {
        Err(f) => Err(f),
        Ok(p) => load_as(archive, p, |x: XmlElement| document_outcome(x)),
    }
}

pub open spec fn ok_pair(r: Result<(Seq<char>, XmlElement), OfdFault>) -> (Seq<char>, XmlElement) {
    match r {
        Ok(v) => v,
        Err(_) => arbitrary(),
    }
}

pub open spec fn ok_tree(r: Result<(Seq<char>, XmlElement), OfdFault>) -> XmlElement {
    ok_pair(r).1
}

/// The pages of a document element.
pub open spec fn doc_pages(x: XmlElement) -> Seq<XmlElement> {
    child_of(x, "Pages"@).unwrap().children@
}

/// The template pages of a document element.
pub open spec fn doc_templates(x: XmlElement) -> Seq<XmlElement> {
    children_named(child_of(x, "CommonData"@).unwrap(), "TemplatePage"@)
}

/// The page `p` of the document `d`.
pub open spec fn page_at(archive: Seq<u8>, d: int, p: int) -> Result<(Seq<char>, XmlElement), OfdFault> {
    match doc_outcome(archive, d) {
        Err(f) => Err(f),
        Ok((dp, x)) => if p < 0 || p >= doc_pages(x).len() {
            Err(OfdFault::NoSuchTemplate)
        } else {
            let loc = attr_of(doc_pages(x)[p], "BaseLoc"@).unwrap();
            load_as(archive, spec_resolve(dp, loc), |y: XmlElement| page_file_outcome(y))
        },
    }
}

/// The position of the first template page with the identifier `id`.
pub open spec fn template_index(cs: Seq<XmlElement>, id: nat) -> Option<int>
    decreases cs.len(),
{
    if cs.len() == 0 {
        None
    } else if uint_of(attr_of(cs[0], "ID"@), u64::MAX as int) == Ok::<Option<nat>, DomFault>(Some(id)) {
        Some(0)
    } else {
        match template_index(cs.skip(1), id) {
            Some(k) => Some(k + 1),
            None => None,
        }
    }
}

/// The template with the identifier `id` of the document `d`.
pub open spec fn template_by_id_at(archive: Seq<u8>, d: int, id: nat) -> Result<(Seq<char>, XmlElement), OfdFault> {
    match doc_outcome(archive, d) {
        Err(f) => Err(f),
        Ok((dp, x)) => match template_index(doc_templates(x), id) {
            None => Err(OfdFault::NoSuchTemplate),
            Some(k) => {
                let loc = attr_of(doc_templates(x)[k], "BaseLoc"@).unwrap();
                load_as(archive, spec_resolve(dp, loc), |y: XmlElement| page_file_outcome(y))
            },
        },
    }
}

/// The identifier that a template of a page refers to.
pub open spec fn template_ref(t: XmlElement) -> nat {
    match uint_of(attr_of(t, "TemplateID"@), u64::MAX as int) {
        Ok(Some(v)) => v,
        _ => 0,
    }
}

/// The templates that the templates `ts` of a page of the document `d`
/// refer to, in order; the first fault where one is missing.
pub open spec fn templates_run(archive: Seq<u8>, d: int, ts: Seq<XmlElement>) -> Result<Seq<(Seq<char>, XmlElement)>, OfdFault>
    decreases ts.len(),
{
    if ts.len() == 0 {
        Ok(Seq::empty())
    } else {
        match templates_run(archive, d, ts.drop_last()) {
            Err(f) => Err(f),
            Ok(v) => match template_by_id_at(archive, d, template_ref(ts.last())) {
                Err(f) => Err(f),
                Ok(t) => Ok(v.push(t)),
            },
        }
    }
}

/// The templates of the page `p` of the document `d`.
pub open spec fn templates_for_page_at(archive: Seq<u8>, d: int, p: int) -> Result<Seq<(Seq<char>, XmlElement)>, OfdFault> {
    match page_at(archive, d, p) {
        Err(f) => Err(f),
        Ok((_, y)) => templates_run(archive, d, children_named(y, "Template"@)),
    }
}

/// The resource files at the locations `locs`, written in the item at `base`.
pub open spec fn res_run(archive: Seq<u8>, base: Seq<char>, locs: Seq<Seq<char>>) -> Result<Seq<(Seq<char>, XmlElement)>, OfdFault>
    decreases locs.len(),
{
    if locs.len() == 0 {
        Ok(Seq::empty())
    } else {
        match res_run(archive, base, locs.drop_last()) {
            Err(f) => Err(f),
            Ok(v) => match load_as(archive, spec_resolve(base, locs.last()), |y: XmlElement| resource_file_outcome(y)) {
                Err(f) => Err(f),
                Ok(t) => Ok(v.push(t)),
            },
        }
    }
}

pub open spec fn opt_res_run(archive: Seq<u8>, base: Seq<char>, locs: Option<Seq<Seq<char>>>) -> Result<Option<Seq<(Seq<char>, XmlElement)>>, OfdFault> {
    match locs {
        None => Ok(None),
        Some(l) => match res_run(archive, base, l) {
            Err(f) => Err(f),
            Ok(v) => Ok(Some(v)),
        },
    }
}

/// Each item of `v` is at the location of `w` and read from its tree.
pub open spec fn items_read<T>(v: Seq<OfdItem<T>>, w: Seq<(Seq<char>, XmlElement)>, read: spec_fn(T, XmlElement) -> bool) -> bool {
    &&& v.len() == w.len()
    &&& forall|i: int| 0 <= i < v.len() ==> (#[trigger] v[i]).path@ == w[i].0 && read(v[i].content, w[i].1)
}

pub open spec fn resources_at(archive: Seq<u8>, d: int, p: int) -> Result<
    (
        Option<Seq<(Seq<char>, XmlElement)>>,
        Option<Seq<(Seq<char>, XmlElement)>>,
        Option<Seq<(Seq<char>, XmlElement)>>,
    ),
    OfdFault,
> {
    match doc_outcome(archive, d) {
        Err(f) => Err(f),
        Ok((dp, x)) => {
            let cd = child_of(x, "CommonData"@).unwrap();
            match opt_res_run(archive, dp, named_texts(cd, "PublicRes"@)) {
                Err(f) => Err(f),
                Ok(pubs) => match opt_res_run(archive, dp, named_texts(cd, "DocumentRes"@)) {
                    Err(f) => Err(f),
                    Ok(docs) => match page_at(archive, d, p) {
                        Err(f) => Err(f),
                        Ok((pp, y)) => match opt_res_run(archive, pp, named_texts(y, "PageRes"@)) {
                            Err(f) => Err(f),
                            Ok(pages) => Ok((pubs, docs, pages)),
                        },
                    },
                },
            }
        },
    }
}

pub open spec fn page_read(v: PageXmlFile, x: XmlElement) -> bool {
    v.read_from(x)
}

pub open spec fn res_read(v: ResourceXmlFile, x: XmlElement) -> bool {
    v.read_from(x)
}

/// Each resource file of `v` is at the location of `w` and read from its tree.
pub open spec fn res_items_read(v: Seq<OfdItem<ResourceXmlFile>>, w: Seq<(Seq<char>, XmlElement)>) -> bool {
    &&& v.len() == w.len()
    &&& forall|i: int| 0 <= i < v.len() ==> (#[trigger] v[i]).path@ == w[i].0 && v[i].content.read_from(w[i].1)
}

pub open spec fn opt_items_read(
    v: Option<Vec<OfdItem<ResourceXmlFile>>>,
    w: Option<Seq<(Seq<char>, XmlElement)>>,
) -> bool {
    match (v, w) {
        (None, None) => true,
        (Some(a), Some(b)) => res_items_read(a@, b),
        _ => false,
    }
}

/// The resources that a page can use: those of the package, of its document
/// and of its own.
pub struct Resources {
    pub default_cs: Option<u64>,
    pub public_resource: Option<Vec<OfdItem<ResourceXmlFile>>>,
    pub document_resource: Option<Vec<OfdItem<ResourceXmlFile>>>,
    pub page_resource: Option<Vec<OfdItem<ResourceXmlFile>>>,
}

proof fn lemma_template_index(cs: Seq<XmlElement>, id: nat, k: int)
    requires
        0 <= k <= cs.len(),
        forall|j: int|
            0 <= j < k ==> uint_of(attr_of(#[trigger] cs[j], "ID"@), u64::MAX as int) != Ok::<
                Option<nat>,
                DomFault,
            >(Some(id)),
    ensures
        k < cs.len() && uint_of(attr_of(cs[k], "ID"@), u64::MAX as int) == Ok::<Option<nat>, DomFault>(
            Some(id),
        ) ==> template_index(cs, id) == Some(k),
        k == cs.len() ==> template_index(cs, id) is None,
    decreases k,
{
    if k > 0 {
        let t = cs.skip(1);
        assert forall|j: int|
            0 <= j < k - 1 implies uint_of(attr_of(#[trigger] t[j], "ID"@), u64::MAX as int) != Ok::<
            Option<nat>,
            DomFault,
        >(Some(id)) by {
            assert(t[j] == cs[j + 1]);
        }
        lemma_template_index(t, id, k - 1);
        if k < cs.len() {
            assert(t[k - 1] == cs[k]);
        }
    }
}

impl Ofd {
    /// The entry `OFD.xml` of the package.
    pub fn entry(&self) -> (r: Result<OfdItem<OfdXmlFile>, Error>)
        ensures
            match entry_outcome(self.archive()) {
                Err(f) => r matches Err(e) && e.fault() == f,
                Ok((p, x)) => r matches Ok(it) && it.path@ == p && it.content.read_from(x),
            },
    {
        reveal(load_as);
        let x = self.load_xml("OFD.xml")?;
        let ghost gx = x;
        match OfdXmlFile::try_from_dom(x) {
            Ok(c) => Ok(OfdItem { path: "OFD.xml".to_owned(), content: c }),
            Err(e) => Err(Error::Dom(e)),
        }
    }

    /// The document `doc_index` of the package.
    pub fn document_by_index(&self, doc_index: usize) -> (r: Result<OfdItem<DocumentXmlFile>, Error>)
        ensures
            match doc_outcome(self.archive(), doc_index as int) {
                Err(f) => r matches Err(e) && e.fault() == f,
                Ok((p, x)) => r matches Ok(it) && it.path@ == p && it.content.read_from(x),
            },
    {
        reveal(load_as);
        let entry = self.entry()?;
        if doc_index >= entry.content.doc_body.len() {
            return Err(Error::NoSuchDocument);
        }
        let body = &entry.content.doc_body[doc_index];
        let loc = match &body.doc_root {
            None => {
                return Err(Error::NoSuchDocument);
            },
            Some(l) => l,
        };
        let path = entry.resolve(loc.as_str());
        let x = self.load_xml(path.as_str())?;
        match DocumentXmlFile::try_from_dom(&x) {
            Ok(c) => Ok(OfdItem { path, content: c }),
            Err(e) => Err(Error::Dom(e)),
        }
    }

    /// The page `page_index` of the document `doc_index`.
    pub fn page_by_index(&self, doc_index: usize, page_index: usize) -> (r: Result<
        OfdItem<PageXmlFile>,
        Error,
    >)
        ensures
            match page_at(self.archive(), doc_index as int, page_index as int) {
                Err(f) => r matches Err(e) && e.fault() == f,
                Ok((p, x)) => r matches Ok(it) && it.path@ == p && it.content.read_from(x),
            },
    {
        reveal(load_as);
        let doc = self.document_by_index(doc_index)?;
        let pages = &doc.content.pages.page;
        if page_index >= pages.len() {
            return Err(Error::NoSuchTemplate);
        }
        let path = doc.resolve(pages[page_index].base_loc.as_str());
        let x = self.load_xml(path.as_str())?;
        match page_file_from(&x) {
            Ok(c) => Ok(OfdItem { path, content: c }),
            Err(e) => Err(Error::Dom(e)),
        }
    }

    /// The template with the identifier `template_id` of the document
    /// `doc_index`.
    pub fn template_by_id(&self, doc_index: usize, template_id: u64) -> (r: Result<
        OfdItem<PageXmlFile>,
        Error,
    >)
        ensures
            match template_by_id_at(self.archive(), doc_index as int, template_id as nat) {
                Err(f) => r matches Err(e) && e.fault() == f,
                Ok((p, x)) => r matches Ok(it) && it.path@ == p && it.content.read_from(x),
            },
    {
        reveal(load_as);
        let doc = self.document_by_index(doc_index)?;
        let ghost dx = ok_tree(doc_outcome(self.archive(), doc_index as int));
        let ghost cs = doc_templates(dx);
        let refs = match &doc.content.common_data.template_page {
            None => {
                proof {
                    lemma_template_index(cs, template_id as nat, 0);
                }
                return Err(Error::NoSuchTemplate);
            },
            Some(v) => v,
        };
        let mut k: usize = 0;
        while k < refs.len() && refs[k].id != template_id
            invariant
                k <= refs@.len() == cs.len(),
                forall|j: int|
                    0 <= j < refs@.len() ==> (#[trigger] refs@[j]).read_from(cs[j]),
                forall|j: int|
                    0 <= j < k ==> uint_of(attr_of(#[trigger] cs[j], "ID"@), u64::MAX as int)
                        != Ok::<Option<nat>, DomFault>(Some(template_id as nat)),
            decreases refs@.len() - k,
        {
            assert(refs@[k as int].read_from(cs[k as int]));
            k = k + 1;
        }
        proof {
            lemma_template_index(cs, template_id as nat, k as int);
        }
        if k == refs.len() {
            return Err(Error::NoSuchTemplate);
        }
        assert(refs@[k as int].read_from(cs[k as int]));
        let path = doc.resolve(refs[k].base_loc.as_str());
        let x = self.load_xml(path.as_str())?;
        match page_file_from(&x) {
            Ok(c) => Ok(OfdItem { path, content: c }),
            Err(e) => Err(Error::Dom(e)),
        }
    }

    /// The templates that the page `page_index` of the document `doc_index`
    /// refers to, in order.
    pub fn templates_for_page(&self, doc_index: usize, page_index: usize) -> (r: Result<
        Vec<OfdItem<PageXmlFile>>,
        Error,
    >)
        ensures
            match templates_for_page_at(self.archive(), doc_index as int, page_index as int) {
                Err(f) => r matches Err(e) && e.fault() == f,
                Ok(w) => r matches Ok(v) && items_read(
                    v@,
                    w,
                    |c: PageXmlFile, x: XmlElement| page_read(c, x),
                ),
            },
    {
        let page = self.page_by_index(doc_index, page_index)?;
        let ghost y = ok_tree(page_at(self.archive(), doc_index as int, page_index as int));
        let ghost ts = children_named(y, "Template"@);
        let ghost rd = |c: PageXmlFile, x: XmlElement| page_read(c, x);
        let tpls = match &page.content.template {
            None => {
                return Ok(Vec::new());
            },
            Some(t) => t,
        };
        let mut res: Vec<OfdItem<PageXmlFile>> = Vec::new();
        let ghost mut w: Seq<(Seq<char>, XmlElement)> = Seq::empty();
        let mut i: usize = 0;
        assert(ts.take(0) =~= Seq::<XmlElement>::empty());
        while i < tpls.len()
            invariant
                i <= tpls@.len() == ts.len(),
                rd == (|c: PageXmlFile, x: XmlElement| page_read(c, x)),
                forall|j: int| 0 <= j < tpls@.len() ==> (#[trigger] tpls@[j]).read_from(ts[j]),
                templates_for_page_at(self.archive(), doc_index as int, page_index as int)
                    == templates_run(self.archive(), doc_index as int, ts),
                templates_run(self.archive(), doc_index as int, ts.take(i as int)) == Ok::<
                    Seq<(Seq<char>, XmlElement)>,
                    OfdFault,
                >(w),
                items_read(res@, w, rd),
            decreases tpls@.len() - i,
        {
            assert(ts.take(i + 1).drop_last() =~= ts.take(i as int));
            assert(tpls@[i as int].read_from(ts[i as int]));
            assert(template_ref(ts[i as int]) == tpls@[i as int].template_id);
            let t = match self.template_by_id(doc_index, tpls[i].template_id) {
                Ok(t) => t,
                Err(e) => {
                    proof {
                        lemma_templates_prefix(self.archive(), doc_index as int, ts, i + 1);
                    }
                    return Err(e);
                },
            };
            proof {
                w = w.push(ok_pair(template_by_id_at(self.archive(), doc_index as int, template_ref(ts[i as int]))));
            }
            res.push(t);
            i = i + 1;
        }
        assert(ts.take(i as int) =~= ts);
        Ok(res)
    }

    /// The resource file at the location `loc`, written in the item at `base`.
    fn load_one(&self, base: &str, loc: &str) -> (r: Result<OfdItem<ResourceXmlFile>, Error>)
        ensures
            match load_as(self.archive(), spec_resolve(base@, loc@), |y: XmlElement| resource_file_outcome(y)) {
                Err(f) => r matches Err(e) && e.fault() == f,
                Ok((p, x)) => r matches Ok(it) && it.path@ == p && res_read(it.content, x),
            },
    {
        reveal(load_as);
        let path = inner_resolve(base, loc);
        let x = self.load_xml(path.as_str())?;
        match resource_file_from(&x) {
            Ok(c) => Ok(OfdItem { path, content: c }),
            Err(e) => Err(Error::Dom(e)),
        }
    }

    /// The resource files at the locations `locs`, written in the item at
    /// `base`; nothing where there are no locations.
    #[verifier::rlimit(40)]
    fn load_res(&self, base: &str, locs: &Option<Vec<String>>) -> (r: Result<
        Option<Vec<OfdItem<ResourceXmlFile>>>,
        Error,
    >)
        ensures
            match opt_res_run(self.archive(), base@, opt_views(*locs)) {
                Err(f) => r matches Err(e) && e.fault() == f,
                Ok(w) => r matches Ok(v) && opt_items_read(v, w),
            },
    {
        let paths = match locs {
            None => {
                return Ok(None);
            },
            Some(p) => p,
        };
        let ghost ls = paths@.map_values(|s: String| s@);
        let mut res: Vec<OfdItem<ResourceXmlFile>> = Vec::new();
        let ghost mut w: Seq<(Seq<char>, XmlElement)> = Seq::empty();
        let mut i: usize = 0;
        assert(ls.take(0) =~= Seq::<Seq<char>>::empty());
        while i < paths.len()
            invariant
                i <= paths@.len() == ls.len(),
                ls == paths@.map_values(|s: String| s@),
                opt_views(*locs) == Some(ls),
                res_run(self.archive(), base@, ls.take(i as int)) == Ok::<
                    Seq<(Seq<char>, XmlElement)>,
                    OfdFault,
                >(w),
                res_items_read(res@, w),
            decreases paths@.len() - i,
        {
            assert(ls[i as int] == paths@[i as int]@);
            let it = match self.load_one(base, paths[i].as_str()) {
                Ok(it) => it,
                Err(e) => {
                    proof {
                        assert(ls.take(i + 1).drop_last() =~= ls.take(i as int));
                        assert(ls.take(i + 1).last() == ls[i as int]);
                        assert(res_run(self.archive(), base@, ls.take(i + 1)) == Err::<
                            Seq<(Seq<char>, XmlElement)>,
                            OfdFault,
                        >(e.fault()));
                        lemma_res_prefix(self.archive(), base@, ls, i + 1);
                    }
                    return Err(e);
                },
            };
            proof {
                lemma_res_step(self.archive(), base@, ls, i as int, w);
                w = w.push(ok_pair(load_as(self.archive(), spec_resolve(base@, ls[i as int]), |y: XmlElement| resource_file_outcome(y))));
            }
            res.push(it);
            i = i + 1;
        }
        assert(ls.take(i as int) =~= ls);
        Ok(Some(res))
    }

    /// The resources that the page `page_index` of the document `doc_index`
    /// can use.
    pub fn resources_for_page(&self, doc_index: usize, page_index: usize) -> (r: Result<Resources, Error>)
        ensures
            match resources_at(self.archive(), doc_index as int, page_index as int) {
                Err(f) => r matches Err(e) && e.fault() == f,
                Ok((pubs, docs, pages)) => r matches Ok(res) && {
                    &&& opt_items_read(res.public_resource, pubs)
                    &&& opt_items_read(res.document_resource, docs)
                    &&& opt_items_read(res.page_resource, pages)
                    &&& uint_of(
                        child_text(
                            child_of(ok_tree(doc_outcome(self.archive(), doc_index as int)), "CommonData"@).unwrap(),
                            "DefaultCS"@,
                        ),
                        u64::MAX as int,
                    ) == Ok::<Option<nat>, DomFault>(crate::dom::opt_nat_u64(res.default_cs))
                },
            },
    {
        let doc = self.document_by_index(doc_index)?;
        let pub_res = self.load_res(doc.path.as_str(), &doc.content.common_data.public_res)?;
        let doc_res = self.load_res(doc.path.as_str(), &doc.content.common_data.document_res)?;
        let page = self.page_by_index(doc_index, page_index)?;
        let page_res = self.load_res(page.path.as_str(), &page.content.page_res)?;
        Ok(Resources {
            default_cs: doc.content.common_data.default_cs,
            public_resource: pub_res,
            document_resource: doc_res,
            page_resource: page_res,
        })
    }
}

proof fn lemma_templates_prefix(archive: Seq<u8>, d: int, ts: Seq<XmlElement>, n: int)
    requires
        0 <= n <= ts.len(),
        templates_run(archive, d, ts.take(n)) is Err,
    ensures
        templates_run(archive, d, ts) == templates_run(archive, d, ts.take(n)),
    decreases ts.len() - n,
{
    if n < ts.len() {
        assert(ts.take(n + 1).drop_last() =~= ts.take(n));
        lemma_templates_prefix(archive, d, ts, n + 1);
    } else {
        assert(ts.take(n) =~= ts);
    }
}

proof fn lemma_res_step(
    archive: Seq<u8>,
    base: Seq<char>,
    ls: Seq<Seq<char>>,
    i: int,
    w: Seq<(Seq<char>, XmlElement)>,
)
    requires
        0 <= i < ls.len(),
        res_run(archive, base, ls.take(i)) == Ok::<Seq<(Seq<char>, XmlElement)>, OfdFault>(w),
        load_as(archive, spec_resolve(base, ls[i]), |y: XmlElement| resource_file_outcome(y)) is Ok,
    ensures
        res_run(archive, base, ls.take(i + 1)) == Ok::<Seq<(Seq<char>, XmlElement)>, OfdFault>(
            w.push(ok_pair(load_as(archive, spec_resolve(base, ls[i]), |y: XmlElement| resource_file_outcome(y)))),
        ),
{
    assert(ls.take(i + 1).drop_last() =~= ls.take(i));
    assert(ls.take(i + 1).last() == ls[i]);
}

proof fn lemma_res_prefix(archive: Seq<u8>, base: Seq<char>, ls: Seq<Seq<char>>, n: int)
    requires
        0 <= n <= ls.len(),
        res_run(archive, base, ls.take(n)) is Err,
    ensures
        res_run(archive, base, ls) == res_run(archive, base, ls.take(n)),
    decreases ls.len() - n,
{
    if n < ls.len() {
        assert(ls.take(n + 1).drop_last() =~= ls.take(n));
        lemma_res_prefix(archive, base, ls, n + 1);
    } else {
        assert(ls.take(n) =~= ls);
    }
}

// ---------------------------------------------------------------------------
// Finding a resource
// ---------------------------------------------------------------------------

pub open spec fn opt_files(o: Option<Vec<OfdItem<ResourceXmlFile>>>) -> Seq<OfdItem<ResourceXmlFile>> {
    match o {
        Some(v) => v@,
        None => Seq::empty(),
    }
}

/// The resource files in the order they are looked in: those of the page,
/// then of the document, then of the package.
pub open spec fn files_of(r: Resources) -> Seq<OfdItem<ResourceXmlFile>> {
    opt_files(r.page_resource) + opt_files(r.document_resource) + opt_files(r.public_resource)
}

/// The resources of a file, each with its file.
pub open spec fn pairs_of(f: OfdItem<ResourceXmlFile>) -> Seq<(OfdItem<ResourceXmlFile>, Resource)> {
    match f.content.resources {
        Some(v) => v@.map_values(|r: Resource| (f, r)),
        None => Seq::empty(),
    }
}

/// The resources of the files `fs`, in order, each with its file.
pub open spec fn flat_of(fs: Seq<OfdItem<ResourceXmlFile>>) -> Seq<(OfdItem<ResourceXmlFile>, Resource)>
    decreases fs.len(),
{
    if fs.len() == 0 {
        Seq::empty()
    } else {
        flat_of(fs.drop_last()) + pairs_of(fs.last())
    }
}

pub open spec fn color_space_list(r: Resource) -> Seq<ColorSpace> {
    match r {
        Resource::ColorSpaces(c) => c.color_spaces@,
        _ => Seq::empty(),
    }
}

pub open spec fn draw_param_list(r: Resource) -> Seq<DrawParam> {
    match r {
        Resource::DrawParams(d) => d.draw_params@,
        _ => Seq::empty(),
    }
}

pub open spec fn font_list(r: Resource) -> Seq<Font> {
    match r {
        Resource::Fonts(f) => f.fonts@,
        _ => Seq::empty(),
    }
}

pub open spec fn media_list(r: Resource) -> Seq<MultiMedia> {
    match r {
        Resource::MultiMedias(m) => m.multi_medias@,
        _ => Seq::empty(),
    }
}

impl Resources {
    /// The resource files, in the order they are looked in.
    pub fn iter(&self) -> (r: Vec<&OfdItem<ResourceXmlFile>>)
        ensures
            r@.len() == files_of(*self).len(),
            forall|i: int| 0 <= i < r@.len() ==> *(#[trigger] r@[i]) == files_of(*self)[i],
    {
        let ghost fs = files_of(*self);
        let mut out: Vec<&OfdItem<ResourceXmlFile>> = Vec::new();
        let ghost a = opt_files(self.page_resource);
        let ghost b = opt_files(self.document_resource);
        if let Some(v) = &self.page_resource {
            let mut i: usize = 0;
            while i < v.len()
                invariant
                    i <= v@.len(),
                    out@.len() == i,
                    forall|k: int| 0 <= k < i ==> *(#[trigger] out@[k]) == v@[k],
                decreases v@.len() - i,
            {
                out.push(&v[i]);
                i = i + 1;
            }
        }
        let n1 = out.len();
        assert(n1 == a.len());
        if let Some(v) = &self.document_resource {
            let mut i: usize = 0;
            while i < v.len()
                invariant
                    i <= v@.len(),
                    out@.len() == n1 + i,
                    forall|k: int| 0 <= k < n1 ==> *(#[trigger] out@[k]) == a[k],
                    forall|k: int| 0 <= k < i ==> *(#[trigger] out@[n1 + k]) == v@[k],
                    n1 == a.len(),
                decreases v@.len() - i,
            {
                out.push(&v[i]);
                i = i + 1;
            }
            assert forall|k: int| n1 <= k < out@.len() implies *(#[trigger] out@[k]) == b[k - n1] by {
                assert(*out@[n1 + (k - n1)] == v@[k - n1]);
            }
        }
        let n2 = out.len();
        assert(n2 == a.len() + b.len());
        if let Some(v) = &self.public_resource {
            let mut i: usize = 0;
            while i < v.len()
                invariant
                    i <= v@.len(),
                    out@.len() == n2 + i,
                    forall|k: int| 0 <= k < n1 ==> *(#[trigger] out@[k]) == a[k],
                    forall|k: int| n1 <= k < n2 ==> *(#[trigger] out@[k]) == b[k - n1],
                    forall|k: int| 0 <= k < i ==> *(#[trigger] out@[n2 + k]) == v@[k],
                    n1 == a.len(),
                    n2 == a.len() + b.len(),
                decreases v@.len() - i,
            {
                out.push(&v[i]);
                i = i + 1;
            }
        }
        assert forall|i: int| 0 <= i < out@.len() implies *(#[trigger] out@[i]) == fs[i] by {
            if i < n1 {
            } else if i < n2 {
                assert(*out@[n1 + (i - n1)] == b[i - n1]);
            } else {
                assert(*out@[n2 + (i - n2)] == opt_files(self.public_resource)[i - n2]);
            }
        }
        out
    }

    /// Every resource, in the order they are looked in, with its file.
    pub fn flat(&self) -> (r: Vec<(&OfdItem<ResourceXmlFile>, &Resource)>)
        ensures
            r@.len() == flat_of(files_of(*self)).len(),
            forall|i: int|
                0 <= i < r@.len() ==> *(#[trigger] r@[i]).0 == flat_of(files_of(*self))[i].0
                    && *r@[i].1 == flat_of(files_of(*self))[i].1,
    {
        let ghost fs = files_of(*self);
        let files = self.iter();
        let mut out: Vec<(&OfdItem<ResourceXmlFile>, &Resource)> = Vec::new();
        let mut i: usize = 0;
        assert(fs.take(0) =~= Seq::<OfdItem<ResourceXmlFile>>::empty());
        while i < files.len()
            invariant
                i <= files@.len() == fs.len(),
                fs == files_of(*self),
                forall|k: int| 0 <= k < files@.len() ==> *(#[trigger] files@[k]) == fs[k],
                out@.len() == flat_of(fs.take(i as int)).len(),
                forall|k: int|
                    0 <= k < out@.len() ==> *(#[trigger] out@[k]).0 == flat_of(fs.take(i as int))[k].0
                        && *out@[k].1 == flat_of(fs.take(i as int))[k].1,
            decreases files@.len() - i,
        {
            let f = files[i];
            assert(fs.take(i + 1).drop_last() =~= fs.take(i as int));
            assert(fs.take(i + 1).last() == *f);
            let ghost before = flat_of(fs.take(i as int));
            let n0 = out.len();
            if let Some(rs) = &f.content.resources {
                let mut j: usize = 0;
                while j < rs.len()
                    invariant
                        j <= rs@.len(),
                        out@.len() == n0 + j,
                        n0 == before.len(),
                        forall|k: int| 0 <= k < n0 ==> *(#[trigger] out@[k]).0 == before[k].0 && *out@[k].1 == before[k].1,
                        forall|k: int| 0 <= k < j ==> *(#[trigger] out@[n0 + k]).0 == *f && *out@[n0 + k].1 == rs@[k],
                    decreases rs@.len() - j,
                {
                    out.push((f, &rs[j]));
                    j = j + 1;
                }
                assert forall|k: int| 0 <= k < out@.len() implies *(#[trigger] out@[k]).0 == flat_of(fs.take(i + 1))[k].0
                    && *out@[k].1 == flat_of(fs.take(i + 1))[k].1 by {
                    if k >= n0 {
                        assert(*out@[n0 + (k - n0)].0 == *f);
                    }
                }
            } else {
                assert(flat_of(fs.take(i + 1)) =~= before);
            }
            i = i + 1;
        }
        assert(fs.take(i as int) =~= fs);
        out
    }
}

/// The place `(i, j)` in `fl` is a ColorSpace that the lookup by `id` accepts.
pub open spec fn get_color_space_by_id_at(fl: Seq<(OfdItem<ResourceXmlFile>, Resource)>, i: int, j: int, id: u64) -> bool {
    0 <= i < fl.len() && 0 <= j < color_space_list(fl[i].1).len() && color_space_list(fl[i].1)[j].id == id
}

/// `(i, j)` is the first place in `fl`, in the order of files then of their
/// entries, of a color space with the identifier `id`.
pub open spec fn first_color_space_at(fl: Seq<(OfdItem<ResourceXmlFile>, Resource)>, i: int, j: int, id: u64) -> bool {
    &&& get_color_space_by_id_at(fl, i, j, id)
    &&& forall|i2: int, j2: int| get_color_space_by_id_at(fl, i2, j2, id) ==> i < i2 || (i == i2 && j <= j2)
}

/// The color space that a lookup by `id` in `r` finds, if any.
pub open spec fn color_space_found(r: Resources, id: u64) -> Option<ColorSpace> {
    let fl = flat_of(files_of(r));
    if exists|i: int, j: int| #[trigger] first_color_space_at(fl, i, j, id) {
        let (i, j) = choose|i: int, j: int| #[trigger] first_color_space_at(fl, i, j, id);
        Some(color_space_list(fl[i].1)[j])
    } else {
        None
    }
}

proof fn lemma_first_color_space_unique(fl: Seq<(OfdItem<ResourceXmlFile>, Resource)>, i: int, j: int, i2: int, j2: int, id: u64)
    requires
        first_color_space_at(fl, i, j, id),
        first_color_space_at(fl, i2, j2, id),
    ensures
        i == i2 && j == j2,
{
}

impl Resources {
    /// The first color space with the identifier `id`.
    pub fn get_color_space_by_id(&self, id: u64) -> (r: Option<&ColorSpace>)
        ensures
            match r {
                Some(x) => color_space_found(*self, id) == Some(*x),
                None => color_space_found(*self, id) is None,
            },
            ({
                let fl = flat_of(files_of(*self));
                match r {
                    Some(x) => exists|i: int, j: int|
                        #[trigger] get_color_space_by_id_at(fl, i, j, id) && *x == color_space_list(fl[i].1)[j] && forall|i2: int, j2: int|
                            get_color_space_by_id_at(fl, i2, j2, id) ==> i < i2 || (i == i2 && j <= j2),
                    None => forall|i: int, j: int| !#[trigger] get_color_space_by_id_at(fl, i, j, id),
                }
            }),
    {
        let ghost fl = flat_of(files_of(*self));
        let fl_exec = self.flat();
        let mut i: usize = 0;
        while i < fl_exec.len()
            invariant
                fl == flat_of(files_of(*self)),
                i <= fl_exec@.len() == fl.len(),
                forall|k: int| 0 <= k < fl.len() ==> *(#[trigger] fl_exec@[k]).0 == fl[k].0 && *fl_exec@[k].1 == fl[k].1,
                forall|i2: int, j2: int| 0 <= i2 < i ==> !#[trigger] get_color_space_by_id_at(fl, i2, j2, id),
            decreases fl_exec@.len() - i,
        {
            if let Resource::ColorSpaces(list) = fl_exec[i].1 {
                let mut j: usize = 0;
                while j < list.color_spaces.len()
                    invariant
                        fl == flat_of(files_of(*self)),
                        i < fl_exec@.len() == fl.len(),
                        forall|k: int| 0 <= k < fl.len() ==> *(#[trigger] fl_exec@[k]).0 == fl[k].0 && *fl_exec@[k].1 == fl[k].1,
                        fl[i as int].1 == Resource::ColorSpaces(*list),
                        j <= list.color_spaces@.len(),
                        forall|i2: int, j2: int| 0 <= i2 < i ==> !#[trigger] get_color_space_by_id_at(fl, i2, j2, id),
                        forall|j2: int| 0 <= j2 < j ==> !#[trigger] get_color_space_by_id_at(fl, i as int, j2, id),
                    decreases list.color_spaces@.len() - j,
                {
                    let item = &list.color_spaces[j];
                    if item.id == id {
                        assert(get_color_space_by_id_at(fl, i as int, j as int, id));
                        assert forall|i2: int, j2: int| get_color_space_by_id_at(fl, i2, j2, id) implies i < i2 || (i == i2 && j <= j2) by {
                            if i2 < i {
                            } else if i2 == i && j2 < j {
                            }
                        }
                        proof {
                            assert(first_color_space_at(fl, i as int, j as int, id));
                            let (a, b) = choose|a: int, b: int| #[trigger] first_color_space_at(fl, a, b, id);
                            lemma_first_color_space_unique(fl, a, b, i as int, j as int, id);
                        }
                        return Some(item);
                    }
                    j = j + 1;
                }
                assert forall|i2: int, j2: int| 0 <= i2 < i + 1 implies !#[trigger] get_color_space_by_id_at(fl, i2, j2, id) by {
                    if i2 == i {
                        if 0 <= j2 < j {
                        }
                    }
                }
            } else {
                assert forall|i2: int, j2: int| 0 <= i2 < i + 1 implies !#[trigger] get_color_space_by_id_at(fl, i2, j2, id) by {
                    if i2 == i {
                        assert(color_space_list(fl[i2].1).len() == 0);
                    }
                }
            }
            i = i + 1;
        }
        None
    }
}

/// The place `(i, j)` in `fl` is a DrawParam that the lookup by `id` accepts.
pub open spec fn get_draw_param_by_id_at(fl: Seq<(OfdItem<ResourceXmlFile>, Resource)>, i: int, j: int, id: u64) -> bool {
    0 <= i < fl.len() && 0 <= j < draw_param_list(fl[i].1).len() && draw_param_list(fl[i].1)[j].id == id
}

impl Resources {
    /// The first drawing parameters with the identifier `id`.
    pub fn get_draw_param_by_id(&self, id: u64) -> (r: Option<&DrawParam>)
        ensures
            ({
                let fl = flat_of(files_of(*self));
                match r {
                    Some(x) => exists|i: int, j: int|
                        #[trigger] get_draw_param_by_id_at(fl, i, j, id) && *x == draw_param_list(fl[i].1)[j] && forall|i2: int, j2: int|
                            get_draw_param_by_id_at(fl, i2, j2, id) ==> i < i2 || (i == i2 && j <= j2),
                    None => forall|i: int, j: int| !#[trigger] get_draw_param_by_id_at(fl, i, j, id),
                }
            }),
    {
        let ghost fl = flat_of(files_of(*self));
        let fl_exec = self.flat();
        let mut i: usize = 0;
        while i < fl_exec.len()
            invariant
                fl == flat_of(files_of(*self)),
                i <= fl_exec@.len() == fl.len(),
                forall|k: int| 0 <= k < fl.len() ==> *(#[trigger] fl_exec@[k]).0 == fl[k].0 && *fl_exec@[k].1 == fl[k].1,
                forall|i2: int, j2: int| 0 <= i2 < i ==> !#[trigger] get_draw_param_by_id_at(fl, i2, j2, id),
            decreases fl_exec@.len() - i,
        {
            if let Resource::DrawParams(list) = fl_exec[i].1 {
                let mut j: usize = 0;
                while j < list.draw_params.len()
                    invariant
                        fl == flat_of(files_of(*self)),
                        i < fl_exec@.len() == fl.len(),
                        forall|k: int| 0 <= k < fl.len() ==> *(#[trigger] fl_exec@[k]).0 == fl[k].0 && *fl_exec@[k].1 == fl[k].1,
                        fl[i as int].1 == Resource::DrawParams(*list),
                        j <= list.draw_params@.len(),
                        forall|i2: int, j2: int| 0 <= i2 < i ==> !#[trigger] get_draw_param_by_id_at(fl, i2, j2, id),
                        forall|j2: int| 0 <= j2 < j ==> !#[trigger] get_draw_param_by_id_at(fl, i as int, j2, id),
                    decreases list.draw_params@.len() - j,
                {
                    let item = &list.draw_params[j];
                    if item.id == id {
                        assert(get_draw_param_by_id_at(fl, i as int, j as int, id));
                        assert forall|i2: int, j2: int| get_draw_param_by_id_at(fl, i2, j2, id) implies i < i2 || (i == i2 && j <= j2) by {
                            if i2 < i {
                            } else if i2 == i && j2 < j {
                            }
                        }
                        return Some(item);
                    }
                    j = j + 1;
                }
                assert forall|i2: int, j2: int| 0 <= i2 < i + 1 implies !#[trigger] get_draw_param_by_id_at(fl, i2, j2, id) by {
                    if i2 == i {
                        if 0 <= j2 < j {
                        }
                    }
                }
            } else {
                assert forall|i2: int, j2: int| 0 <= i2 < i + 1 implies !#[trigger] get_draw_param_by_id_at(fl, i2, j2, id) by {
                    if i2 == i {
                        assert(draw_param_list(fl[i2].1).len() == 0);
                    }
                }
            }
            i = i + 1;
        }
        None
    }
}

/// The place `(i, j)` in `fl` is a Font that the lookup by `id` accepts.
pub open spec fn get_font_by_id_at(fl: Seq<(OfdItem<ResourceXmlFile>, Resource)>, i: int, j: int, id: u64) -> bool {
    0 <= i < fl.len() && 0 <= j < font_list(fl[i].1).len() && font_list(fl[i].1)[j].id == id
}

/// `(i, j)` is the first place in `fl` of a font with the identifier `id`.
pub open spec fn first_font_at(fl: Seq<(OfdItem<ResourceXmlFile>, Resource)>, i: int, j: int, id: u64) -> bool {
    &&& get_font_by_id_at(fl, i, j, id)
    &&& forall|i2: int, j2: int| get_font_by_id_at(fl, i2, j2, id) ==> i < i2 || (i == i2 && j <= j2)
}

/// The font that a lookup by `id` in `r` finds, with its resource file.
pub open spec fn font_found(r: Resources, id: u64) -> Option<(OfdItem<ResourceXmlFile>, Font)> {
    let fl = flat_of(files_of(r));
    if exists|i: int, j: int| #[trigger] first_font_at(fl, i, j, id) {
        let (i, j) = choose|i: int, j: int| #[trigger] first_font_at(fl, i, j, id);
        Some((fl[i].0, font_list(fl[i].1)[j]))
    } else {
        None
    }
}

proof fn lemma_first_font_unique(fl: Seq<(OfdItem<ResourceXmlFile>, Resource)>, i: int, j: int, i2: int, j2: int, id: u64)
    requires
        first_font_at(fl, i, j, id),
        first_font_at(fl, i2, j2, id),
    ensures
        i == i2 && j == j2,
{
}

impl Resources {
    /// The first font with the identifier `id`, with its resource file.
    pub fn get_font_by_id(&self, id: u64) -> (r: Option<(&OfdItem<ResourceXmlFile>, &Font)>)
        ensures
            match r {
                Some(x) => font_found(*self, id) == Some((*x.0, *x.1)),
                None => font_found(*self, id) is None,
            },
            ({
                let fl = flat_of(files_of(*self));
                match r {
                    Some(x) => exists|i: int, j: int|
                        #[trigger] get_font_by_id_at(fl, i, j, id) && *x.0 == fl[i].0 && *x.1 == font_list(fl[i].1)[j] && forall|i2: int, j2: int|
                            get_font_by_id_at(fl, i2, j2, id) ==> i < i2 || (i == i2 && j <= j2),
                    None => forall|i: int, j: int| !#[trigger] get_font_by_id_at(fl, i, j, id),
                }
            }),
    {
        let ghost fl = flat_of(files_of(*self));
        let fl_exec = self.flat();
        let mut i: usize = 0;
        while i < fl_exec.len()
            invariant
                fl == flat_of(files_of(*self)),
                i <= fl_exec@.len() == fl.len(),
                forall|k: int| 0 <= k < fl.len() ==> *(#[trigger] fl_exec@[k]).0 == fl[k].0 && *fl_exec@[k].1 == fl[k].1,
                forall|i2: int, j2: int| 0 <= i2 < i ==> !#[trigger] get_font_by_id_at(fl, i2, j2, id),
            decreases fl_exec@.len() - i,
        {
            if let Resource::Fonts(list) = fl_exec[i].1 {
                let mut j: usize = 0;
                while j < list.fonts.len()
                    invariant
                        fl == flat_of(files_of(*self)),
                        i < fl_exec@.len() == fl.len(),
                        forall|k: int| 0 <= k < fl.len() ==> *(#[trigger] fl_exec@[k]).0 == fl[k].0 && *fl_exec@[k].1 == fl[k].1,
                        fl[i as int].1 == Resource::Fonts(*list),
                        j <= list.fonts@.len(),
                        forall|i2: int, j2: int| 0 <= i2 < i ==> !#[trigger] get_font_by_id_at(fl, i2, j2, id),
                        forall|j2: int| 0 <= j2 < j ==> !#[trigger] get_font_by_id_at(fl, i as int, j2, id),
                    decreases list.fonts@.len() - j,
                {
                    let item = &list.fonts[j];
                    if item.id == id {
                        assert(get_font_by_id_at(fl, i as int, j as int, id));
                        assert forall|i2: int, j2: int| get_font_by_id_at(fl, i2, j2, id) implies i < i2 || (i == i2 && j <= j2) by {
                            if i2 < i {
                            } else if i2 == i && j2 < j {
                            }
                        }
                        proof {
                            assert(first_font_at(fl, i as int, j as int, id));
                            let (a, b) = choose|a: int, b: int| #[trigger] first_font_at(fl, a, b, id);
                            lemma_first_font_unique(fl, a, b, i as int, j as int, id);
                        }
                        return Some((fl_exec[i].0, item));
                    }
                    j = j + 1;
                }
                assert forall|i2: int, j2: int| 0 <= i2 < i + 1 implies !#[trigger] get_font_by_id_at(fl, i2, j2, id) by {
                    if i2 == i {
                        if 0 <= j2 < j {
                        }
                    }
                }
            } else {
                assert forall|i2: int, j2: int| 0 <= i2 < i + 1 implies !#[trigger] get_font_by_id_at(fl, i2, j2, id) by {
                    if i2 == i {
                        assert(font_list(fl[i2].1).len() == 0);
                    }
                }
            }
            i = i + 1;
        }
        None
    }
}

/// The place `(i, j)` in `fl` is a MultiMedia that the lookup by `id` accepts.
pub open spec fn get_image_by_id_at(fl: Seq<(OfdItem<ResourceXmlFile>, Resource)>, i: int, j: int, id: u64) -> bool {
    0 <= i < fl.len() && 0 <= j < media_list(fl[i].1).len() && media_list(fl[i].1)[j].id == id && media_list(fl[i].1)[j].typ == MultiMediaType::Image
}

impl Resources {
    /// The first image with the identifier `id`, with its resource file.
    pub fn get_image_by_id(&self, id: u64) -> (r: Option<(&OfdItem<ResourceXmlFile>, &MultiMedia)>)
        ensures
            ({
                let fl = flat_of(files_of(*self));
                match r {
                    Some(x) => exists|i: int, j: int|
                        #[trigger] get_image_by_id_at(fl, i, j, id) && *x.0 == fl[i].0 && *x.1 == media_list(fl[i].1)[j] && forall|i2: int, j2: int|
                            get_image_by_id_at(fl, i2, j2, id) ==> i < i2 || (i == i2 && j <= j2),
                    None => forall|i: int, j: int| !#[trigger] get_image_by_id_at(fl, i, j, id),
                }
            }),
    {
        let ghost fl = flat_of(files_of(*self));
        let fl_exec = self.flat();
        let mut i: usize = 0;
        while i < fl_exec.len()
            invariant
                fl == flat_of(files_of(*self)),
                i <= fl_exec@.len() == fl.len(),
                forall|k: int| 0 <= k < fl.len() ==> *(#[trigger] fl_exec@[k]).0 == fl[k].0 && *fl_exec@[k].1 == fl[k].1,
                forall|i2: int, j2: int| 0 <= i2 < i ==> !#[trigger] get_image_by_id_at(fl, i2, j2, id),
            decreases fl_exec@.len() - i,
        {
            if let Resource::MultiMedias(list) = fl_exec[i].1 {
                let mut j: usize = 0;
                while j < list.multi_medias.len()
                    invariant
                        fl == flat_of(files_of(*self)),
                        i < fl_exec@.len() == fl.len(),
                        forall|k: int| 0 <= k < fl.len() ==> *(#[trigger] fl_exec@[k]).0 == fl[k].0 && *fl_exec@[k].1 == fl[k].1,
                        fl[i as int].1 == Resource::MultiMedias(*list),
                        j <= list.multi_medias@.len(),
                        forall|i2: int, j2: int| 0 <= i2 < i ==> !#[trigger] get_image_by_id_at(fl, i2, j2, id),
                        forall|j2: int| 0 <= j2 < j ==> !#[trigger] get_image_by_id_at(fl, i as int, j2, id),
                    decreases list.multi_medias@.len() - j,
                {
                    let item = &list.multi_medias[j];
                    if item.id == id && item.typ == MultiMediaType::Image {
                        assert(get_image_by_id_at(fl, i as int, j as int, id));
                        assert forall|i2: int, j2: int| get_image_by_id_at(fl, i2, j2, id) implies i < i2 || (i == i2 && j <= j2) by {
                            if i2 < i {
                            } else if i2 == i && j2 < j {
                            }
                        }
                        return Some((fl_exec[i].0, item));
                    }
                    j = j + 1;
                }
                assert forall|i2: int, j2: int| 0 <= i2 < i + 1 implies !#[trigger] get_image_by_id_at(fl, i2, j2, id) by {
                    if i2 == i {
                        if 0 <= j2 < j {
                        }
                    }
                }
            } else {
                assert forall|i2: int, j2: int| 0 <= i2 < i + 1 implies !#[trigger] get_image_by_id_at(fl, i2, j2, id) by {
                    if i2 == i {
                        assert(media_list(fl[i2].1).len() == 0);
                    }
                }
            }
            i = i + 1;
        }
        None
    }
}

} // verus!
