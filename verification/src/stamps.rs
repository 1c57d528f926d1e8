//! The signatures and the annotations of the documents of a package: the
//! signature files of a document, the stamps that the signatures put on a
//! page, and the annotation files of a page.
use crate::annotation::{
    annotation_file_from, annotation_file_outcome, annotations_file_from, annotations_outcome,
    AnnotationXmlFile,
};
use crate::container::{
    doc_outcome, doc_pages, entry_outcome, inner_resolve, load_as, spec_resolve, Error, Ofd,
    OfdFault, OfdItem,
};
use crate::dom::{uint_of, DomFault, TryFromDom};
use crate::signature::{
    signature_file_outcome, signatures_outcome, SignatureXmlFile, SignaturesXmlFile, StampAnnot,
};
use crate::xml::{attr_of, child_of, child_text, children_named, XmlElement};
use vstd::prelude::*;

verus! {

// ---------------------------------------------------------------------------
// Where the parts are
// ---------------------------------------------------------------------------

/// The signature list of the document `d`, with its location: nothing where
/// the body of the document in the entry names none.
pub open spec fn signatures_at(archive: Seq<u8>, d: int) -> Result<
    Option<(Seq<char>, XmlElement)>,
    OfdFault,
> {
    match entry_outcome(archive) {
        Err(f) => Err(f),
        Ok((ep, x)) => if d < 0 || d >= x.children@.len() {
            Err(OfdFault::NoSuchDocument)
        } else {
            match child_text(x.children@[d], "Signatures"@) {
                None => Ok(None),
                Some(loc) => match load_as(archive, spec_resolve(ep, loc), |y: XmlElement| signatures_outcome(y)) {
                    Err(f) => Err(f),
                    Ok(v) => Ok(Some(v)),
                },
            }
        },
    }
}

/// The signature files of the entries `es` of a signature list at `base`.
pub open spec fn sig_run(archive: Seq<u8>, base: Seq<char>, es: Seq<XmlElement>) -> Result<
    Seq<(Seq<char>, XmlElement)>,
    OfdFault,
>
    decreases es.len(),
{
    if es.len() == 0 {
        Ok(Seq::empty())
    } else {
        match sig_run(archive, base, es.drop_last()) {
            Err(f) => Err(f),
            Ok(v) => match load_as(
                archive,
                spec_resolve(base, attr_of(es.last(), "BaseLoc"@).unwrap()),
                |y: XmlElement| signature_file_outcome(y),
            ) {
                Err(f) => Err(f),
                Ok(t) => Ok(v.push(t)),
            },
        }
    }
}

/// The signature files of the document `d`: nothing where it has no
/// signature list, or a list without signatures.
pub open spec fn signature_files_at(archive: Seq<u8>, d: int) -> Result<
    Option<Seq<(Seq<char>, XmlElement)>>,
    OfdFault,
> {
    match signatures_at(archive, d) {
        Err(f) => Err(f),
        Ok(None) => Ok(None),
        Ok(Some((sp, x))) => {
            let es = children_named(x, "Signature"@);
            if es.len() == 0 {
                Ok(None)
            } else {
                match sig_run(archive, sp, es) {
                    Err(f) => Err(f),
                    Ok(v) => Ok(Some(v)),
                }
            }
        },
    }
}

/// Each signature file of `v` is at the location of `w` and read from its
/// tree.
pub open spec fn sig_items_read(v: Seq<OfdItem<SignatureXmlFile>>, w: Seq<(Seq<char>, XmlElement)>) -> bool {
    &&& v.len() == w.len()
    &&& forall|i: int| 0 <= i < v.len() ==> (#[trigger] v[i]).path@ == w[i].0 && v[i].content.read_from(w[i].1)
}

/// The identifier of the page `p` of the document `d`.
pub open spec fn page_id_at(archive: Seq<u8>, d: int, p: int) -> Result<nat, OfdFault> {
    match doc_outcome(archive, d) {
        Err(f) => Err(f),
        Ok((_, x)) => if p < 0 || p >= doc_pages(x).len() {
            Err(OfdFault::NoSuchTemplate)
        } else {
            match uint_of(attr_of(doc_pages(x)[p], "ID"@), u64::MAX as int) {
                Ok(Some(n)) => Ok(n),
                _ => Err(OfdFault::NoSuchTemplate),
            }
        },
    }
}

/// The stamp annotations among `ss` on the page `id`, in order.
pub open spec fn matching_stamps(ss: Seq<XmlElement>, id: nat) -> Seq<XmlElement>
    decreases ss.len(),
{
    if ss.len() == 0 {
        Seq::empty()
    } else if uint_of(attr_of(ss.last(), "PageRef"@), u64::MAX as int) == Ok::<Option<nat>, DomFault>(
        Some(id),
    ) {
        matching_stamps(ss.drop_last(), id).push(ss.last())
    } else {
        matching_stamps(ss.drop_last(), id)
    }
}

/// The stamp annotations of a signature file.
pub open spec fn file_stamps(x: XmlElement) -> Seq<XmlElement> {
    children_named(child_of(x, "SignedInfo"@).unwrap(), "StampAnnot"@)
}

/// The stamps on the page `id` of the signature files `w`: the position of
/// the file and the stamp annotation, in the order of the files and then of
/// their annotations.
pub open spec fn stamps_of(w: Seq<(Seq<char>, XmlElement)>, id: nat) -> Seq<(int, XmlElement)>
    decreases w.len(),
{
    if w.len() == 0 {
        Seq::empty()
    } else {
        stamps_of(w.drop_last(), id) + matching_stamps(file_stamps(w.last().1), id).map_values(
            |s: XmlElement| ((w.len() - 1) as int, s),
        )
    }
}

/// Each pair of `v` is the signature file and the stamp annotation that
/// `st` locates in `w`.
pub open spec fn stamps_read(
    v: Seq<(OfdItem<SignatureXmlFile>, StampAnnot)>,
    w: Seq<(Seq<char>, XmlElement)>,
    st: Seq<(int, XmlElement)>,
) -> bool {
    &&& v.len() == st.len()
    &&& forall|k: int|
        0 <= k < v.len() ==> 0 <= #[trigger] st[k].0 < w.len() && v[k].0.path@ == w[st[k].0].0
            && v[k].0.content.read_from(w[st[k].0].1) && v[k].1.read_from(st[k].1)
}

/// The annotation pages among `ps` for the page `id`, in order.
pub open spec fn matching_pages(ps: Seq<XmlElement>, id: nat) -> Seq<XmlElement>
    decreases ps.len(),
{
    if ps.len() == 0 {
        Seq::empty()
    } else if uint_of(attr_of(ps.last(), "PageID"@), u64::MAX as int) == Ok::<Option<nat>, DomFault>(
        Some(id),
    ) {
        matching_pages(ps.drop_last(), id).push(ps.last())
    } else {
        matching_pages(ps.drop_last(), id)
    }
}

/// The annotation files of the pages `ps`, written in the item at `base`.
pub open spec fn annot_run(archive: Seq<u8>, base: Seq<char>, ps: Seq<XmlElement>) -> Result<
    Seq<(Seq<char>, XmlElement)>,
    OfdFault,
>
    decreases ps.len(),
{
    if ps.len() == 0 {
        Ok(Seq::empty())
    } else {
        match annot_run(archive, base, ps.drop_last()) {
            Err(f) => Err(f),
            Ok(v) => match load_as(
                archive,
                spec_resolve(base, child_text(ps.last(), "FileLoc"@).unwrap()),
                |y: XmlElement| annotation_file_outcome(y),
            ) {
                Err(f) => Err(f),
                Ok(t) => Ok(v.push(t)),
            },
        }
    }
}

/// The annotation files of the page `p` of the document `d`: none where the
/// document has no annotation list.
pub open spec fn annotations_at(archive: Seq<u8>, d: int, p: int) -> Result<
    Seq<(Seq<char>, XmlElement)>,
    OfdFault,
> {
    match page_id_at(archive, d, p) {
        Err(f) => Err(f),
        Ok(id) => {
            let (dp, x) = doc_outcome(archive, d)->Ok_0;
            match child_text(x, "Annotations"@) {
                None => Ok(Seq::empty()),
                Some(loc) => {
                    let path = spec_resolve(dp, loc);
                    match load_as(archive, path, |y: XmlElement| annotations_outcome(y)) {
                        Err(f) => Err(f),
                        Ok((_, ax)) => annot_run(archive, path, matching_pages(children_named(ax, "Page"@), id)),
                    }
                },
            }
        },
    }
}

/// The document `d` is one that the entry lists, wherever the entry is read
/// (reading the signatures of another one is an error of the caller).
pub open spec fn doc_listed(archive: Seq<u8>, d: int) -> bool {
    entry_outcome(archive) matches Ok((_, x)) ==> 0 <= d < x.children@.len()
}

/// The page `p` is one that the document `d` lists, wherever the document
/// is read.
pub open spec fn page_listed(archive: Seq<u8>, d: int, p: int) -> bool {
    doc_outcome(archive, d) matches Ok((_, x)) ==> 0 <= p < doc_pages(x).len()
}

// ---------------------------------------------------------------------------
// Lemmas
// ---------------------------------------------------------------------------

proof fn lemma_sig_prefix(archive: Seq<u8>, base: Seq<char>, es: Seq<XmlElement>, n: int)
    requires
        0 <= n <= es.len(),
        sig_run(archive, base, es.take(n)) is Err,
    ensures
        sig_run(archive, base, es) == sig_run(archive, base, es.take(n)),
    decreases es.len() - n,
{
    if n < es.len() {
        assert(es.take(n + 1).drop_last() =~= es.take(n));
        lemma_sig_prefix(archive, base, es, n + 1);
    } else {
        assert(es.take(n) =~= es);
    }
}

proof fn lemma_annot_prefix(archive: Seq<u8>, base: Seq<char>, ps: Seq<XmlElement>, n: int)
    requires
        0 <= n <= ps.len(),
        annot_run(archive, base, ps.take(n)) is Err,
    ensures
        annot_run(archive, base, ps) == annot_run(archive, base, ps.take(n)),
    decreases ps.len() - n,
{
    if n < ps.len() {
        assert(ps.take(n + 1).drop_last() =~= ps.take(n));
        lemma_annot_prefix(archive, base, ps, n + 1);
    } else {
        assert(ps.take(n) =~= ps);
    }
}

// ---------------------------------------------------------------------------
// Reading them
// ---------------------------------------------------------------------------

impl Ofd {
    /// The signature list of the document `doc_index`; nothing where the
    /// document names none.
    pub fn signatures_for_doc(&self, doc_index: usize) -> (r: Result<Option<OfdItem<SignaturesXmlFile>>, Error>)
        requires
            doc_listed(self.archive(), doc_index as int),
        ensures
            match signatures_at(self.archive(), doc_index as int) {
                Err(f) => r matches Err(e) && e.fault() == f,
                Ok(None) => r matches Ok(None),
                Ok(Some((p, x))) => r matches Ok(Some(it)) && it.path@ == p && it.content.read_from(x),
            },
    {
        reveal(load_as);
        let entry = self.entry()?;
        let body = &entry.content.doc_body[doc_index];
        match &body.signatures {
            None => Ok(None),
            Some(loc) => {
                let path = entry.resolve(loc.as_str());
                let x = self.load_xml(path.as_str())?;
                match SignaturesXmlFile::try_from_dom(&x) {
                    Ok(c) => Ok(Some(OfdItem { path, content: c })),
                    Err(e) => Err(Error::Dom(e)),
                }
            },
        }
    }

    /// The signature file at the location `loc`, written in the item at `base`.
    fn load_signature(&self, base: &str, loc: &str) -> (r: Result<OfdItem<SignatureXmlFile>, Error>)
        ensures
            match load_as(self.archive(), spec_resolve(base@, loc@), |y: XmlElement| signature_file_outcome(y)) {
                Err(f) => r matches Err(e) && e.fault() == f,
                Ok((p, x)) => r matches Ok(it) && it.path@ == p && it.content.read_from(x),
            },
    {
        reveal(load_as);
        let path = inner_resolve(base, loc);
        let x = self.load_xml(path.as_str())?;
        match SignatureXmlFile::try_from_dom(&x) {
            Ok(c) => Ok(OfdItem { path, content: c }),
            Err(e) => Err(Error::Dom(e)),
        }
    }

    /// The signature files of the document `doc_index`, in the order of its
    /// signature list; nothing where it has none.
    pub fn signature_for_doc(&self, doc_index: usize) -> (r: Result<Option<Vec<OfdItem<SignatureXmlFile>>>, Error>)
        requires
            doc_listed(self.archive(), doc_index as int),
        ensures
            match signature_files_at(self.archive(), doc_index as int) {
                Err(f) => r matches Err(e) && e.fault() == f,
                Ok(None) => r matches Ok(None),
                Ok(Some(w)) => r matches Ok(Some(v)) && sig_items_read(v@, w),
            },
    {
        let sigs_file = match self.signatures_for_doc(doc_index)? {
            None => {
                return Ok(None);
            },
            Some(f) => f,
        };
        let list = match &sigs_file.content.signature {
            None => {
                return Ok(None);
            },
            Some(l) => l,
        };
        let ghost sp = sigs_file.path@;
        let ghost x = signatures_at(self.archive(), doc_index as int)->Ok_0->Some_0.1;
        let ghost es = children_named(x, "Signature"@);
        let mut out: Vec<OfdItem<SignatureXmlFile>> = Vec::new();
        let ghost mut w: Seq<(Seq<char>, XmlElement)> = Seq::empty();
        let mut i: usize = 0;
        assert(es.take(0) =~= Seq::<XmlElement>::empty());
        while i < list.len()
            invariant
                signatures_at(self.archive(), doc_index as int) == Ok::<Option<(Seq<char>, XmlElement)>, OfdFault>(
                    Some((sp, x)),
                ),
                sigs_file.path@ == sp,
                es == children_named(x, "Signature"@),
                list@.len() == es.len(),
                forall|k: int| 0 <= k < list@.len() ==> (#[trigger] list@[k]).read_from(es[k]),
                i <= list@.len(),
                sig_run(self.archive(), sp, es.take(i as int)) == Ok::<Seq<(Seq<char>, XmlElement)>, OfdFault>(w),
                sig_items_read(out@, w),
            decreases list@.len() - i,
        {
            assert(es.take(i + 1).drop_last() =~= es.take(i as int));
            assert(es.take(i + 1).last() == es[i as int]);
            assert(list@[i as int].read_from(es[i as int]));
            let it = match self.load_signature(sigs_file.path.as_str(), list[i].base_loc.as_str()) {
                Ok(it) => it,
                Err(e) => {
                    proof {
                        lemma_sig_prefix(self.archive(), sp, es, i + 1);
                    }
                    return Err(e);
                },
            };
            proof {
                w = w.push((it.path@, sig_tree_at(self.archive(), sp, es[i as int])));
            }
            out.push(it);
            i = i + 1;
        }
        assert(es.take(i as int) =~= es);
        Ok(Some(out))
    }
}

impl Ofd {
    /// The identifier of the page `page_index` of the document `doc_index`.
    fn page_id(&self, doc_index: usize, page_index: usize) -> (r: Result<u64, Error>)
        requires
            page_listed(self.archive(), doc_index as int, page_index as int),
        ensures
            match page_id_at(self.archive(), doc_index as int, page_index as int) {
                Err(f) => r matches Err(e) && e.fault() == f,
                Ok(id) => r matches Ok(v) && v as nat == id,
            },
    {
        let doc = self.document_by_index(doc_index)?;
        Ok(doc.content.pages.page[page_index].id)
    }

    /// The stamps that the signatures of the document `doc_index` put on its
    /// page `page_index`, each with its signature file; nothing where there
    /// are none.
    #[verifier::rlimit(40)]
    pub fn signature_for_page(&self, doc_index: usize, page_index: usize) -> (r: Result<
        Option<Vec<(OfdItem<SignatureXmlFile>, StampAnnot)>>,
        Error,
    >)
        requires
            doc_listed(self.archive(), doc_index as int),
            signature_files_at(self.archive(), doc_index as int) is Ok ==> page_listed(
                self.archive(),
                doc_index as int,
                page_index as int,
            ),
        ensures
            match signature_files_at(self.archive(), doc_index as int) {
                Err(f) => r matches Err(e) && e.fault() == f,
                Ok(sw) => match page_id_at(self.archive(), doc_index as int, page_index as int) {
                    Err(f) => r matches Err(e) && e.fault() == f,
                    Ok(id) => match sw {
                        None => r matches Ok(None),
                        Some(w) => if stamps_of(w, id).len() == 0 {
                            r matches Ok(None)
                        } else {
                            r matches Ok(Some(v)) && stamps_read(v@, w, stamps_of(w, id))
                        },
                    },
                },
            },
    {
        let sigs = self.signature_for_doc(doc_index)?;
        let page_id = self.page_id(doc_index, page_index)?;
        let files = match sigs {
            None => {
                return Ok(None);
            },
            Some(v) => v,
        };
        let ghost w = signature_files_at(self.archive(), doc_index as int)->Ok_0->Some_0;
        let ghost id = page_id as nat;
        let mut out: Vec<(OfdItem<SignatureXmlFile>, StampAnnot)> = Vec::new();
        let mut i: usize = 0;
        assert(w.take(0) =~= Seq::<(Seq<char>, XmlElement)>::empty());
        while i < files.len()
            invariant
                id == page_id as nat,
                sig_items_read(files@, w),
                i <= files@.len(),
                stamps_read(out@, w, stamps_of(w.take(i as int), id)),
            decreases files@.len() - i,
        {
            let file = &files[i];
            let ghost x = w[i as int].1;
            let ghost ss = file_stamps(x);
            let ghost before = stamps_of(w.take(i as int), id);
            assert(w.take(i + 1).drop_last() =~= w.take(i as int));
            assert(w.take(i + 1).last() == w[i as int]);
            assert(stamps_of(w.take(i + 1), id) == before + matching_stamps(ss, id).map_values(
                |s: XmlElement| (i as int, s),
            ));
            assert(file.content.read_from(x));
            match &file.content.signed_info.stamp_annot {
                None => {
                    assert(ss.len() == 0);
                    assert(matching_stamps(ss, id).map_values(|s: XmlElement| (i as int, s)) =~= Seq::<
                        (int, XmlElement),
                    >::empty());
                    assert(before + Seq::<(int, XmlElement)>::empty() =~= before);
                },
                Some(list) => {
                    let mut j: usize = 0;
                    assert(ss.take(0) =~= Seq::<XmlElement>::empty());
                    assert(matching_stamps(ss.take(0), id).map_values(|s: XmlElement| (i as int, s)) =~= Seq::<
                        (int, XmlElement),
                    >::empty());
                    assert(before + Seq::<(int, XmlElement)>::empty() =~= before);
                    while j < list.len()
                        invariant
                            id == page_id as nat,
                            sig_items_read(files@, w),
                            i < files@.len(),
                            file == &files@[i as int],
                            x == w[i as int].1,
                            ss == file_stamps(x),
                            list@.len() == ss.len(),
                            forall|k: int| 0 <= k < list@.len() ==> (#[trigger] list@[k]).read_from(ss[k]),
                            j <= list@.len(),
                            stamps_read(
                                out@,
                                w,
                                before + matching_stamps(ss.take(j as int), id).map_values(
                                    |s: XmlElement| (i as int, s),
                                ),
                            ),
                        decreases list@.len() - j,
                    {
                        let ghost st = before + matching_stamps(ss.take(j as int), id).map_values(
                            |s: XmlElement| (i as int, s),
                        );
                        assert(ss.take(j + 1).drop_last() =~= ss.take(j as int));
                        assert(ss.take(j + 1).last() == ss[j as int]);
                        assert(list@[j as int].read_from(ss[j as int]));
                        if list[j].page_ref == page_id {
                            let c = file.content.copy();
                            let pair = (OfdItem { path: file.path.clone(), content: c }, list[j].copy());
                            out.push(pair);
                            proof {
                                assert(matching_stamps(ss.take(j + 1), id) == matching_stamps(
                                    ss.take(j as int),
                                    id,
                                ).push(ss[j as int]));
                                assert(before + matching_stamps(ss.take(j + 1), id).map_values(
                                    |s: XmlElement| (i as int, s),
                                ) =~= st.push((i as int, ss[j as int])));
                            }
                        } else {
                            proof {
                                assert(matching_stamps(ss.take(j + 1), id) == matching_stamps(
                                    ss.take(j as int),
                                    id,
                                ));
                            }
                        }
                        j = j + 1;
                    }
                    assert(ss.take(j as int) =~= ss);
                },
            }
            i = i + 1;
        }
        assert(w.take(i as int) =~= w);
        if out.len() == 0 {
            Ok(None)
        } else {
            Ok(Some(out))
        }
    }

    /// The stamps on the page `page_index` of the document `doc_index`, as
    /// `signature_for_page` gives them.
    pub fn signatures_for_page(&self, doc_index: usize, page_index: usize) -> (r: Result<
        Option<Vec<(OfdItem<SignatureXmlFile>, StampAnnot)>>,
        Error,
    >)
        requires
            doc_listed(self.archive(), doc_index as int),
            signature_files_at(self.archive(), doc_index as int) is Ok ==> page_listed(
                self.archive(),
                doc_index as int,
                page_index as int,
            ),
        ensures
            match signature_files_at(self.archive(), doc_index as int) {
                Err(f) => r matches Err(e) && e.fault() == f,
                Ok(sw) => match page_id_at(self.archive(), doc_index as int, page_index as int) {
                    Err(f) => r matches Err(e) && e.fault() == f,
                    Ok(id) => match sw {
                        None => r matches Ok(None),
                        Some(w) => if stamps_of(w, id).len() == 0 {
                            r matches Ok(None)
                        } else {
                            r matches Ok(Some(v)) && stamps_read(v@, w, stamps_of(w, id))
                        },
                    },
                },
            },
    {
        self.signature_for_page(doc_index, page_index)
    }

    /// The annotation file at the location `loc`, written in the item at `base`.
    fn load_annotation(&self, base: &str, loc: &str) -> (r: Result<OfdItem<AnnotationXmlFile>, Error>)
        ensures
            match load_as(self.archive(), spec_resolve(base@, loc@), |y: XmlElement| annotation_file_outcome(y)) {
                Err(f) => r matches Err(e) && e.fault() == f,
                Ok((p, x)) => r matches Ok(it) && it.path@ == p && it.content.read_from(x),
            },
    {
        reveal(load_as);
        let path = inner_resolve(base, loc);
        let x = self.load_xml(path.as_str())?;
        match annotation_file_from(&x) {
            Ok(c) => Ok(OfdItem { path, content: c }),
            Err(e) => Err(Error::Dom(e)),
        }
    }

    /// The annotation files of the page `page_index` of the document
    /// `doc_index`, in the order of its annotation list.
    #[verifier::rlimit(40)]
    pub fn annotations_for_page(&self, doc_index: usize, page_index: usize) -> (r: Result<
        Vec<OfdItem<AnnotationXmlFile>>,
        Error,
    >)
        requires
            page_listed(self.archive(), doc_index as int, page_index as int),
        ensures
            match annotations_at(self.archive(), doc_index as int, page_index as int) {
                Err(f) => r matches Err(e) && e.fault() == f,
                Ok(w) => r matches Ok(v) && v@.len() == w.len() && forall|i: int|
                    0 <= i < v@.len() ==> (#[trigger] v@[i]).path@ == w[i].0 && v@[i].content.read_from(w[i].1),
            },
    {
        reveal(load_as);
        let doc = self.document_by_index(doc_index)?;
        let page_id = doc.content.pages.page[page_index].id;
        let ghost id = page_id as nat;
        let loc = match &doc.content.annotations {
            None => {
                return Ok(Vec::new());
            },
            Some(l) => l,
        };
        let path = doc.resolve(loc.as_str());
        let ax = self.load_xml(path.as_str())?;
        let list = match annotations_file_from(&ax) {
            Ok(c) => c,
            Err(e) => {
                return Err(Error::Dom(e));
            },
        };
        let ghost ps = children_named(ax, "Page"@);
        let ghost mp = matching_pages(ps, id);
        let mut out: Vec<OfdItem<AnnotationXmlFile>> = Vec::new();
        let pages = match &list.page {
            None => {
                assert(ps.len() == 0);
                assert(ps =~= Seq::<XmlElement>::empty());
                return Ok(out);
            },
            Some(v) => v,
        };
        let ghost mut w: Seq<(Seq<char>, XmlElement)> = Seq::empty();
        let mut j: usize = 0;
        assert(ps.take(0) =~= Seq::<XmlElement>::empty());
        assert(annotations_at(self.archive(), doc_index as int, page_index as int) == annot_run(
            self.archive(),
            path@,
            matching_pages(ps, id),
        ));
        while j < pages.len()
            invariant
                annotations_at(self.archive(), doc_index as int, page_index as int) == annot_run(
                    self.archive(),
                    path@,
                    matching_pages(ps, id),
                ),
                id == page_id as nat,
                pages@.len() == ps.len(),
                forall|k: int| 0 <= k < pages@.len() ==> (#[trigger] pages@[k]).read_from(ps[k]),
                j <= pages@.len(),
                annot_run(self.archive(), path@, matching_pages(ps.take(j as int), id)) == Ok::<
                    Seq<(Seq<char>, XmlElement)>,
                    OfdFault,
                >(w),
                out@.len() == w.len(),
                forall|i: int|
                    0 <= i < out@.len() ==> (#[trigger] out@[i]).path@ == w[i].0 && out@[i].content.read_from(w[i].1),
            decreases pages@.len() - j,
        {
            assert(ps.take(j + 1).drop_last() =~= ps.take(j as int));
            assert(ps.take(j + 1).last() == ps[j as int]);
            assert(pages@[j as int].read_from(ps[j as int]));
            let ghost m = matching_pages(ps.take(j as int), id);
            if pages[j].page_id == page_id {
                assert(matching_pages(ps.take(j + 1), id) == m.push(ps[j as int]));
                assert(m.push(ps[j as int]).drop_last() =~= m);
                let it = match self.load_annotation(path.as_str(), pages[j].file_loc.as_str()) {
                    Ok(it) => it,
                    Err(e) => {
                        proof {
                            lemma_annot_run_extend_err(self.archive(), path@, ps, id, j as int);
                        }
                        return Err(e);
                    },
                };
                proof {
                    w = w.push((it.path@, it_tree(self.archive(), path@, ps[j as int])));
                }
                out.push(it);
            } else {
                assert(matching_pages(ps.take(j + 1), id) == m);
            }
            j = j + 1;
        }
        assert(ps.take(j as int) =~= ps);
        Ok(out)
    }
}

/// The tree of the annotation file of the page entry `e` of a list at `base`.
pub open spec fn it_tree(archive: Seq<u8>, base: Seq<char>, e: XmlElement) -> XmlElement {
    load_as(archive, spec_resolve(base, child_text(e, "FileLoc"@).unwrap()), |y: XmlElement| annotation_file_outcome(y))->Ok_0.1
}

/// Once the annotation files of a prefix of the matching pages fail, those
/// of all of them fail alike.
proof fn lemma_annot_run_extend_err(archive: Seq<u8>, base: Seq<char>, ps: Seq<XmlElement>, id: nat, j: int)
    requires
        0 <= j < ps.len(),
        annot_run(archive, base, matching_pages(ps.take(j + 1), id)) is Err,
    ensures
        annot_run(archive, base, matching_pages(ps, id)) == annot_run(archive, base, matching_pages(ps.take(j + 1), id)),
    decreases ps.len() - j,
{
    lemma_matching_pages_prefix(ps, id, j + 1);
    let full = matching_pages(ps, id);
    let pre = matching_pages(ps.take(j + 1), id);
    assert(full.take(pre.len() as int) =~= pre);
    lemma_annot_prefix(archive, base, full, pre.len() as int);
}

/// The matching pages of a prefix are a prefix of the matching pages.
proof fn lemma_matching_pages_prefix(ps: Seq<XmlElement>, id: nat, n: int)
    requires
        0 <= n <= ps.len(),
    ensures
        matching_pages(ps.take(n), id).len() <= matching_pages(ps, id).len(),
        matching_pages(ps, id).take(matching_pages(ps.take(n), id).len() as int) =~= matching_pages(ps.take(n), id),
    decreases ps.len() - n,
{
    if n < ps.len() {
        lemma_matching_pages_prefix(ps, id, n + 1);
        assert(ps.take(n + 1).drop_last() =~= ps.take(n));
        assert(ps.take(n + 1).last() == ps[n]);
        let a = matching_pages(ps.take(n), id);
        let b = matching_pages(ps.take(n + 1), id);
        let f = matching_pages(ps, id);
        assert(f.take(b.len() as int) =~= b);
        if b.len() == a.len() + 1 {
            assert(b.take(a.len() as int) =~= a);
            assert(f.take(a.len() as int) =~= f.take(b.len() as int).take(a.len() as int));
        } else {
            assert(b == a);
        }
    } else {
        assert(ps.take(n) =~= ps);
        assert(matching_pages(ps, id).take(matching_pages(ps, id).len() as int) =~= matching_pages(ps, id));
    }
}

/// The tree of the signature file of the entry `e` of a list at `base`.
pub open spec fn sig_tree_at(archive: Seq<u8>, base: Seq<char>, e: XmlElement) -> XmlElement {
    load_as(archive, spec_resolve(base, attr_of(e, "BaseLoc"@).unwrap()), |y: XmlElement| signature_file_outcome(y))->Ok_0.1
}

} // verus!
