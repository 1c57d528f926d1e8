//! A summary of an OFD package: its documents with their pages and
//! templates, and the items of its archive.
use crate::container::{
    doc_outcome, doc_pages, doc_templates, entry_outcome, from_bytes, zip_lookup, zip_names, Error, Ofd,
    OfdFault,
};
use crate::xml::{child_of, child_text, XmlElement};
use vstd::prelude::*;

verus! {

#[derive(Debug)]
pub struct OfdInfo {
    /// how many doc this ofd contains
    pub doc_count: usize,
    /// infos for each doc
    pub doc_info: Vec<DocInfo>,
    pub item_names: Vec<String>,
}

#[derive(Debug)]
pub struct DocInfo {
    /// doc id
    pub doc_id: Option<String>,
    /// how many page this doc have
    pub page_count: usize,
    /// how many template page this doc have
    pub template_count: usize,
}

/// The identifier of a document as a table shows it: empty where it has none.
pub fn fmt_doc_id(doc_id: &Option<String>) -> (r: String)
    ensures
        match doc_id {
            Some(v) => r@ == v@,
            None => r@ == Seq::<char>::empty(),
        },
{
    match doc_id {
        Some(v) => v.clone(),
        None => String::new(),
    }
}

/// The numbers of pages and of template pages of the first `k` documents.
pub open spec fn docs_run(archive: Seq<u8>, k: nat) -> Result<Seq<(nat, nat)>, OfdFault>
    decreases k,
{
    if k == 0 {
        Ok(Seq::empty())
    } else {
        match docs_run(archive, (k - 1) as nat) {
            Err(f) => Err(f),
            Ok(v) => match doc_outcome(archive, k - 1) {
                Err(f) => Err(f),
                Ok((_, x)) => Ok(v.push((doc_pages(x).len(), doc_templates(x).len()))),
            },
        }
    }
}

/// The identifier that the body of a document in the entry gives.
pub open spec fn body_doc_id(body: XmlElement) -> Option<Seq<char>> {
    child_text(child_of(body, "DocInfo"@).unwrap(), "DocID"@)
}

pub open spec fn opt_str(o: Option<String>) -> Option<Seq<char>> {
    match o {
        Some(s) => Some(s@),
        None => None,
    }
}

proof fn lemma_docs_prefix(archive: Seq<u8>, k: nat, n: nat)
    requires
        k <= n,
        docs_run(archive, k) is Err,
    ensures
        docs_run(archive, n) == docs_run(archive, k),
    decreases n - k,
{
    if k < n {
        lemma_docs_prefix(archive, k, (n - 1) as nat);
    }
}

/// A summary of the package whose archive is `data`.
pub fn get_info(data: &[u8]) -> (r: Result<OfdInfo, Error>)
    ensures
        match zip_lookup(data@, "OFD.xml"@) {
            None => r matches Err(e) && e.fault() == OfdFault::Zip,
            Some(false) => r matches Err(e) && e.fault() == OfdFault::EntryNotFound,
            Some(true) => match entry_outcome(data@) {
                Err(f) => r matches Err(e) && e.fault() == f,
                Ok((_, x)) => match docs_run(data@, x.children@.len()) {
                    Err(f) => r matches Err(e) && e.fault() == f,
                    Ok(counts) => r matches Ok(info) && {
                        &&& info.doc_count == x.children@.len()
                        &&& info.doc_info@.len() == counts.len()
                        &&& forall|i: int|
                            0 <= i < counts.len() ==> opt_str((#[trigger] info.doc_info@[i]).doc_id)
                                == body_doc_id(x.children@[i]) && info.doc_info@[i].page_count
                                == counts[i].0 && info.doc_info@[i].template_count == counts[i].1
                        &&& match zip_names(data@) {
                            Some(ns) => info.item_names@.map_values(|s: String| s@) == ns,
                            None => info.item_names@.len() == 0,
                        }
                    },
                },
            },
        },
{
    proof {
        reveal(crate::container::load_as);
    }
    let container = from_bytes(data)?;
    let ghost archive = container.archive();
    let xml = container.entry()?.content;
    let ghost ex = crate::container::ok_tree(entry_outcome(archive));
    let doc_count = xml.doc_body.len();
    let mut doc_info: Vec<DocInfo> = Vec::new();
    let ghost mut runs: Seq<(nat, nat)> = Seq::empty();
    let mut idx: usize = 0;
    while idx < doc_count
        invariant
            archive == container.archive(),
            archive == data@,
            zip_lookup(data@, "OFD.xml"@) == Some(true),
            entry_outcome(archive) is Ok,
            ex == crate::container::ok_tree(entry_outcome(archive)),
            idx <= doc_count == xml.doc_body@.len() == ex.children@.len(),
            xml.read_from(ex),
            docs_run(archive, idx as nat) == Ok::<Seq<(nat, nat)>, OfdFault>(runs),
            runs.len() == idx,
            doc_info@.len() == idx,
            forall|i: int|
                0 <= i < idx ==> opt_str((#[trigger] doc_info@[i]).doc_id) == body_doc_id(
                    ex.children@[i],
                ) && doc_info@[i].page_count == runs[i].0 && doc_info@[i].template_count
                    == runs[i].1,
        decreases doc_count - idx,
    {
        let ele = &xml.doc_body[idx];
        assert(ele.read_from(ex.children@[idx as int]));
        let doc_id = match &ele.doc_info.doc_id {
            Some(v) => Some(v.clone()),
            None => None,
        };
        let doc = match container.document_by_index(idx) {
            Ok(d) => d.content,
            Err(e) => {
                proof {
                    lemma_docs_prefix(archive, (idx + 1) as nat, doc_count as nat);
                }
                return Err(e);
            },
        };
        let ghost dx = crate::container::ok_tree(doc_outcome(archive, idx as int));
        let page_count = doc.pages.page.len();
        let template_count = match &doc.common_data.template_page {
            Some(v) => v.len(),
            None => 0,
        };
        proof {
            assert(page_count == doc_pages(dx).len());
            assert(template_count == doc_templates(dx).len());
            assert(docs_run(archive, (idx + 1) as nat) == Ok::<Seq<(nat, nat)>, OfdFault>(
                runs.push((page_count as nat, template_count as nat)),
            ));
            assert(opt_str(doc_id) == body_doc_id(ex.children@[idx as int]));
        }
        let ghost old_info = doc_info@;
        let ghost old_runs = runs;
        doc_info.push(DocInfo { doc_id, page_count, template_count });
        proof {
            runs = runs.push((page_count as nat, template_count as nat));
            assert forall|i: int| 0 <= i < idx + 1 implies opt_str((#[trigger] doc_info@[i]).doc_id)
                == body_doc_id(ex.children@[i]) && doc_info@[i].page_count == runs[i].0
                && doc_info@[i].template_count == runs[i].1 by {
                if i < idx {
                    assert(doc_info@[i] == old_info[i]);
                    assert(runs[i] == old_runs[i]);
                }
            }
        }
        idx = idx + 1;
    }
    let item_names = container.item_names();
    assert(docs_run(archive, ex.children@.len()) == Ok::<Seq<(nat, nat)>, OfdFault>(runs));
    Ok(OfdInfo { doc_count, doc_info, item_names })
}

/// The number of documents of the package.
pub fn get_doc_count(container: &Ofd) -> (r: Result<usize, Error>)
    ensures
        match entry_outcome(container.archive()) {
            Err(f) => r matches Err(e) && e.fault() == f,
            Ok((_, x)) => r matches Ok(n) && n == x.children@.len(),
        },
{
    let item = container.entry()?;
    Ok(item.content.doc_body.len())
}

/// The number of pages of the document `doc_index`.
pub fn get_page_count(container: &Ofd, doc_index: usize) -> (r: Result<usize, Error>)
    ensures
        match doc_outcome(container.archive(), doc_index as int) {
            Err(f) => r matches Err(e) && e.fault() == f,
            Ok((_, x)) => r matches Ok(n) && n == doc_pages(x).len(),
        },
{
    proof {
        reveal(crate::container::load_as);
    }
    let doc = container.document_by_index(doc_index)?;
    Ok(doc.content.pages.page.len())
}

} // verus!
