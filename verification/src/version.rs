//! A version of a document, `Version.xml`.
use crate::ofd_file::NaiveDate;
use vstd::prelude::*;

verus! {

pub struct VersionXmlFile {
    pub id: String,
    pub version: Option<String>,
    pub name: Option<String>,
    pub creation_date: Option<NaiveDate>,
    pub file_list: FileList,
    pub doc_root: String,
}

pub struct FileList {
    pub files: Vec<File>,
}

pub struct File {
    pub id: String,
    pub path: String,
}

} // verus!
