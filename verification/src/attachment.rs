//! The attachments of a document, `Attachments.xml`.
use vstd::prelude::*;

verus! {

pub struct AttachmentsXmlFile {
    pub attachments: Option<Vec<Attachment>>,
}

/// An attachment; its dates are kept as written, its size (a float) as its
/// literal.
pub struct Attachment {
    pub id: String,
    pub name: String,
    pub format: Option<String>,
    pub creation_date: Option<String>,
    pub mod_date: Option<String>,
    pub size: Option<String>,
    /// default `true`
    pub visible: Option<bool>,
    /// default `none`
    pub usage: Option<String>,
    pub file_loc: String,
}

} // verus!
