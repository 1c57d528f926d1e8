//! The extensions of a document, `Extensions.xml`.
use vstd::prelude::*;

verus! {

pub struct ExtensionXmlFile {
    pub extensions: Option<Vec<Extension>>,
}

/// An extension; its date is kept as written.
pub struct Extension {
    pub app_name: String,
    pub company: Option<String>,
    pub app_version: Option<String>,
    pub date: Option<String>,
    pub ref_id: u64,
    pub props: Vec<Prop>,
}

pub enum Prop {
    Property { name: String, typ: Option<String>, value: String },
    Data(),
    ExtendData(String),
}

} // verus!
