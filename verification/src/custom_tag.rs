//! The custom tags of a document, `CustomTags.xml`.
use vstd::prelude::*;

verus! {

pub struct CustomTagsXmlFile {
    pub custom_tags: Option<Vec<CustomTag>>,
}

pub struct CustomTag {
    pub type_id: String,
    /// in the schema, though not in the text of the standard, so optional
    pub namespace: Option<String>,
    pub schema_loc: Option<String>,
    pub file_loc: String,
}

} // verus!
