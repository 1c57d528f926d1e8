//! The element tree of an XML document, as the parts of an OFD package are
//! read from: names, namespaces, attributes, child elements and text.
use crate::value::chars_of;
use vstd::prelude::*;

verus! {

/// An attribute of an element.
#[derive(Debug, Clone)]
pub struct XmlAttr {
    /// Namespace of the attribute; empty for an attribute without prefix.
    pub ns: String,
    pub name: String,
    pub value: String,
}

/// An element: its local name, its namespace, its attributes, its child
/// elements in document order and the text that stands directly in it.
#[derive(Debug)]
pub struct XmlElement {
    pub name: String,
    pub ns: String,
    pub attrs: Vec<XmlAttr>,
    pub children: Vec<XmlElement>,
    pub text: String,
}

/// The namespace of the elements of an OFD document.
pub const OFD_NS: &'static str = "http://www.ofdspec.org/2016";

/// The value of the first attribute without namespace named `name`.
pub open spec fn find_attr(attrs: Seq<XmlAttr>, name: Seq<char>) -> Option<Seq<char>>
    decreases attrs.len(),
{
    if attrs.len() == 0 {
        None
    } else if attrs[0].ns@.len() == 0 && attrs[0].name@ == name {
        Some(attrs[0].value@)
    } else {
        find_attr(attrs.skip(1), name)
    }
}

/// The value of the attribute `name` of `e`, as `Element::attr` finds it.
pub open spec fn attr_of(e: XmlElement, name: Seq<char>) -> Option<Seq<char>> {
    find_attr(e.attrs@, name)
}

/// The first of `cs` named `name` in the OFD namespace.
pub open spec fn find_child(cs: Seq<XmlElement>, name: Seq<char>) -> Option<XmlElement>
    decreases cs.len(),
{
    if cs.len() == 0 {
        None
    } else if cs[0].name@ == name && cs[0].ns@ == OFD_NS@ {
        Some(cs[0])
    } else {
        find_child(cs.skip(1), name)
    }
}

/// The first child of `e` named `name` in the OFD namespace, as
/// `Element::get_child` finds it.
pub open spec fn child_of(e: XmlElement, name: Seq<char>) -> Option<XmlElement> {
    find_child(e.children@, name)
}

/// The text of the first child of `e` named `name`.
pub open spec fn child_text(e: XmlElement, name: Seq<char>) -> Option<Seq<char>> {
    match child_of(e, name) {
        Some(c) => Some(c.text@),
        None => None,
    }
}

/// The children of `e` named `name`, in any namespace, in order.
pub open spec fn children_named(e: XmlElement, name: Seq<char>) -> Seq<XmlElement> {
    e.children@.filter(named(name))
}

/// Whether an element is named `name`.
pub open spec fn named(name: Seq<char>) -> spec_fn(XmlElement) -> bool {
    |c: XmlElement| c.name@ == name
}

/// Tells whether two strings hold the same characters.
pub fn str_eq(a: &str, b: &str) -> (r: bool)
    ensures
        r == (a@ == b@),
{
    let x = chars_of(a);
    let y = chars_of(b);
    if x.len() != y.len() {
        return false;
    }
    let mut i: usize = 0;
    while i < x.len()
        invariant
            x@ == a@,
            y@ == b@,
            x@.len() == y@.len(),
            i <= x@.len(),
            forall|k: int| 0 <= k < i ==> x@[k] == y@[k],
        decreases x@.len() - i,
    {
        if x[i] != y[i] {
            return false;
        }
        i = i + 1;
    }
    assert(x@ =~= y@);
    true
}

impl XmlElement {
    /// The value of the attribute `name`, as `Element::attr` finds it.
    pub fn attr(&self, name: &str) -> (r: Option<&String>)
        ensures
            match attr_of(*self, name@) {
                Some(v) => r matches Some(s) && s@ == v,
                None => r is None,
            },
    {
        let mut i: usize = 0;
        assert(self.attrs@.skip(0) =~= self.attrs@);
        while i < self.attrs.len()
            invariant
                i <= self.attrs@.len(),
                find_attr(self.attrs@, name@) == find_attr(self.attrs@.skip(i as int), name@),
            decreases self.attrs@.len() - i,
        {
            let a = &self.attrs[i];
            assert(self.attrs@.skip(i as int)[0] == self.attrs@[i as int]);
            assert(self.attrs@.skip(i as int).skip(1) =~= self.attrs@.skip(i + 1));
            if a.ns.as_str().is_empty() && str_eq(a.name.as_str(), name) {
                return Some(&a.value);
            }
            i = i + 1;
        }
        None
    }

    /// The first child named `name` in the OFD namespace, as
    /// `Element::get_child` finds it.
    pub fn get_child(&self, name: &str) -> (r: Option<&XmlElement>)
        ensures
            match child_of(*self, name@) {
                Some(c) => r matches Some(x) && *x == c,
                None => r is None,
            },
    {
        let mut i: usize = 0;
        assert(self.children@.skip(0) =~= self.children@);
        while i < self.children.len()
            invariant
                i <= self.children@.len(),
                find_child(self.children@, name@) == find_child(
                    self.children@.skip(i as int),
                    name@,
                ),
            decreases self.children@.len() - i,
        {
            let c = &self.children[i];
            assert(self.children@.skip(i as int)[0] == self.children@[i as int]);
            assert(self.children@.skip(i as int).skip(1) =~= self.children@.skip(i + 1));
            if str_eq(c.name.as_str(), name) && str_eq(c.ns.as_str(), OFD_NS) {
                return Some(c);
            }
            i = i + 1;
        }
        None
    }

    /// Tells whether the local name of the element is `name`.
    pub fn is_named(&self, name: &str) -> (r: bool)
        ensures
            r == (self.name@ == name@),
    {
        str_eq(self.name.as_str(), name)
    }
}

/// The element tree of the XML document in `data`, as minidom reads it.
pub uninterp spec fn xml_document(data: Seq<u8>) -> Option<XmlElement>;

#[verifier::external_type_specification]
#[verifier::external_body]
pub struct ExMinidomElement(minidom::Element);

/// Converts an element of minidom, with all that it holds, into the
/// library's element type: names, namespaces, attributes, child elements and
/// the direct text (`Element::text`). Nothing is stated of it; the contract
/// of `parse_xml` names the result.
#[verifier::external_body]
fn xml_element_from(e: &minidom::Element) -> XmlElement {
    XmlElement {
        name: e.name().to_string(),
        ns: e.ns(),
        attrs: e.attrs().iter().map(
            |((ns, name), value)|
                XmlAttr { ns: ns.as_str().to_string(), name: name.to_string(), value: value.clone() },
        ).collect(),
        children: e.children().map(xml_element_from).collect(),
        text: e.text(),
    }
}

/// Reads an XML document with minidom's `Element::from_reader_with_prefixes`,
/// names without a declared namespace taken in the namespace `OFD.xml`:
/// `None` where minidom refuses the data. The contract claims only that the
/// result is a function of the data, named `xml_document`.
#[verifier::external_body]
pub(crate) fn parse_xml(data: &[u8]) -> (r: Option<XmlElement>)
    ensures
        r == xml_document(data@),
{
    match minidom::Element::from_reader_with_prefixes(data, "OFD.xml".to_string()) {
        Ok(e) => Some(xml_element_from(&e)),
        Err(_) => None,
    }
}

} // verus!

verus! {

/// The height of the tree of `e`: 1 for an element without children.
pub open spec fn depth(e: XmlElement) -> nat
    decreases e, 1nat,
{
    1 + max_depth(e.children@)
}

/// The greatest height of the trees of `cs`.
pub open spec fn max_depth(cs: Seq<XmlElement>) -> nat
    decreases cs, 0nat,
{
    if cs.len() == 0 {
        0
    } else {
        let a = max_depth(cs.drop_last());
        let b = depth(cs.last());
        if a < b {
            b
        } else {
            a
        }
    }
}

proof fn lemma_max_depth(cs: Seq<XmlElement>, i: int)
    requires
        0 <= i < cs.len(),
    ensures
        depth(cs[i]) <= max_depth(cs),
    decreases cs.len(),
{
    if i < cs.len() - 1 {
        lemma_max_depth(cs.drop_last(), i);
    }
}

/// A child is lower than its parent.
pub proof fn lemma_child_depth(e: XmlElement, i: int)
    requires
        0 <= i < e.children@.len(),
    ensures
        depth(e.children@[i]) < depth(e),
{
    lemma_max_depth(e.children@, i);
}

} // verus!
