//! Building the structures of an OFD document from its element trees: the
//! conversion trait, its errors, and the readers of attributes and child
//! elements that the conversions share.
use crate::value::{
    box_parts, float_literal, float_words, is_float_literal, parse_bool, parse_i32, parse_uint,
    spec_bool, spec_int_within, spec_uint_upto, st_words, uint_words, StArray, StBox, ValueError,
};
use crate::xml::{attr_of, child_of, child_text, children_named, depth, find_child, lemma_child_depth, named, XmlElement};
use vstd::prelude::*;

verus! {

/// Conversion of a structure from (a reference to) an element.
pub trait TryFromDom<T>: Sized {
    /// The elements that hold a part that the conversion does not handle;
    /// it is not to be called on them.
    spec fn unhandled(dom: T) -> bool;

    fn try_from_dom(dom: T) -> Result<Self, TryFromDomError>
        requires
            !Self::unhandled(dom),
    ;
}

#[derive(Debug)]
pub enum TryFromDomError {
    /// no attribute named ".."
    NoSuchAttribute(String),
    /// no element named ".."
    NoSuchElement(String),
    /// the text of a value could not be read
    Warp(ValueError),
    /// element name not expected: the expected name, then the name found
    ElementNameNotExpected(String, String),
    /// the element holds a part that the conversion does not handle
    Unhandled,
}

/// What a `TryFromDomError` says, over the characters of its names.
pub enum DomFault {
    NoSuchAttribute(Seq<char>),
    NoSuchElement(Seq<char>),
    Warp(ValueError),
    ElementNameNotExpected(Seq<char>, Seq<char>),
    /// A part that the conversion does not handle: the conversions of the
    /// trait do not take such an element, the others answer
    /// `TryFromDomError::Unhandled`.
    Unimplemented,
}

impl TryFromDomError {
    pub open spec fn fault(self) -> DomFault {
        match self {
            TryFromDomError::NoSuchAttribute(n) => DomFault::NoSuchAttribute(n@),
            TryFromDomError::NoSuchElement(n) => DomFault::NoSuchElement(n@),
            TryFromDomError::Warp(v) => DomFault::Warp(v),
            TryFromDomError::ElementNameNotExpected(a, b) => DomFault::ElementNameNotExpected(
                a@,
                b@,
            ),
            TryFromDomError::Unhandled => DomFault::Unimplemented,
        }
    }
}

/// Whether a conversion succeeded, and if not, with which fault.
pub open spec fn outcome<T>(r: Result<T, TryFromDomError>) -> Result<(), DomFault> {
    match r {
        Ok(_) => Ok(()),
        Err(e) => Err(e.fault()),
    }
}

/// Whether a reading succeeded, and if not, with which fault.
pub open spec fn check<V>(r: Result<V, DomFault>) -> Result<(), DomFault> {
    match r {
        Ok(_) => Ok(()),
        Err(f) => Err(f),
    }
}

/// The first fault of two readings done in turn.
pub open spec fn then(a: Result<(), DomFault>, b: Result<(), DomFault>) -> Result<(), DomFault> {
    match a {
        Err(f) => Err(f),
        Ok(_) => b,
    }
}

/// A reading that must find its value: a missing one is the fault `f`.
pub open spec fn required<V>(r: Result<Option<V>, DomFault>, f: DomFault) -> Result<V, DomFault> {
    match r {
        Err(x) => Err(x),
        Ok(None) => Err(f),
        Ok(Some(v)) => Ok(v),
    }
}

pub open spec fn no_attr(n: Seq<char>) -> DomFault {
    DomFault::NoSuchAttribute(n)
}

pub open spec fn no_elem(n: Seq<char>) -> DomFault {
    DomFault::NoSuchElement(n)
}

pub open spec fn opt_view(o: Option<String>) -> Option<Seq<char>> {
    match o {
        Some(s) => Some(s@),
        None => None,
    }
}

pub open spec fn opt_nat_u64(o: Option<u64>) -> Option<nat> {
    match o {
        Some(v) => Some(v as nat),
        None => None,
    }
}

pub open spec fn opt_nat_u32(o: Option<u32>) -> Option<nat> {
    match o {
        Some(v) => Some(v as nat),
        None => None,
    }
}

pub open spec fn opt_nat_u8(o: Option<u8>) -> Option<nat> {
    match o {
        Some(v) => Some(v as nat),
        None => None,
    }
}

pub open spec fn opt_nat_usize(o: Option<usize>) -> Option<nat> {
    match o {
        Some(v) => Some(v as nat),
        None => None,
    }
}

// ---------------------------------------------------------------------------
// Reading a value out of an optional text
// ---------------------------------------------------------------------------

/// A text as it stands.
pub open spec fn str_of(o: Option<Seq<char>>) -> Result<Option<Seq<char>>, DomFault> {
    Ok(o)
}

/// An unsigned integer of at most `max`.
pub open spec fn uint_of(o: Option<Seq<char>>, max: int) -> Result<Option<nat>, DomFault> {
    match o {
        None => Ok(None),
        Some(s) => match spec_uint_upto(s, max) {
            Some(v) => Ok(Some(v)),
            None => Err(DomFault::Warp(ValueError::ParseInt)),
        },
    }
}

/// An `i32`.
pub open spec fn i32_of(o: Option<Seq<char>>) -> Result<Option<int>, DomFault> {
    match o {
        None => Ok(None),
        Some(s) => match spec_int_within(s, i32::MIN as int, i32::MAX as int) {
            Some(v) => Ok(Some(v)),
            None => Err(DomFault::Warp(ValueError::ParseInt)),
        },
    }
}

/// `true` or `false`.
pub open spec fn bool_of(o: Option<Seq<char>>) -> Result<Option<bool>, DomFault> {
    match o {
        None => Ok(None),
        Some(s) => match spec_bool(s) {
            Some(v) => Ok(Some(v)),
            None => Err(DomFault::Warp(ValueError::ParseBool)),
        },
    }
}

/// A float literal.
pub open spec fn float_of(o: Option<Seq<char>>) -> Result<Option<Seq<char>>, DomFault> {
    match o {
        None => Ok(None),
        Some(s) => if float_literal(s) {
            Ok(Some(s))
        } else {
            Err(DomFault::Warp(ValueError::ParseFloat))
        },
    }
}

/// The four parts of a box.
pub open spec fn box_of(o: Option<Seq<char>>) -> Result<Option<Seq<Seq<char>>>, DomFault> {
    match o {
        None => Ok(None),
        Some(s) => match box_parts(s) {
            Some(p) => Ok(Some(p)),
            None => Err(DomFault::Warp(ValueError::ParseStBox)),
        },
    }
}

/// An array of unsigned integers of at most `max`.
pub open spec fn uints_of(o: Option<Seq<char>>, max: int) -> Result<Option<Seq<nat>>, DomFault> {
    match o {
        None => Ok(None),
        Some(s) => match uint_words(s, max) {
            Some(v) => Ok(Some(v)),
            None => Err(DomFault::Warp(ValueError::ParseInt)),
        },
    }
}

/// An array of float literals.
pub open spec fn floats_of(o: Option<Seq<char>>) -> Result<Option<Seq<Seq<char>>>, DomFault> {
    match o {
        None => Ok(None),
        Some(s) => match float_words(s) {
            Some(v) => Ok(Some(v)),
            None => Err(DomFault::Warp(ValueError::ParseFloat)),
        },
    }
}

/// An array of words.
pub open spec fn words_of(o: Option<Seq<char>>) -> Result<Option<Seq<Seq<char>>>, DomFault> {
    match o {
        None => Ok(None),
        Some(s) => Ok(Some(st_words(s))),
    }
}

pub open spec fn u32s_view(a: StArray<u32>) -> Seq<nat> {
    a.0@.map_values(|v: u32| v as nat)
}

pub open spec fn u16s_view(a: StArray<u16>) -> Seq<nat> {
    a.0@.map_values(|v: u16| v as nat)
}

pub open spec fn words_view(a: StArray<String>) -> Seq<Seq<char>> {
    a.0@.map_values(|w: String| w@)
}

pub open spec fn opt_box(o: Option<StBox>) -> Option<Seq<Seq<char>>> {
    match o {
        Some(b) => Some(b.parts()),
        None => None,
    }
}

pub open spec fn opt_u32s(o: Option<StArray<u32>>) -> Option<Seq<nat>> {
    match o {
        Some(a) => Some(u32s_view(a)),
        None => None,
    }
}

pub open spec fn opt_u16s(o: Option<StArray<u16>>) -> Option<Seq<nat>> {
    match o {
        Some(a) => Some(u16s_view(a)),
        None => None,
    }
}

pub open spec fn opt_words(o: Option<StArray<String>>) -> Option<Seq<Seq<char>>> {
    match o {
        Some(a) => Some(words_view(a)),
        None => None,
    }
}

pub open spec fn view_opt_ref(o: Option<&String>) -> Option<Seq<char>> {
    match o {
        Some(s) => Some(s@),
        None => None,
    }
}

// ---------------------------------------------------------------------------
// The same readings, executed
// ---------------------------------------------------------------------------

/// The text of the first child named `name`.
pub fn child_text_of<'a>(dom: &'a XmlElement, name: &str) -> (r: Option<&'a String>)
    ensures
        view_opt_ref(r) == child_text(*dom, name@),
{
    match dom.get_child(name) {
        Some(c) => Some(&c.text),
        None => None,
    }
}

/// The value of the attribute `name`.
pub fn attr_text_of<'a>(dom: &'a XmlElement, name: &str) -> (r: Option<&'a String>)
    ensures
        view_opt_ref(r) == attr_of(*dom, name@),
{
    dom.attr(name)
}

pub fn read_str(o: Option<&String>) -> (r: Result<Option<String>, TryFromDomError>)
    ensures
        r matches Ok(v) && opt_view(v) == view_opt_ref(o),
{
    match o {
        Some(s) => Ok(Some(s.clone())),
        None => Ok(None),
    }
}

pub fn read_uint(o: Option<&String>, max: u64) -> (r: Result<Option<u64>, TryFromDomError>)
    ensures
        match uint_of(view_opt_ref(o), max as int) {
            Ok(v) => r matches Ok(x) && opt_nat_u64(x) == v,
            Err(f) => r matches Err(e) && e.fault() == f,
        },
        r matches Ok(Some(x)) ==> x <= max,
{
    match o {
        None => Ok(None),
        Some(s) => match parse_uint(s.as_str(), max) {
            Some(v) => Ok(Some(v)),
            None => Err(TryFromDomError::Warp(ValueError::ParseInt)),
        },
    }
}

pub fn read_u32(o: Option<&String>) -> (r: Result<Option<u32>, TryFromDomError>)
    ensures
        match uint_of(view_opt_ref(o), u32::MAX as int) {
            Ok(v) => r matches Ok(x) && opt_nat_u32(x) == v,
            Err(f) => r matches Err(e) && e.fault() == f,
        },
{
    match read_uint(o, u32::MAX as u64) {
        Ok(Some(v)) => Ok(Some(v as u32)),
        Ok(None) => Ok(None),
        Err(e) => Err(e),
    }
}

pub fn read_u8(o: Option<&String>) -> (r: Result<Option<u8>, TryFromDomError>)
    ensures
        match uint_of(view_opt_ref(o), u8::MAX as int) {
            Ok(v) => r matches Ok(x) && opt_nat_u8(x) == v,
            Err(f) => r matches Err(e) && e.fault() == f,
        },
{
    match read_uint(o, u8::MAX as u64) {
        Ok(Some(v)) => Ok(Some(v as u8)),
        Ok(None) => Ok(None),
        Err(e) => Err(e),
    }
}

pub fn read_usize(o: Option<&String>) -> (r: Result<Option<usize>, TryFromDomError>)
    ensures
        match uint_of(view_opt_ref(o), usize::MAX as int) {
            Ok(v) => r matches Ok(x) && opt_nat_usize(x) == v,
            Err(f) => r matches Err(e) && e.fault() == f,
        },
{
    match read_uint(o, usize::MAX as u64) {
        Ok(Some(v)) => Ok(Some(v as usize)),
        Ok(None) => Ok(None),
        Err(e) => Err(e),
    }
}

pub fn read_i32(o: Option<&String>) -> (r: Result<Option<i32>, TryFromDomError>)
    ensures
        match i32_of(view_opt_ref(o)) {
            Ok(Some(v)) => r == Ok::<Option<i32>, TryFromDomError>(Some(v as i32)),
            Ok(None) => r == Ok::<Option<i32>, TryFromDomError>(None),
            Err(f) => r matches Err(e) && e.fault() == f,
        },
{
    match o {
        None => Ok(None),
        Some(s) => match parse_i32(s.as_str()) {
            Some(v) => Ok(Some(v)),
            None => Err(TryFromDomError::Warp(ValueError::ParseInt)),
        },
    }
}

pub fn read_bool(o: Option<&String>) -> (r: Result<Option<bool>, TryFromDomError>)
    ensures
        match bool_of(view_opt_ref(o)) {
            Ok(v) => r == Ok::<Option<bool>, TryFromDomError>(v),
            Err(f) => r matches Err(e) && e.fault() == f,
        },
{
    match o {
        None => Ok(None),
        Some(s) => match parse_bool(s.as_str()) {
            Some(v) => Ok(Some(v)),
            None => Err(TryFromDomError::Warp(ValueError::ParseBool)),
        },
    }
}

pub fn read_float(o: Option<&String>) -> (r: Result<Option<String>, TryFromDomError>)
    ensures
        match float_of(view_opt_ref(o)) {
            Ok(v) => r matches Ok(x) && opt_view(x) == v,
            Err(f) => r matches Err(e) && e.fault() == f,
        },
{
    match o {
        None => Ok(None),
        Some(s) => if is_float_literal(s.as_str()) {
            Ok(Some(s.clone()))
        } else {
            Err(TryFromDomError::Warp(ValueError::ParseFloat))
        },
    }
}

pub fn read_box(o: Option<&String>) -> (r: Result<Option<StBox>, TryFromDomError>)
    ensures
        match box_of(view_opt_ref(o)) {
            Ok(v) => r matches Ok(x) && opt_box(x) == v,
            Err(f) => r matches Err(e) && e.fault() == f,
        },
{
    match o {
        None => Ok(None),
        Some(s) => match StBox::from_str(s.as_str()) {
            Ok(b) => Ok(Some(b)),
            Err(_) => Err(TryFromDomError::Warp(ValueError::ParseStBox)),
        },
    }
}

pub fn read_u32s(o: Option<&String>) -> (r: Result<Option<StArray<u32>>, TryFromDomError>)
    ensures
        match uints_of(view_opt_ref(o), u32::MAX as int) {
            Ok(v) => r matches Ok(x) && opt_u32s(x) == v,
            Err(f) => r matches Err(e) && e.fault() == f,
        },
{
    match o {
        None => Ok(None),
        Some(s) => match StArray::<u32>::from_str(s.as_str()) {
            Ok(a) => {
                assert(u32s_view(a) =~= uint_words(s@, u32::MAX as int).unwrap());
                Ok(Some(a))
            },
            Err(_) => Err(TryFromDomError::Warp(ValueError::ParseInt)),
        },
    }
}

pub fn read_u16s(o: Option<&String>) -> (r: Result<Option<StArray<u16>>, TryFromDomError>)
    ensures
        match uints_of(view_opt_ref(o), u16::MAX as int) {
            Ok(v) => r matches Ok(x) && opt_u16s(x) == v,
            Err(f) => r matches Err(e) && e.fault() == f,
        },
{
    match o {
        None => Ok(None),
        Some(s) => match StArray::<u16>::from_str(s.as_str()) {
            Ok(a) => {
                assert(u16s_view(a) =~= uint_words(s@, u16::MAX as int).unwrap());
                Ok(Some(a))
            },
            Err(_) => Err(TryFromDomError::Warp(ValueError::ParseInt)),
        },
    }
}

pub fn read_floats(o: Option<&String>) -> (r: Result<Option<StArray<String>>, TryFromDomError>)
    ensures
        match floats_of(view_opt_ref(o)) {
            Ok(v) => r matches Ok(x) && opt_words(x) == v,
            Err(f) => r matches Err(e) && e.fault() == f,
        },
{
    match o {
        None => Ok(None),
        Some(s) => match StArray::<String>::floats_from_str(s.as_str()) {
            Ok(a) => {
                assert(words_view(a) =~= float_words(s@).unwrap());
                Ok(Some(a))
            },
            Err(_) => Err(TryFromDomError::Warp(ValueError::ParseFloat)),
        },
    }
}

pub fn read_words(o: Option<&String>) -> (r: Result<Option<StArray<String>>, TryFromDomError>)
    ensures
        match words_of(view_opt_ref(o)) {
            Ok(v) => r matches Ok(x) && opt_words(x) == v,
            Err(f) => r matches Err(e) && e.fault() == f,
        },
{
    match o {
        None => Ok(None),
        Some(s) => {
            let a = StArray::<String>::from_str(s.as_str());
            assert(words_view(a) =~= st_words(s@));
            Ok(Some(a))
        },
    }
}

/// A value that must be there: a missing attribute is an error.
pub fn req_attr<V>(r: Result<Option<V>, TryFromDomError>, name: &str) -> (x: Result<V, TryFromDomError>)
    ensures
        match r {
            Err(e) => x == Err::<V, TryFromDomError>(e),
            Ok(None) => x matches Err(e) && e.fault() == no_attr(name@),
            Ok(Some(v)) => x == Ok::<V, TryFromDomError>(v),
        },
{
    match r {
        Err(e) => Err(e),
        Ok(None) => Err(TryFromDomError::NoSuchAttribute(name.to_owned())),
        Ok(Some(v)) => Ok(v),
    }
}

/// A value that must be there: a missing element is an error.
pub fn req_elem<V>(r: Result<Option<V>, TryFromDomError>, name: &str) -> (x: Result<V, TryFromDomError>)
    ensures
        match r {
            Err(e) => x == Err::<V, TryFromDomError>(e),
            Ok(None) => x matches Err(e) && e.fault() == no_elem(name@),
            Ok(Some(v)) => x == Ok::<V, TryFromDomError>(v),
        },
{
    match r {
        Err(e) => Err(e),
        Ok(None) => Err(TryFromDomError::NoSuchElement(name.to_owned())),
        Ok(Some(v)) => Ok(v),
    }
}

/// The error of an element whose name is not the expected one.
pub fn name_not_expected(expected: &str, got: &String) -> (e: TryFromDomError)
    ensures
        e.fault() == DomFault::ElementNameNotExpected(expected@, got@),
{
    TryFromDomError::ElementNameNotExpected(expected.to_owned(), got.clone())
}

/// The first fault of `f` over the elements of `cs`, in order.
pub open spec fn all_ok(
    cs: Seq<XmlElement>,
    f: spec_fn(XmlElement) -> Result<(), DomFault>,
) -> Result<(), DomFault>
    decreases cs.len(),
{
    if cs.len() == 0 {
        Ok(())
    } else {
        then(all_ok(cs.drop_last(), f), f(cs.last()))
    }
}

/// At least one child, all of them.
pub open spec fn nonempty_all_ok(
    e: XmlElement,
    f: spec_fn(XmlElement) -> Result<(), DomFault>,
) -> Result<(), DomFault> {
    match all_ok(e.children@, f) {
        Err(x) => Err(x),
        Ok(_) => if e.children@.len() == 0 {
            Err(no_elem("$value"@))
        } else {
            Ok(())
        },
    }
}

/// A fault in a prefix is the fault of the whole.
pub proof fn lemma_all_ok_prefix(
    cs: Seq<XmlElement>,
    f: spec_fn(XmlElement) -> Result<(), DomFault>,
    n: int,
)
    requires
        0 <= n <= cs.len(),
        all_ok(cs.take(n), f) is Err,
    ensures
        all_ok(cs, f) == all_ok(cs.take(n), f),
    decreases cs.len() - n,
{
    if n < cs.len() {
        assert(cs.take(n + 1).drop_last() =~= cs.take(n));
        lemma_all_ok_prefix(cs, f, n + 1);
    } else {
        assert(cs.take(n) =~= cs);
    }
}

proof fn lemma_find_child_in(cs: Seq<XmlElement>, n: Seq<char>)
    ensures
        find_child(cs, n) matches Some(c) ==> exists|i: int| 0 <= i < cs.len() && cs[i] == c,
    decreases cs.len(),
{
    if cs.len() > 0 {
        lemma_find_child_in(cs.skip(1), n);
        if find_child(cs, n) is Some && !(cs[0].name@ == n && cs[0].ns@ == crate::xml::OFD_NS@) {
            let c = find_child(cs, n).unwrap();
            let i = choose|i: int| 0 <= i < cs.skip(1).len() && cs.skip(1)[i] == c;
            assert(cs[i + 1] == c);
        }
    }
}

/// A child found by name is lower than its parent.
pub proof fn lemma_child_of_depth(e: XmlElement, n: Seq<char>)
    ensures
        child_of(e, n) matches Some(c) ==> depth(c) < depth(e),
{
    lemma_find_child_in(e.children@, n);
    if child_of(e, n) is Some {
        let c = child_of(e, n).unwrap();
        let i = choose|i: int| 0 <= i < e.children@.len() && e.children@[i] == c;
        lemma_child_depth(e, i);
    }
}

/// The children named `name` are lower than their parent.
pub proof fn lemma_named_depth(e: XmlElement, n: Seq<char>)
    ensures
        forall|k: int|
            0 <= k < children_named(e, n).len() ==> depth(#[trigger] children_named(e, n)[k])
                < depth(e),
{
    let f = named(n);
    assert forall|k: int| 0 <= k < children_named(e, n).len() implies depth(
        #[trigger] children_named(e, n)[k],
    ) < depth(e) by {
        assert(e.children@.filter(f).contains(e.children@.filter(f)[k]));
        e.children@.lemma_filter_contains_rev(f, e.children@.filter(f)[k]);
        let i = choose|i: int| 0 <= i < e.children@.len() && e.children@[i] == e.children@.filter(
            f,
        )[k];
        lemma_child_depth(e, i);
    }
}

/// The positions of the children named `name`, in order.
pub fn named_children(dom: &XmlElement, name: &str) -> (r: Vec<usize>)
    ensures
        r@.len() == children_named(*dom, name@).len(),
        forall|k: int|
            0 <= k < r@.len() ==> (#[trigger] r@[k]) < dom.children@.len()
                && dom.children@[r@[k] as int] == children_named(*dom, name@)[k],
{
    let ghost f = named(name@);
    let ghost cs = dom.children@;
    let mut out: Vec<usize> = Vec::new();
    let mut j: usize = 0;
    proof {
        reveal(Seq::filter);
        assert(cs.take(0) =~= Seq::<XmlElement>::empty());
    }
    while j < dom.children.len()
        invariant
            j <= cs.len(),
            cs == dom.children@,
            f == named(name@),
            out@.len() == cs.take(j as int).filter(f).len(),
            forall|k: int|
                0 <= k < out@.len() ==> (#[trigger] out@[k]) < cs.len() && cs[out@[k] as int]
                    == cs.take(j as int).filter(f)[k],
        decreases cs.len() - j,
    {
        proof {
            reveal(Seq::filter);
            assert(cs.take(j + 1).drop_last() =~= cs.take(j as int));
            assert(cs.take(j + 1).last() == cs[j as int]);
        }
        if dom.children[j].is_named(name) {
            out.push(j);
        }
        j = j + 1;
    }
    assert(cs.take(j as int) =~= cs);
    out
}

} // verus!
