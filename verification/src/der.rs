//! A lenient reader of BER/DER tag-length-value items.
//!
//! The reader splits a byte string into a sequence of items, and the content
//! of every `SEQUENCE` or `SET` into its own items, recursively.
use crate::error::Error;
use vstd::prelude::*;

verus! {

#[derive(Debug, PartialEq, Eq, Structural, Clone, Copy)]
pub enum TagClass {
    Universal,
    Application,
    ContextSpecific,
    Private,
}

#[derive(Debug, PartialEq, Eq, Structural, Clone, Copy)]
pub enum Tag {
    Integer,
    BitString,
    OctetString,
    Null,
    ObjectIdentifier,
    UTF8String,
    Sequence,
    SetOf,
    PrintableString,
    IA5String,
    UTCTime,
    GeneralizedTime,
    Other(u8),
}

#[derive(Debug)]
pub struct Tlv {
    pub tag_class: TagClass,
    pub tag: Tag,
    pub length: usize,
    pub value: Value,
}

#[derive(Debug)]
pub enum Value {
    Primitive(Vec<u8>),
    Nested(Vec<Tlv>),
}

#[derive(Debug)]
pub enum DerFragment {
    Empty,
    Single(Tlv),
    Multiple(Vec<Tlv>),
}

// ---------------------------------------------------------------------------
// Mathematical model
// ---------------------------------------------------------------------------

/// What a value holds: the content bytes of a primitive item, or the items
/// nested in a constructed one.
pub enum SpecValue {
    Primitive(Seq<u8>),
    Nested(Seq<SpecTlv>),
}

pub struct SpecTlv {
    pub tag_class: TagClass,
    pub tag: Tag,
    pub length: nat,
    pub value: SpecValue,
}

pub open spec fn tlv_view(t: Tlv) -> SpecTlv
    decreases t,
{
    SpecTlv { tag_class: t.tag_class, tag: t.tag, length: t.length as nat, value: value_view(t.value) }
}

pub open spec fn value_view(v: Value) -> SpecValue
    decreases v,
{
    match v {
        Value::Primitive(b) => SpecValue::Primitive(b@),
        Value::Nested(items) => SpecValue::Nested(tlvs_view(items@)),
    }
}

pub open spec fn tlvs_view(s: Seq<Tlv>) -> Seq<SpecTlv>
    decreases s,
{
    if s.len() == 0 {
        Seq::empty()
    } else {
        proof {
            assert(decreases_to!(s => s.subrange(0, s.len() - 1)));
        }
        tlvs_view(s.subrange(0, s.len() - 1)).push(tlv_view(s[s.len() - 1]))
    }
}

impl View for Tlv {
    type V = SpecTlv;

    open spec fn view(&self) -> SpecTlv {
        tlv_view(*self)
    }
}

impl View for Value {
    type V = SpecValue;

    open spec fn view(&self) -> SpecValue {
        value_view(*self)
    }
}

impl DerFragment {
    /// The items that the fragment holds, in order.
    pub open spec fn items(self) -> Seq<SpecTlv> {
        match self {
            DerFragment::Empty => Seq::empty(),
            DerFragment::Single(t) => seq![tlv_view(t)],
            DerFragment::Multiple(v) => tlvs_view(v@),
        }
    }

    /// `Multiple` is used for two items or more only.
    pub open spec fn wf(self) -> bool {
        match self {
            DerFragment::Multiple(v) => v@.len() >= 2,
            _ => true,
        }
    }
}

pub open spec fn spec_tag_class(b: u8) -> TagClass {
    let c = b / 64;
    if c == 0 {
        TagClass::Universal
    } else if c == 1 {
        TagClass::Application
    } else if c == 2 {
        TagClass::ContextSpecific
    } else {
        TagClass::Private
    }
}

/// The tag of an identifier octet, read from its low six bits (the number
/// and the constructed flag).
pub open spec fn spec_tag(b: u8) -> Tag {
    let t = (b % 64) as u8;
    if t == 0x02 {
        Tag::Integer
    } else if t == 0x03 {
        Tag::BitString
    } else if t == 0x04 {
        Tag::OctetString
    } else if t == 0x05 {
        Tag::Null
    } else if t == 0x06 {
        Tag::ObjectIdentifier
    } else if t == 0x0c {
        Tag::UTF8String
    } else if t == 0x30 {
        Tag::Sequence
    } else if t == 0x31 {
        Tag::SetOf
    } else if t == 0x13 {
        Tag::PrintableString
    } else if t == 0x16 {
        Tag::IA5String
    } else if t == 0x17 {
        Tag::UTCTime
    } else if t == 0x18 {
        Tag::GeneralizedTime
    } else {
        Tag::Other(t)
    }
}

/// Big-endian value of a byte string.
pub open spec fn spec_be(s: Seq<u8>) -> nat
    decreases s.len(),
{
    if s.len() == 0 {
        0
    } else {
        spec_be(s.subrange(0, s.len() - 1)) * 256 + s[s.len() - 1] as nat
    }
}

/// The largest length that a buffer can be allocated for.
pub open spec fn max_alloc() -> nat {
    0x7fff_ffff_ffff_ffff
}

/// Outcome of reading the header (identifier and length octets) of an item.
pub enum HeaderOutcome {
    /// The header takes `header_len` bytes and announces `content_len` bytes.
    Header(nat, nat),
    /// The data ends inside the header.
    IoFailure,
    /// The length is announced in more than 8 octets.
    TooLong,
}

pub open spec fn spec_header(data: Seq<u8>) -> HeaderOutcome
    recommends
        data.len() >= 1,
{
    if data.len() < 2 {
        HeaderOutcome::IoFailure
    } else if data[1] >= 128 {
        let c = data[1] - 128;
        if c > 8 {
            HeaderOutcome::TooLong
        } else if data.len() < 2 + c {
            HeaderOutcome::IoFailure
        } else {
            HeaderOutcome::Header((2 + c) as nat, spec_be(data.subrange(2, 2 + c)))
        }
    } else {
        HeaderOutcome::Header(2, data[1] as nat)
    }
}

/// Outcome of reading a byte string as a sequence of items.
pub enum ParseOutcome {
    Parsed(Seq<SpecTlv>),
    /// The data ends inside an item.
    IoFailure,
    /// A `SEQUENCE` or `SET` has an empty content.
    ConvertFailure,
    /// A length is announced in more than 8 octets, or is too large to be
    /// allocated: the reader does not handle such data.
    TooLong,
}

/// Outcome of reading the first item of a byte string.
pub enum FirstOutcome {
    /// The item, and the number of bytes it takes.
    Item(SpecTlv, nat),
    IoFailure,
    ConvertFailure,
    TooLong,
}

pub open spec fn is_constructed_tag(t: Tag) -> bool {
    t == Tag::Sequence || t == Tag::SetOf
}

pub open spec fn spec_first(data: Seq<u8>) -> FirstOutcome
    recommends
        data.len() >= 1,
    decreases data.len(), 0nat,
{
    if data.len() == 0 {
        FirstOutcome::IoFailure
    } else {
        match spec_header(data) {
            HeaderOutcome::IoFailure => FirstOutcome::IoFailure,
            HeaderOutcome::TooLong => FirstOutcome::TooLong,
            HeaderOutcome::Header(h, len) => {
                if len > max_alloc() {
                    FirstOutcome::TooLong
                } else if h + len > data.len() {
                    FirstOutcome::IoFailure
                } else {
                    let content = data.subrange(h as int, (h + len) as int);
                    let tag = spec_tag(data[0]);
                    let class = spec_tag_class(data[0]);
                    if is_constructed_tag(tag) {
                        match spec_parse_tlvs(content) {
                            ParseOutcome::Parsed(items) => {
                                if items.len() == 0 {
                                    FirstOutcome::ConvertFailure
                                } else {
                                    FirstOutcome::Item(
                                        SpecTlv {
                                            tag_class: class,
                                            tag,
                                            length: len,
                                            value: SpecValue::Nested(items),
                                        },
                                        h + len,
                                    )
                                }
                            },
                            ParseOutcome::IoFailure => FirstOutcome::IoFailure,
                            ParseOutcome::ConvertFailure => FirstOutcome::ConvertFailure,
                            ParseOutcome::TooLong => FirstOutcome::TooLong,
                        }
                    } else {
                        FirstOutcome::Item(
                            SpecTlv {
                                tag_class: class,
                                tag,
                                length: len,
                                value: SpecValue::Primitive(content),
                            },
                            h + len,
                        )
                    }
                }
            },
        }
    }
}

/// The items that `data` holds one after another, each `SEQUENCE` and `SET`
/// read into its nested items.
pub open spec fn spec_parse_tlvs(data: Seq<u8>) -> ParseOutcome
    decreases data.len(), 1nat,
{
    if data.len() == 0 {
        ParseOutcome::Parsed(Seq::empty())
    } else {
        match spec_first(data) {
            FirstOutcome::Item(t, n) => {
                if 0 < n <= data.len() {
                    match spec_parse_tlvs(data.subrange(n as int, data.len() as int)) {
                        ParseOutcome::Parsed(rest) => ParseOutcome::Parsed(seq![t] + rest),
                        other => other,
                    }
                } else {
                    ParseOutcome::IoFailure
                }
            },
            FirstOutcome::IoFailure => ParseOutcome::IoFailure,
            FirstOutcome::ConvertFailure => ParseOutcome::ConvertFailure,
            FirstOutcome::TooLong => ParseOutcome::TooLong,
        }
    }
}

/// The data can be handed to the reader: no length in it is announced in
/// more than 8 octets or is too large to allocate.
pub open spec fn readable(data: Seq<u8>) -> bool {
    !(spec_parse_tlvs(data) is TooLong)
}

/// The header of the first item follows the distinguished encoding rules:
/// a one-octet identifier and a length in the fewest octets (at most four).
pub open spec fn canonical_header(data: Seq<u8>) -> bool {
    &&& data.len() >= 2
    &&& data[0] % 32 != 31
    &&& (data[1] < 128 || (129 <= data[1] <= 132 && data.len() >= data[1] - 126 && (if data[1]
        == 129 {
        data[2] >= 128
    } else {
        data[2] != 0
    })))
}

pub open spec fn strict_first(data: Seq<u8>) -> bool
    decreases data.len(), 0nat,
{
    &&& canonical_header(data)
    &&& match spec_header(data) {
        HeaderOutcome::Header(h, len) => h + len <= data.len() && (is_constructed_tag(
            spec_tag(data[0]),
        ) ==> strict_items(data.subrange(h as int, (h + len) as int))),
        _ => false,
    }
}

/// Every item of `data`, and every item nested in it, has a canonical header.
pub open spec fn strict_items(data: Seq<u8>) -> bool
    decreases data.len(), 1nat,
{
    if data.len() == 0 {
        true
    } else {
        &&& strict_first(data)
        &&& match spec_header(data) {
            HeaderOutcome::Header(h, len) => 0 < h + len <= data.len() && strict_items(
                data.subrange((h + len) as int, data.len() as int),
            ),
            _ => false,
        }
    }
}

/// The shape of an item that the reader gives: exactly the `SEQUENCE` and
/// `SET` items nest items, at least one, read from exactly as many bytes as
/// the item's length says; a primitive item holds as many bytes as its
/// length says; no length is too large to allocate.
pub open spec fn parsed_shape(t: SpecTlv) -> bool
    decreases t,
{
    &&& t.length <= max_alloc()
    &&& match t.value {
        SpecValue::Primitive(b) => !is_constructed_tag(t.tag) && b.len() == t.length,
        SpecValue::Nested(items) => {
            proof {
                assert(decreases_to!(t => items)) by {
                    assert(decreases_to!(t => t.value));
                    assert(decreases_to!(t.value => t.value->Nested_0));
                };
            }
            &&& is_constructed_tag(t.tag)
            &&& items.len() > 0
            &&& exists|c: Seq<u8>|
                c.len() == t.length && #[trigger] spec_parse_tlvs(c) == ParseOutcome::Parsed(items)
            &&& all_parsed_shape(items)
        },
    }
}

pub open spec fn all_parsed_shape(s: Seq<SpecTlv>) -> bool
    decreases s,
{
    if s.len() == 0 {
        true
    } else {
        parsed_shape(s[0]) && all_parsed_shape(s.subrange(1, s.len() as int))
    }
}

// ---------------------------------------------------------------------------
// Lemmas
// ---------------------------------------------------------------------------

proof fn lemma_tlvs_view_push(s: Seq<Tlv>, t: Tlv)
    ensures
        tlvs_view(s.push(t)) == tlvs_view(s).push(tlv_view(t)),
{
    assert(s.push(t).subrange(0, s.len() as int) =~= s);
}

/// The view of a list of items is the list of their views.
pub proof fn lemma_tlvs_view_index(s: Seq<Tlv>)
    ensures
        tlvs_view(s).len() == s.len(),
        forall|i: int| 0 <= i < s.len() ==> #[trigger] tlvs_view(s)[i] == tlv_view(s[i]),
    decreases s.len(),
{
    if s.len() > 0 {
        let p = s.subrange(0, s.len() - 1);
        lemma_tlvs_view_index(p);
        assert forall|i: int| 0 <= i < s.len() implies #[trigger] tlvs_view(s)[i] == tlv_view(
            s[i],
        ) by {
            if i < s.len() - 1 {
                assert(p[i] == s[i]);
            }
        }
    }
}

proof fn lemma_tlvs_view_len(s: Seq<Tlv>)
    ensures
        tlvs_view(s).len() == s.len(),
    decreases s.len(),
{
    if s.len() > 0 {
        lemma_tlvs_view_len(s.subrange(0, s.len() - 1));
    }
}

proof fn lemma_spec_be_push(s: Seq<u8>, b: u8)
    ensures
        spec_be(s.push(b)) == spec_be(s) * 256 + b,
{
    assert(s.push(b).subrange(0, s.len() as int) =~= s);
}

proof fn lemma_spec_be_bound(s: Seq<u8>)
    ensures
        spec_be(s) < pow256(s.len()),
    decreases s.len(),
{
    if s.len() > 0 {
        let p = s.subrange(0, s.len() - 1);
        lemma_spec_be_bound(p);
        assert(spec_be(s) <= (pow256(p.len()) - 1) * 256 + 255) by (nonlinear_arith)
            requires
                spec_be(s) == spec_be(p) * 256 + s[s.len() - 1],
                spec_be(p) < pow256(p.len()),
                s[s.len() - 1] < 256,
        ;
        assert(pow256(s.len()) == pow256(p.len()) * 256);
    }
}

/// The `n`-th power of 256.
pub open spec fn pow256(n: nat) -> nat
    decreases n,
{
    if n == 0 {
        1
    } else {
        pow256((n - 1) as nat) * 256
    }
}

pub proof fn lemma_pow256_8()
    ensures
        pow256(8) == 0x1_0000_0000_0000_0000,
{
    reveal_with_fuel(pow256, 9);
}

proof fn lemma_pow256_mono(a: nat, b: nat)
    requires
        a <= b,
    ensures
        pow256(a) <= pow256(b),
    decreases b,
{
    if a < b {
        lemma_pow256_mono(a, (b - 1) as nat);
    }
}

// ---------------------------------------------------------------------------
// Executable code
// ---------------------------------------------------------------------------

impl Tlv {
    /// Number of items the value holds: 1 for a primitive value.
    pub fn item_count(&self) -> (n: usize)
        ensures
            n == match self@.value {
                SpecValue::Primitive(_) => 1,
                SpecValue::Nested(items) => items.len(),
            },
    {
        match &self.value {
            Value::Primitive(_) => 1,
            Value::Nested(v) => {
                proof {
                    lemma_tlvs_view_len(v@);
                }
                v.len()
            },
        }
    }
}

impl DerFragment {
    /// Adds an item at the end of the fragment.
    pub fn append(&mut self, tlv: Tlv)
        requires
            old(self).wf(),
        ensures
            final(self).wf(),
            final(self).items() == old(self).items().push(tlv@),
    {
        let mut cur = DerFragment::Empty;
        std::mem::swap(&mut cur, self);
        *self = match cur {
            DerFragment::Empty => DerFragment::Single(tlv),
            DerFragment::Single(org) => {
                let ghost g_org = org;
                let ghost g_tlv = tlv;
                let v = vec![org, tlv];
                proof {
                    assert(v@ =~= seq![g_org, g_tlv]);
                    assert(seq![g_org].push(g_tlv) =~= seq![g_org, g_tlv]);
                    lemma_tlvs_view_push(seq![g_org], g_tlv);
                    lemma_tlvs_view_push(Seq::empty(), g_org);
                    assert(Seq::<Tlv>::empty().push(g_org) =~= seq![g_org]);
                    assert(tlvs_view(Seq::<Tlv>::empty()) =~= Seq::<SpecTlv>::empty());
                    assert(seq![tlv_view(g_org)] =~= Seq::<SpecTlv>::empty().push(tlv_view(g_org)));
                }
                DerFragment::Multiple(v)
            },
            DerFragment::Multiple(mut vec) => {
                let ghost g_tlv = tlv;
                let ghost old_v = vec@;
                vec.push(tlv);
                proof {
                    lemma_tlvs_view_push(old_v, g_tlv);
                }
                DerFragment::Multiple(vec)
            },
        };
    }

    /// Turns the fragment into a nested value; an empty fragment is refused.
    pub fn try_into(self) -> (res: Result<Value, Error>)
        requires
            self.wf(),
        ensures
            self is Empty ==> res == Err::<Value, Error>(Error::ConvertError),
            !(self is Empty) ==> (res matches Ok(v) && v@ == SpecValue::Nested(self.items())),
    {
        match self {
            DerFragment::Empty => Err(Error::ConvertError),
            DerFragment::Single(tlv) => {
                let ghost g = tlv;
                let v = vec![tlv];
                proof {
                    assert(v@ =~= seq![g]);
                    lemma_tlvs_view_push(Seq::empty(), g);
                    assert(Seq::<Tlv>::empty().push(g) =~= seq![g]);
                    assert(tlvs_view(Seq::<Tlv>::empty()) =~= Seq::<SpecTlv>::empty());
                    assert(seq![tlv_view(g)] =~= Seq::<SpecTlv>::empty().push(tlv_view(g)));
                }
                Ok(Value::Nested(v))
            },
            DerFragment::Multiple(tlvs) => Ok(Value::Nested(tlvs)),
        }
    }
}

fn tag_class_of(b: u8) -> (c: TagClass)
    ensures
        c == spec_tag_class(b),
{
    let v = (b >> 6) & 3;
    assert(v == b / 64) by (bit_vector)
        requires
            v == (b >> 6) & 3,
    ;
    match v {
        0 => TagClass::Universal,
        1 => TagClass::Application,
        2 => TagClass::ContextSpecific,
        _ => TagClass::Private,
    }
}

fn tag_of(b: u8) -> (t: Tag)
    ensures
        t == spec_tag(b),
{
    let v = b & 0b0011_1111;
    assert(v == b % 64) by (bit_vector)
        requires
            v == b & 0b0011_1111,
    ;
    match v {
        0x02 => Tag::Integer,
        0x03 => Tag::BitString,
        0x04 => Tag::OctetString,
        0x05 => Tag::Null,
        0x06 => Tag::ObjectIdentifier,
        0x0c => Tag::UTF8String,
        0x30 => Tag::Sequence,
        0x31 => Tag::SetOf,
        0x13 => Tag::PrintableString,
        0x16 => Tag::IA5String,
        0x17 => Tag::UTCTime,
        0x18 => Tag::GeneralizedTime,
        v => Tag::Other(v),
    }
}

/// Reads the header of the item at `pos`: returns the header length and the
/// announced content length.
fn read_header(data: &[u8], pos: usize) -> (res: Result<(usize, u64), Error>)
    requires
        pos < data@.len(),
        !(spec_header(data@.subrange(pos as int, data@.len() as int)) is TooLong),
    ensures
        ({
            let rest = data@.subrange(pos as int, data@.len() as int);
            match spec_header(rest) {
                HeaderOutcome::Header(h, len) => res matches Ok((rh, rlen)) && rh == h && rlen
                    == len,
                HeaderOutcome::IoFailure => res == Err::<(usize, u64), Error>(Error::IoError),
                HeaderOutcome::TooLong => false,
            }
        }),
{
    let ghost rest = data@.subrange(pos as int, data@.len() as int);
    if data.len() - pos < 2 {
        return Err(Error::IoError);
    }
    let l0 = data[pos + 1];
    assert(l0 == rest[1]);
    if l0 & 0b1000_0000 > 0 {
        assert(l0 >= 128) by (bit_vector)
            requires
                l0 & 0b1000_0000 > 0,
        ;
        let c = l0 & 0b0111_1111;
        assert(c == l0 - 128) by (bit_vector)
            requires
                c == l0 & 0b0111_1111,
                l0 >= 128,
        ;
        let cu = c as usize;
        if data.len() - pos - 2 < cu {
            return Err(Error::IoError);
        }
        let mut len: u64 = 0;
        let mut i: usize = 0;
        while i < cu
            invariant
                i <= cu <= 8,
                pos + 2 + cu <= data.len(),
                rest == data@.subrange(pos as int, data@.len() as int),
                len == spec_be(rest.subrange(2, 2 + i)),
                spec_be(rest.subrange(2, 2 + i)) < pow256(i as nat),
            decreases cu - i,
        {
            let b = data[pos + 2 + i];
            proof {
                assert(rest.subrange(2, 2 + i + 1) =~= rest.subrange(2, 2 + i).push(b));
                lemma_spec_be_push(rest.subrange(2, 2 + i), b);
                lemma_spec_be_bound(rest.subrange(2, 2 + i + 1));
                lemma_pow256_mono((i + 1) as nat, 8);
                lemma_pow256_8();
                assert(len * 256 + b < 0x1_0000_0000_0000_0000);
            }
            len = len * 256 + b as u64;
            i = i + 1;
        }
        Ok((2 + cu, len))
    } else {
        assert(l0 < 128) by (bit_vector)
            requires
                !(l0 & 0b1000_0000 > 0),
        ;
        Ok((2, l0 as u64))
    }
}

/// Reads the first item of `data`: the item and the number of bytes it takes.
fn parse_first(data: &[u8]) -> (res: Result<(Tlv, usize), Error>)
    requires
        data@.len() >= 1,
        !(spec_first(data@) is TooLong),
    ensures
        match spec_first(data@) {
            FirstOutcome::Item(t, n) => res matches Ok((rt, rn)) && rt@ == t && rn == n,
            FirstOutcome::IoFailure => res == Err::<(Tlv, usize), Error>(Error::IoError),
            FirstOutcome::ConvertFailure => res == Err::<(Tlv, usize), Error>(
                Error::ConvertError,
            ),
            FirstOutcome::TooLong => false,
        },
    decreases data@.len(), 0nat,
{
    proof {
        assert(data@.subrange(0, data@.len() as int) =~= data@);
    }
    let (h, len) = read_header(data, 0)?;
    if len > 0x7fff_ffff_ffff_ffff {
        assert(false);
        return Err(Error::IoError);
    }
    if len > (data.len() - h) as u64 {
        return Err(Error::IoError);
    }
    let l = len as usize;
    let content = vstd::slice::slice_subrange(data, h, h + l);
    let tag_class = tag_class_of(data[0]);
    let tag = tag_of(data[0]);
    let value = match tag {
        Tag::Sequence | Tag::SetOf => {
            let r = parse_recursive_inner(content)?;
            r.try_into()?
        },
        _ => Value::Primitive(vstd::slice::slice_to_vec(content)),
    };
    let tlv = Tlv { tag_class, tag, length: l, value };
    Ok((tlv, h + l))
}

/// Reads all the items of `data`, one after another.
fn parse_recursive_inner(data: &[u8]) -> (res: Result<DerFragment, Error>)
    requires
        readable(data@),
    ensures
        match spec_parse_tlvs(data@) {
            ParseOutcome::Parsed(items) => res matches Ok(f) && f.wf() && f.items() == items,
            ParseOutcome::IoFailure => res == Err::<DerFragment, Error>(Error::IoError),
            ParseOutcome::ConvertFailure => res == Err::<DerFragment, Error>(Error::ConvertError),
            ParseOutcome::TooLong => false,
        },
    decreases data@.len(), 1nat,
{
    let mut res = DerFragment::Empty;
    let mut pos: usize = 0;
    proof {
        assert(data@.subrange(0, data@.len() as int) =~= data@);
    }
    while pos < data.len()
        invariant
            pos <= data@.len(),
            res.wf(),
            spec_parse_tlvs(data@) == prepend(
                res.items(),
                spec_parse_tlvs(data@.subrange(pos as int, data@.len() as int)),
            ),
            readable(data@),
        decreases data@.len() - pos,
    {
        let ghost rest = data@.subrange(pos as int, data@.len() as int);
        let tail = vstd::slice::slice_subrange(data, pos, data.len());
        assert(tail@ == rest);
        proof {
            lemma_prepend_not_too_long(res.items(), spec_parse_tlvs(rest), data@);
        }
        let r = parse_first(tail);
        match r {
            Ok((tlv, n)) => {
                let ghost old_items = res.items();
                let ghost t = tlv@;
                proof {
                    let next = data@.subrange((pos + n) as int, data@.len() as int);
                    assert(rest.subrange(n as int, rest.len() as int) =~= next);
                    lemma_prepend_push(old_items, t, spec_parse_tlvs(next));
                }
                res.append(tlv);
                pos = pos + n;
            },
            Err(e) => {
                return Err(e);
            },
        }
    }
    proof {
        assert(data@.subrange(pos as int, data@.len() as int) =~= Seq::<u8>::empty());
        assert(res.items() + Seq::<SpecTlv>::empty() =~= res.items());
    }
    Ok(res)
}

/// Which outcome reading the first item of some data has, with the number of
/// bytes the item takes.
enum FirstKind {
    Item(usize),
    IoFailure,
    ConvertFailure,
    TooLong,
}

/// Which outcome reading some data as items has.
enum ParseKind {
    Parsed,
    IoFailure,
    ConvertFailure,
    TooLong,
}

spec fn kind_of(o: ParseOutcome) -> ParseKind {
    match o {
        ParseOutcome::Parsed(_) => ParseKind::Parsed,
        ParseOutcome::IoFailure => ParseKind::IoFailure,
        ParseOutcome::ConvertFailure => ParseKind::ConvertFailure,
        ParseOutcome::TooLong => ParseKind::TooLong,
    }
}

/// Follows the reading of the first item of `data` without building it.
fn scan_first(data: &[u8]) -> (r: FirstKind)
    requires
        data@.len() >= 1,
    ensures
        match spec_first(data@) {
            FirstOutcome::Item(_, n) => r matches FirstKind::Item(m) && m == n,
            FirstOutcome::IoFailure => r is IoFailure,
            FirstOutcome::ConvertFailure => r is ConvertFailure,
            FirstOutcome::TooLong => r is TooLong,
        },
    decreases data@.len(), 0nat,
{
    proof {
        assert(data@.subrange(0, data@.len() as int) =~= data@);
    }
    if data.len() >= 2 && data[1] >= 128 && data[1] - 128 > 8 {
        return FirstKind::TooLong;
    }
    let (h, len) = match read_header(data, 0) {
        Ok(v) => v,
        Err(_) => {
            return FirstKind::IoFailure;
        },
    };
    if len > 0x7fff_ffff_ffff_ffff {
        return FirstKind::TooLong;
    }
    if len > (data.len() - h) as u64 {
        return FirstKind::IoFailure;
    }
    let l = len as usize;
    let content = vstd::slice::slice_subrange(data, h, h + l);
    if tag_is_constructed(data[0]) {
        match scan_all(content) {
            ParseKind::Parsed => {
                if l == 0 {
                    FirstKind::ConvertFailure
                } else {
                    assert(spec_parse_tlvs(content@) matches ParseOutcome::Parsed(items) && items.len()
                        > 0);
                    FirstKind::Item(h + l)
                }
            },
            ParseKind::IoFailure => FirstKind::IoFailure,
            ParseKind::ConvertFailure => FirstKind::ConvertFailure,
            ParseKind::TooLong => FirstKind::TooLong,
        }
    } else {
        FirstKind::Item(h + l)
    }
}

/// Follows the reading of `data` as items without building them.
fn scan_all(data: &[u8]) -> (r: ParseKind)
    ensures
        r == kind_of(spec_parse_tlvs(data@)),
    decreases data@.len(), 1nat,
{
    let mut pos: usize = 0;
    let ghost mut items: Seq<SpecTlv> = Seq::empty();
    proof {
        assert(data@.subrange(0, data@.len() as int) =~= data@);
        assert(Seq::<SpecTlv>::empty() + Seq::<SpecTlv>::empty() =~= Seq::<SpecTlv>::empty());
    }
    while pos < data.len()
        invariant
            pos <= data@.len(),
            spec_parse_tlvs(data@) == prepend(items, spec_parse_tlvs(data@.subrange(pos as int, data@.len() as int))),
        decreases data@.len() - pos,
    {
        let ghost rest = data@.subrange(pos as int, data@.len() as int);
        let tail = vstd::slice::slice_subrange(data, pos, data.len());
        assert(tail@ == rest);
        match scan_first(tail) {
            FirstKind::Item(n) => {
                let ghost t = spec_first(rest)->Item_0;
                proof {
                    let next = data@.subrange((pos + n) as int, data@.len() as int);
                    assert(rest.subrange(n as int, rest.len() as int) =~= next);
                    lemma_prepend_push(items, t, spec_parse_tlvs(next));
                    items = items.push(t);
                }
                pos = pos + n;
            },
            FirstKind::IoFailure => {
                return ParseKind::IoFailure;
            },
            FirstKind::ConvertFailure => {
                return ParseKind::ConvertFailure;
            },
            FirstKind::TooLong => {
                return ParseKind::TooLong;
            },
        }
    }
    proof {
        assert(data@.subrange(pos as int, data@.len() as int) =~= Seq::<u8>::empty());
    }
    ParseKind::Parsed
}

/// Whether the reader handles `data`: no length in it is announced in more
/// than 8 octets or is too large to allocate.
pub fn is_readable(data: &[u8]) -> (r: bool)
    ensures
        r == readable(data@),
{
    match scan_all(data) {
        ParseKind::TooLong => false,
        _ => true,
    }
}

/// The first item that the reader takes from `data` has the shape of a
/// read item, and takes more bytes than its content, within `data`.
pub proof fn lemma_first_shape(data: Seq<u8>)
    ensures
        spec_first(data) matches FirstOutcome::Item(t, n) ==> parsed_shape(t) && t.length < n
            <= data.len(),
    decreases data.len(), 0nat,
{
    if data.len() > 0 {
        if let HeaderOutcome::Header(h, len) = spec_header(data) {
            if len <= max_alloc() && h + len <= data.len() {
                let content = data.subrange(h as int, (h + len) as int);
                lemma_items_shape(content);
                assert(content.len() == len);
            }
        }
    }
}

/// Every item that the reader gives, nested ones included, has the shape of
/// a read item: `SEQUENCE` and `SET` items, and only they, nest at least one
/// item, and a primitive item holds as many bytes as its length says.
pub proof fn lemma_items_shape(data: Seq<u8>)
    ensures
        spec_parse_tlvs(data) matches ParseOutcome::Parsed(items) ==> all_parsed_shape(items),
    decreases data.len(), 1nat,
{
    if data.len() > 0 {
        lemma_first_shape(data);
        if let FirstOutcome::Item(t, n) = spec_first(data) {
            if 0 < n <= data.len() {
                let rest = data.subrange(n as int, data.len() as int);
                lemma_items_shape(rest);
                if let ParseOutcome::Parsed(r) = spec_parse_tlvs(rest) {
                    let all = seq![t] + r;
                    assert(all[0] == t);
                    assert(all.subrange(1, all.len() as int) =~= r);
                }
            }
        }
    }
}

/// Puts `items` in front of what a parse gave.
pub open spec fn prepend(items: Seq<SpecTlv>, o: ParseOutcome) -> ParseOutcome {
    match o {
        ParseOutcome::Parsed(s) => ParseOutcome::Parsed(items + s),
        other => other,
    }
}

proof fn lemma_prepend_push(items: Seq<SpecTlv>, t: SpecTlv, o: ParseOutcome)
    ensures
        prepend(items, prepend(seq![t], o)) == prepend(items.push(t), o),
{
    match o {
        ParseOutcome::Parsed(s) => {
            assert(items + (seq![t] + s) =~= items.push(t) + s);
        },
        _ => {},
    }
}

proof fn lemma_prepend_not_too_long(items: Seq<SpecTlv>, o: ParseOutcome, data: Seq<u8>)
    requires
        spec_parse_tlvs(data) == prepend(items, o),
        readable(data),
    ensures
        !(o is TooLong),
{
}

/// Reads the first item of `data`, expecting no other.
fn parse_recursive(data: &[u8]) -> (res: Result<DerFragment, Error>)
    requires
        readable(data@),
    ensures
        match spec_parse_tlvs(data@) {
            ParseOutcome::Parsed(items) => res matches Ok(f) && f.wf() && f.items() == items,
            ParseOutcome::IoFailure => res == Err::<DerFragment, Error>(Error::IoError),
            ParseOutcome::ConvertFailure => res == Err::<DerFragment, Error>(Error::ConvertError),
            ParseOutcome::TooLong => false,
        },
{
    parse_recursive_inner(data)
}

/// Reads `data` as exactly one item.
pub fn parse_single(data: &[u8]) -> (res: Result<Tlv, Error>)
    requires
        readable(data@),
    ensures
        match spec_parse_tlvs(data@) {
            ParseOutcome::Parsed(items) => if items.len() == 1 {
                res matches Ok(t) && t@ == items[0]
            } else {
                res == Err::<Tlv, Error>(Error::ConvertError)
            },
            ParseOutcome::IoFailure => res == Err::<Tlv, Error>(Error::IoError),
            ParseOutcome::ConvertFailure => res == Err::<Tlv, Error>(Error::ConvertError),
            ParseOutcome::TooLong => false,
        },
        res matches Ok(t) ==> parsed_shape(t@),
{
    proof {
        lemma_items_shape(data@);
    }
    let res = parse_recursive(data)?;
    match res {
        DerFragment::Single(v) => Ok(v),
        DerFragment::Empty => Err(Error::ConvertError),
        DerFragment::Multiple(v) => {
            proof {
                lemma_tlvs_view_len(v@);
            }
            Err(Error::ConvertError)
        },
    }
}

fn check_canonical_header(data: &[u8], pos: usize) -> (b: bool)
    requires
        pos < data@.len(),
    ensures
        b == canonical_header(data@.subrange(pos as int, data@.len() as int)),
{
    let ghost rest = data@.subrange(pos as int, data@.len() as int);
    if data.len() - pos < 2 {
        return false;
    }
    if data[pos] % 32 == 31 {
        return false;
    }
    let l0 = data[pos + 1];
    if l0 < 128 {
        return true;
    }
    if l0 < 129 || l0 > 132 {
        return false;
    }
    if ((data.len() - pos) as u64) < (l0 as u64) - 126 {
        return false;
    }
    let first = data[pos + 2];
    if l0 == 129 {
        first >= 128
    } else {
        first != 0
    }
}

/// Checks that every header in `data`, nested ones included, follows the
/// distinguished encoding rules.
pub fn check_strict(data: &[u8]) -> (b: bool)
    ensures
        b == strict_items(data@),
    decreases data@.len(), 1nat,
{
    let mut pos: usize = 0;
    proof {
        assert(data@.subrange(0, data@.len() as int) =~= data@);
    }
    while pos < data.len()
        invariant
            pos <= data@.len(),
            strict_items(data@) == strict_items(data@.subrange(pos as int, data@.len() as int)),
        decreases data@.len() - pos,
    {
        let ghost rest = data@.subrange(pos as int, data@.len() as int);
        assert(strict_items(rest) == (strict_first(rest) && match spec_header(rest) {
            HeaderOutcome::Header(h, len) => 0 < h + len <= rest.len() && strict_items(
                rest.subrange((h + len) as int, rest.len() as int),
            ),
            _ => false,
        }));
        if !check_canonical_header(data, pos) {
            return false;
        }
        let (h, len) = match read_header(data, pos) {
            Ok(v) => v,
            Err(_) => {
                return false;
            },
        };
        if len > (data.len() - pos - h) as u64 {
            return false;
        }
        let l = len as usize;
        if tag_is_constructed(data[pos]) {
            let content = vstd::slice::slice_subrange(data, pos + h, pos + h + l);
            assert(content@ =~= rest.subrange(h as int, (h + l) as int));
            if !check_strict(content) {
                return false;
            }
        }
        proof {
            assert(rest.subrange((h + l) as int, rest.len() as int) =~= data@.subrange(
                (pos + h + l) as int,
                data@.len() as int,
            ));
        }
        pos = pos + h + l;
    }
    true
}

fn tag_is_constructed(b: u8) -> (r: bool)
    ensures
        r == is_constructed_tag(spec_tag(b)),
{
    let t = tag_of(b);
    match t {
        Tag::Sequence | Tag::SetOf => true,
        _ => false,
    }
}

} // verus!
