//! Values of ASN.1 items read with the distinguished encoding rules: the
//! checks and conversions that turn the content octets of an item into the
//! value of a field.
use crate::der::{tlvs_view, SpecTlv, SpecValue, Tag, TagClass, Tlv, Value};
use vstd::prelude::*;
use vstd::utf8::*;

verus! {

/// A `BIT STRING`: the number of unused bits of the last octet, and the
/// octets.
#[derive(Debug)]
pub struct BitStr {
    pub unused_bits: u8,
    pub bytes: Vec<u8>,
}

// ---------------------------------------------------------------------------
// Shapes of items
// ---------------------------------------------------------------------------

pub open spec fn is_universal(t: SpecTlv, tag: Tag) -> bool {
    t.tag_class == TagClass::Universal && t.tag == tag
}

/// The content octets of a primitive universal item with the given tag.
pub open spec fn prim_content(t: SpecTlv, tag: Tag) -> Option<Seq<u8>> {
    if is_universal(t, tag) {
        match t.value {
            SpecValue::Primitive(c) => Some(c),
            SpecValue::Nested(_) => None,
        }
    } else {
        None
    }
}

/// The items of a universal `SEQUENCE`.
pub open spec fn seq_items(t: SpecTlv) -> Option<Seq<SpecTlv>> {
    if is_universal(t, Tag::Sequence) {
        match t.value {
            SpecValue::Nested(items) => Some(items),
            SpecValue::Primitive(_) => None,
        }
    } else {
        None
    }
}

// ---------------------------------------------------------------------------
// Values of primitive items
// ---------------------------------------------------------------------------

pub open spec fn all_ascii(c: Seq<u8>) -> bool {
    forall|i: int| 0 <= i < c.len() ==> c[i] <= 0x7f
}

pub open spec fn is_printable_byte(b: u8) -> bool {
    (0x41 <= b <= 0x5a) || (0x61 <= b <= 0x7a) || (0x30 <= b <= 0x39) || b == 0x20 || b == 0x27
        || b == 0x28 || b == 0x29 || b == 0x2b || b == 0x2c || b == 0x2d || b == 0x2e || b == 0x2f
        || b == 0x3a || b == 0x3d || b == 0x3f
}

pub open spec fn all_printable(c: Seq<u8>) -> bool {
    forall|i: int| 0 <= i < c.len() ==> is_printable_byte(c[i])
}

/// An `IA5String` holds ASCII octets only.
pub open spec fn spec_ia5(t: SpecTlv) -> Option<Seq<char>> {
    match prim_content(t, Tag::IA5String) {
        Some(c) => if all_ascii(c) {
            Some(decode_utf8(c))
        } else {
            None
        },
        None => None,
    }
}

/// A `PrintableString` holds letters, digits, the space and `'()+,-./:=?`.
pub open spec fn spec_printable(t: SpecTlv) -> Option<Seq<char>> {
    match prim_content(t, Tag::PrintableString) {
        Some(c) => if all_printable(c) {
            Some(decode_utf8(c))
        } else {
            None
        },
        None => None,
    }
}

/// A `UTF8String` holds well-formed UTF-8.
pub open spec fn spec_utf8_string(t: SpecTlv) -> Option<Seq<char>> {
    match prim_content(t, Tag::UTF8String) {
        Some(c) => if valid_utf8(c) {
            Some(decode_utf8(c))
        } else {
            None
        },
        None => None,
    }
}

pub open spec fn spec_octets(t: SpecTlv) -> Option<Seq<u8>> {
    prim_content(t, Tag::OctetString)
}

/// A `BIT STRING` starts with its count of unused bits, at most 7, and 0
/// when no octet follows.
pub open spec fn spec_bits_ok(t: SpecTlv) -> bool {
    match prim_content(t, Tag::BitString) {
        Some(c) => c.len() >= 1 && c[0] <= 7 && (c.len() == 1 ==> c[0] == 0),
        None => false,
    }
}

pub open spec fn bits_match(b: BitStr, t: SpecTlv) -> bool {
    match prim_content(t, Tag::BitString) {
        Some(c) => c.len() >= 1 && b.unused_bits == c[0] && b.bytes@ == c.subrange(
            1,
            c.len() as int,
        ),
        None => false,
    }
}

/// A `BOOLEAN` is the single octet `00` or `FF`.
pub open spec fn spec_boolean(t: SpecTlv) -> Option<bool> {
    if t.tag_class == TagClass::Universal && t.tag == Tag::Other(1) {
        match t.value {
            SpecValue::Primitive(c) => if c.len() == 1 && c[0] == 0 {
                Some(false)
            } else if c.len() == 1 && c[0] == 0xff {
                Some(true)
            } else {
                None
            },
            SpecValue::Nested(_) => None,
        }
    } else {
        None
    }
}

pub open spec fn spec_u64(t: SpecTlv) -> Option<u64> {
    match prim_content(t, Tag::Integer) {
        Some(c) => der_u64_value(c),
        None => None,
    }
}

pub open spec fn spec_i64(t: SpecTlv) -> Option<i64> {
    match prim_content(t, Tag::Integer) {
        Some(c) => der_i64_value(c),
        None => None,
    }
}

/// An `OBJECT IDENTIFIER` is kept as its content octets.
pub open spec fn spec_oid(t: SpecTlv) -> Option<Seq<u8>> {
    match prim_content(t, Tag::ObjectIdentifier) {
        Some(c) => if der_oid_valid(c) {
            Some(c)
        } else {
            None
        },
        None => None,
    }
}

/// A `GeneralizedTime` is kept as its content octets.
pub open spec fn spec_generalized_time(t: SpecTlv) -> Option<Seq<u8>> {
    match prim_content(t, Tag::GeneralizedTime) {
        Some(c) => if der_generalized_time_valid(c) {
            Some(c)
        } else {
            None
        },
        None => None,
    }
}

/// A `UTCTime` is kept as its content octets.
pub open spec fn spec_utc_time(t: SpecTlv) -> Option<Seq<u8>> {
    match prim_content(t, Tag::UTCTime) {
        Some(c) => if der_utc_time_valid(c) {
            Some(c)
        } else {
            None
        },
        None => None,
    }
}

pub open spec fn opt_bytes(o: Option<Vec<u8>>) -> Option<Seq<u8>> {
    match o {
        Some(v) => Some(v@),
        None => None,
    }
}

pub open spec fn opt_chars(o: Option<String>) -> Option<Seq<char>> {
    match o {
        Some(v) => Some(v@),
        None => None,
    }
}

// ---------------------------------------------------------------------------
// Results of the `der` crate
// ---------------------------------------------------------------------------

/// The `u64` that the `der` crate decodes from the content octets of an
/// `INTEGER`, if it accepts them.
pub uninterp spec fn der_u64_value(content: Seq<u8>) -> Option<u64>;

/// The `i64` that the `der` crate decodes from the content octets of an
/// `INTEGER`, if it accepts them.
pub uninterp spec fn der_i64_value(content: Seq<u8>) -> Option<i64>;

/// Whether the `der` crate accepts the content octets of an `OBJECT IDENTIFIER`.
pub uninterp spec fn der_oid_valid(content: Seq<u8>) -> bool;

/// Whether the `der` crate accepts the content octets of a `GeneralizedTime`.
pub uninterp spec fn der_generalized_time_valid(content: Seq<u8>) -> bool;

/// Whether the `der` crate accepts the content octets of a `UTCTime`.
pub uninterp spec fn der_utc_time_valid(content: Seq<u8>) -> bool;

/// Decodes an `INTEGER` content as `u64` with `der`'s `DecodeValue for u64`
/// (through `AnyRef::decode_as`). The result is named, not described.
#[verifier::external_body]
fn der_u64(content: &[u8]) -> (r: Option<u64>)
    ensures
        r == der_u64_value(content@),
{
    match der::asn1::AnyRef::new(der::Tag::Integer, content) {
        Ok(any) => any.decode_as::<u64>().ok(),
        Err(_) => None,
    }
}

/// Decodes an `INTEGER` content as `i64` with `der`'s `DecodeValue for i64`
/// (through `AnyRef::decode_as`). The result is named, not described.
#[verifier::external_body]
fn der_i64(content: &[u8]) -> (r: Option<i64>)
    ensures
        r == der_i64_value(content@),
{
    match der::asn1::AnyRef::new(der::Tag::Integer, content) {
        Ok(any) => any.decode_as::<i64>().ok(),
        Err(_) => None,
    }
}

/// Whether `der`'s `ObjectIdentifier` decoder accepts the content octets.
#[verifier::external_body]
fn der_oid_ok(content: &[u8]) -> (r: bool)
    ensures
        r == der_oid_valid(content@),
{
    match der::asn1::AnyRef::new(der::Tag::ObjectIdentifier, content) {
        Ok(any) => any.decode_as::<der::asn1::ObjectIdentifier>().is_ok(),
        Err(_) => false,
    }
}

/// Whether `der`'s `GeneralizedTime` decoder accepts the content octets.
#[verifier::external_body]
fn der_generalized_time_ok(content: &[u8]) -> (r: bool)
    ensures
        r == der_generalized_time_valid(content@),
{
    match der::asn1::AnyRef::new(der::Tag::GeneralizedTime, content) {
        Ok(any) => any.decode_as::<der::asn1::GeneralizedTime>().is_ok(),
        Err(_) => false,
    }
}

/// Whether `der`'s `UtcTime` decoder accepts the content octets.
#[verifier::external_body]
fn der_utc_time_ok(content: &[u8]) -> (r: bool)
    ensures
        r == der_utc_time_valid(content@),
{
    match der::asn1::AnyRef::new(der::Tag::UtcTime, content) {
        Ok(any) => any.decode_as::<der::asn1::UtcTime>().is_ok(),
        Err(_) => false,
    }
}

/// `String::from_utf8`: the string when the octets are well-formed UTF-8,
/// as its documentation states.
#[verifier::external_body]
fn string_from_utf8(bytes: Vec<u8>) -> (r: Option<String>)
    ensures
        r is Some <==> valid_utf8(bytes@),
        r matches Some(s) ==> s@ == decode_utf8(bytes@),
{
    String::from_utf8(bytes).ok()
}

// ---------------------------------------------------------------------------
// Lemmas
// ---------------------------------------------------------------------------

proof fn lemma_ascii_valid_utf8(c: Seq<u8>)
    requires
        all_ascii(c),
    ensures
        valid_utf8(c),
    decreases c.len(),
{
    if c.len() > 0 {
        let rest = c.subrange(1, c.len() as int);
        assert(pop_first_scalar(c) =~= rest);
        lemma_ascii_valid_utf8(rest);
    }
}

proof fn lemma_printable_ascii(c: Seq<u8>)
    requires
        all_printable(c),
    ensures
        all_ascii(c),
{
}

// ---------------------------------------------------------------------------
// Executable readers
// ---------------------------------------------------------------------------

/// The content octets of a primitive universal item with the given tag.
pub fn content_of(t: &Tlv, tag: Tag) -> (r: Option<&Vec<u8>>)
    ensures
        match r {
            Some(v) => prim_content(t@, tag) == Some(v@),
            None => prim_content(t@, tag) is None,
        },
{
    if t.tag_class == TagClass::Universal && t.tag == tag {
        match &t.value {
            Value::Primitive(v) => Some(v),
            Value::Nested(_) => None,
        }
    } else {
        None
    }
}

/// The items of a universal `SEQUENCE`.
pub fn items_of(t: &Tlv) -> (r: Option<&Vec<Tlv>>)
    ensures
        match r {
            Some(v) => seq_items(t@) == Some(tlvs_view(v@)),
            None => seq_items(t@) is None,
        },
{
    if t.tag_class == TagClass::Universal && t.tag == Tag::Sequence {
        match &t.value {
            Value::Nested(v) => Some(v),
            Value::Primitive(_) => None,
        }
    } else {
        None
    }
}

pub fn read_octets(t: &Tlv) -> (r: Option<Vec<u8>>)
    ensures
        opt_bytes(r) == spec_octets(t@),
{
    match content_of(t, Tag::OctetString) {
        Some(c) => Some(c.clone()),
        None => None,
    }
}

fn check_ascii(c: &Vec<u8>) -> (b: bool)
    ensures
        b == all_ascii(c@),
{
    let mut i: usize = 0;
    while i < c.len()
        invariant
            i <= c@.len(),
            forall|j: int| 0 <= j < i ==> c@[j] <= 0x7f,
        decreases c@.len() - i,
    {
        if c[i] > 0x7f {
            return false;
        }
        i = i + 1;
    }
    true
}

fn printable_byte(b: u8) -> (r: bool)
    ensures
        r == is_printable_byte(b),
{
    (0x41 <= b && b <= 0x5a) || (0x61 <= b && b <= 0x7a) || (0x30 <= b && b <= 0x39) || b == 0x20
        || b == 0x27 || b == 0x28 || b == 0x29 || b == 0x2b || b == 0x2c || b == 0x2d || b == 0x2e
        || b == 0x2f || b == 0x3a || b == 0x3d || b == 0x3f
}

fn check_printable(c: &Vec<u8>) -> (b: bool)
    ensures
        b == all_printable(c@),
{
    let mut i: usize = 0;
    while i < c.len()
        invariant
            i <= c@.len(),
            forall|j: int| 0 <= j < i ==> is_printable_byte(c@[j]),
        decreases c@.len() - i,
    {
        if !printable_byte(c[i]) {
            return false;
        }
        i = i + 1;
    }
    true
}

pub fn read_ia5(t: &Tlv) -> (r: Option<String>)
    ensures
        opt_chars(r) == spec_ia5(t@),
{
    match content_of(t, Tag::IA5String) {
        Some(c) => {
            if !check_ascii(c) {
                return None;
            }
            proof {
                lemma_ascii_valid_utf8(c@);
            }
            string_from_utf8(c.clone())
        },
        None => None,
    }
}

pub fn read_printable(t: &Tlv) -> (r: Option<String>)
    ensures
        opt_chars(r) == spec_printable(t@),
{
    match content_of(t, Tag::PrintableString) {
        Some(c) => {
            if !check_printable(c) {
                return None;
            }
            proof {
                lemma_printable_ascii(c@);
                lemma_ascii_valid_utf8(c@);
            }
            string_from_utf8(c.clone())
        },
        None => None,
    }
}

pub fn read_utf8_string(t: &Tlv) -> (r: Option<String>)
    ensures
        opt_chars(r) == spec_utf8_string(t@),
{
    match content_of(t, Tag::UTF8String) {
        Some(c) => string_from_utf8(c.clone()),
        None => None,
    }
}

pub fn read_bits(t: &Tlv) -> (r: Option<BitStr>)
    ensures
        r is Some <==> spec_bits_ok(t@),
        r matches Some(b) ==> bits_match(b, t@),
{
    match content_of(t, Tag::BitString) {
        Some(c) => {
            if c.len() < 1 || c[0] > 7 || (c.len() == 1 && c[0] != 0) {
                return None;
            }
            let bytes = vstd::slice::slice_to_vec(
                vstd::slice::slice_subrange(c.as_slice(), 1, c.len()),
            );
            Some(BitStr { unused_bits: c[0], bytes })
        },
        None => None,
    }
}

pub fn read_boolean(t: &Tlv) -> (r: Option<bool>)
    ensures
        r == spec_boolean(t@),
{
    if t.tag_class == TagClass::Universal && t.tag == Tag::Other(1) {
        match &t.value {
            Value::Primitive(c) => {
                if c.len() == 1 && c[0] == 0 {
                    Some(false)
                } else if c.len() == 1 && c[0] == 0xff {
                    Some(true)
                } else {
                    None
                }
            },
            Value::Nested(_) => None,
        }
    } else {
        None
    }
}

pub fn read_u64(t: &Tlv) -> (r: Option<u64>)
    ensures
        r == spec_u64(t@),
{
    match content_of(t, Tag::Integer) {
        Some(c) => der_u64(c.as_slice()),
        None => None,
    }
}

pub fn read_i64(t: &Tlv) -> (r: Option<i64>)
    ensures
        r == spec_i64(t@),
{
    match content_of(t, Tag::Integer) {
        Some(c) => der_i64(c.as_slice()),
        None => None,
    }
}

pub fn read_oid(t: &Tlv) -> (r: Option<Vec<u8>>)
    ensures
        opt_bytes(r) == spec_oid(t@),
{
    match content_of(t, Tag::ObjectIdentifier) {
        Some(c) => if der_oid_ok(c.as_slice()) {
            Some(c.clone())
        } else {
            None
        },
        None => None,
    }
}

pub fn read_generalized_time(t: &Tlv) -> (r: Option<Vec<u8>>)
    ensures
        opt_bytes(r) == spec_generalized_time(t@),
{
    match content_of(t, Tag::GeneralizedTime) {
        Some(c) => if der_generalized_time_ok(c.as_slice()) {
            Some(c.clone())
        } else {
            None
        },
        None => None,
    }
}

pub fn read_utc_time(t: &Tlv) -> (r: Option<Vec<u8>>)
    ensures
        opt_bytes(r) == spec_utc_time(t@),
{
    match content_of(t, Tag::UTCTime) {
        Some(c) => if der_utc_time_ok(c.as_slice()) {
            Some(c.clone())
        } else {
            None
        },
        None => None,
    }
}

} // verus!
