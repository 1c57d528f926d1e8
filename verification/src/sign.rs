//! Telling the versions of electronic signatures apart, and decoding them.
use crate::der::{
    check_strict, parse_single, readable, spec_parse_tlvs, strict_items, ParseOutcome, SpecTlv,
    SpecValue,
};
use crate::error::Error;
use crate::{v1, v4};
use vstd::prelude::*;

verus! {

#[derive(Debug, PartialEq, Eq, Structural, Clone, Copy)]
pub enum SignClass {
    Unknown,
    SesV1,
    SesV4,
}

/// A decoded electronic signature.
pub trait Sign {

}

/// An extension of an OFD package for what concerns signatures.
pub trait SignInfoExt {

}

/// The appearance of a seal: its picture and displayed size.
#[derive(Debug)]
pub struct ESealAppearance {
    pub height: u64,
    pub width: u64,
    pub data: Vec<u8>,
    pub typ: String,
}

/// Either version of a decoded signature.
#[derive(Debug)]
pub enum DecodedSign {
    V1(v1::SesSignature),
    V4(v4::SesSignature),
}

impl Sign for v1::SesSignature {

}

impl Sign for v4::SesSignature {

}

impl Sign for DecodedSign {

}

/// Number of items that an item holds: 1 for a primitive one.
pub open spec fn spec_item_count(t: SpecTlv) -> nat {
    match t.value {
        SpecValue::Primitive(_) => 1,
        SpecValue::Nested(items) => items.len(),
    }
}

/// A single item of 2 items is version 1, of 4 or 5 items version 4;
/// anything else, data that cannot be read included, is unknown.
pub open spec fn spec_sign_class(data: Seq<u8>) -> SignClass {
    match spec_parse_tlvs(data) {
        ParseOutcome::Parsed(items) => if items.len() == 1 {
            let n = spec_item_count(items[0]);
            if n == 2 {
                SignClass::SesV1
            } else if n == 4 || n == 5 {
                SignClass::SesV4
            } else {
                SignClass::Unknown
            }
        } else {
            SignClass::Unknown
        },
        _ => SignClass::Unknown,
    }
}

/// The single item that `data` holds.
pub open spec fn single_item(data: Seq<u8>) -> SpecTlv
    recommends
        spec_parse_tlvs(data) matches ParseOutcome::Parsed(items) && items.len() == 1,
{
    match spec_parse_tlvs(data) {
        ParseOutcome::Parsed(items) => items[0],
        _ => arbitrary(),
    }
}

/// A single SEQUENCE of exactly 2 items (toSign, signature) is a version 1
/// signature; one of 4 or 5 items is a version 4 signature.
pub proof fn lemma_sign_class_by_item_count(data: Seq<u8>)
    ensures
        match spec_parse_tlvs(data) {
            ParseOutcome::Parsed(items) => items.len() == 1 ==> match items[0].value {
                SpecValue::Nested(v) => (v.len() == 2 ==> spec_sign_class(data) == SignClass::SesV1)
                    && (v.len() == 4 ==> spec_sign_class(data) == SignClass::SesV4)
                    && (v.len() == 5 ==> spec_sign_class(data) == SignClass::SesV4),
                SpecValue::Primitive(_) => spec_sign_class(data) == SignClass::Unknown,
            },
            _ => spec_sign_class(data) == SignClass::Unknown,
        },
{
}

pub fn detect_sign_class(data: &[u8]) -> (c: SignClass)
    requires
        readable(data@),
    ensures
        c == spec_sign_class(data@),
        match spec_parse_tlvs(data@) {
            ParseOutcome::Parsed(items) => items.len() == 1 ==> match items[0].value {
                SpecValue::Nested(v) => (v.len() == 2 ==> c == SignClass::SesV1) && (v.len() == 4
                    ==> c == SignClass::SesV4) && (v.len() == 5 ==> c == SignClass::SesV4),
                SpecValue::Primitive(_) => c == SignClass::Unknown,
            },
            _ => c == SignClass::Unknown,
        },
{
    proof {
        lemma_sign_class_by_item_count(data@);
    }
    let tlv = parse_single(data);
    match tlv {
        Ok(v) => {
            let n = v.item_count();
            if n == 2 {
                SignClass::SesV1
            } else if n == 4 || n == 5 {
                SignClass::SesV4
            } else {
                SignClass::Unknown
            }
        },
        Err(_) => SignClass::Unknown,
    }
}

/// `data` is the distinguished encoding of a single item.
pub open spec fn der_single(data: Seq<u8>) -> bool {
    &&& strict_items(data)
    &&& spec_parse_tlvs(data) matches ParseOutcome::Parsed(items)
    &&& items.len() == 1
}

impl v1::SesSignature {
    /// Decodes a version 1 signature from its distinguished encoding.
    pub fn from_der(data: &[u8]) -> (r: Result<Self, Error>)
        requires
            readable(data@),
        ensures
            r is Ok <==> der_single(data@) && v1::valid_signature(single_item(data@)),
            r matches Ok(s) ==> s.decodes(single_item(data@)),
            r is Err ==> r == Err::<Self, Error>(Error::DerError),
    {
        if !check_strict(data) {
            return Err(Error::DerError);
        }
        let t = match parse_single(data) {
            Ok(t) => t,
            Err(_) => {
                return Err(Error::DerError);
            },
        };
        match v1::SesSignature::from_tlv(&t) {
            Some(s) => Ok(s),
            None => Err(Error::DerError),
        }
    }

    pub fn appearance(&self) -> (a: ESealAppearance)
        ensures
            a.height == self.to_sign.e_seal.e_seal_info.picture.width,
            a.width == self.to_sign.e_seal.e_seal_info.picture.height,
            a.data@ == self.to_sign.e_seal.e_seal_info.picture.data@,
            a.typ@ == self.to_sign.e_seal.e_seal_info.picture.typ@,
    {
        let pic = &self.to_sign.e_seal.e_seal_info.picture;
        ESealAppearance {
            height: pic.width,
            width: pic.height,
            data: pic.data.clone(),
            typ: pic.typ.clone(),
        }
    }
}

impl v4::SesSignature {
    /// Decodes a version 4 signature from its distinguished encoding.
    pub fn from_der(data: &[u8]) -> (r: Result<Self, Error>)
        requires
            readable(data@),
        ensures
            r is Ok <==> der_single(data@) && v4::valid_signature(single_item(data@)),
            r matches Ok(s) ==> s.decodes(single_item(data@)),
            r is Err ==> r == Err::<Self, Error>(Error::DerError),
    {
        if !check_strict(data) {
            return Err(Error::DerError);
        }
        let t = match parse_single(data) {
            Ok(t) => t,
            Err(_) => {
                return Err(Error::DerError);
            },
        };
        match v4::SesSignature::from_tlv(&t) {
            Some(s) => Ok(s),
            None => Err(Error::DerError),
        }
    }

    pub fn appearance(&self) -> (a: ESealAppearance)
        ensures
            a.height == self.to_sign.e_seal.e_seal_info.picture.height,
            a.width == self.to_sign.e_seal.e_seal_info.picture.width,
            a.data@ == self.to_sign.e_seal.e_seal_info.picture.data@,
            a.typ@ == self.to_sign.e_seal.e_seal_info.picture.typ@,
    {
        let pic = &self.to_sign.e_seal.e_seal_info.picture;
        ESealAppearance {
            height: pic.height,
            width: pic.width,
            data: pic.data.clone(),
            typ: pic.typ.clone(),
        }
    }
}

/// Decodes an electronic signature of either version.
pub fn decode_sign(data: &[u8]) -> (r: Result<DecodedSign, Error>)
    requires
        readable(data@),
    ensures
        spec_sign_class(data@) == SignClass::Unknown ==> r == Err::<DecodedSign, Error>(
            Error::UnSupportedSignClass,
        ),
        spec_sign_class(data@) == SignClass::SesV1 ==> {
            &&& (r is Ok <==> der_single(data@) && v1::valid_signature(single_item(data@)))
            &&& r matches Ok(d) ==> (d matches DecodedSign::V1(s) && s.decodes(single_item(data@)))
            &&& r is Err ==> r == Err::<DecodedSign, Error>(Error::DerError)
        },
        spec_sign_class(data@) == SignClass::SesV4 ==> {
            &&& (r is Ok <==> der_single(data@) && v4::valid_signature(single_item(data@)))
            &&& r matches Ok(d) ==> (d matches DecodedSign::V4(s) && s.decodes(single_item(data@)))
            &&& r is Err ==> r == Err::<DecodedSign, Error>(Error::DerError)
        },
{
    let class = detect_sign_class(data);
    match class {
        SignClass::Unknown => Err(Error::UnSupportedSignClass),
        SignClass::SesV1 => {
            let sign = v1::SesSignature::from_der(data)?;
            Ok(DecodedSign::V1(sign))
        },
        SignClass::SesV4 => {
            let sign = v4::SesSignature::from_der(data)?;
            Ok(DecodedSign::V4(sign))
        },
    }
}

impl DecodedSign {
    pub fn appearance(&self) -> (a: ESealAppearance)
        ensures
            self matches DecodedSign::V4(s) ==> a.height == s.to_sign.e_seal.e_seal_info.picture.height
                && a.width == s.to_sign.e_seal.e_seal_info.picture.width && a.data@
                == s.to_sign.e_seal.e_seal_info.picture.data@,
            self matches DecodedSign::V1(s) ==> a.height == s.to_sign.e_seal.e_seal_info.picture.width
                && a.width == s.to_sign.e_seal.e_seal_info.picture.height && a.data@
                == s.to_sign.e_seal.e_seal_info.picture.data@,
    {
        match self {
            DecodedSign::V1(s) => s.appearance(),
            DecodedSign::V4(s) => s.appearance(),
        }
    }
}

} // verus!
