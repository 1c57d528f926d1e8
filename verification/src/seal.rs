//! Writing the structures of version 4 seals as DER item trees, the way the
//! reader in `v4` reads them back.
use crate::asn1::{
    all_ascii, der_i64_value, der_oid_valid, der_u64_value, spec_generalized_time, spec_i64, spec_ia5,
    spec_octets, spec_u64, spec_utf8_string, BitStr,
};
use crate::der::{
    lemma_tlvs_view_index, max_alloc, spec_parse_tlvs, spec_tag, strict_items, tlv_view, tlvs_view, ParseOutcome, SpecTlv, SpecValue, Tag, TagClass, Tlv, Value,
};
use crate::encode::{
    items_content, lemma_all_tidy, lemma_der_roundtrip, lemma_der_strict,
    lemma_well_formed_of_size, spec_item_octets, spec_items_octets, tidy, well_formed,
};
use crate::v4::{
    CertDigestObj, ExtData, SesCertList, SesEsPictureInfo, SesEsPropertyInfo, SesHeader, SesSeal,
    SesSealInfo,
};
use vstd::prelude::*;
use vstd::utf8::*;

verus! {

// ---------------------------------------------------------------------------
// Integers, as the der crate writes them
// ---------------------------------------------------------------------------

/// The content octets that the `der` crate writes for an `i64`.
pub uninterp spec fn der_i64_content(v: i64) -> Seq<u8>;

/// The content octets that the `der` crate writes for a `u64`.
pub uninterp spec fn der_u64_content(v: u64) -> Seq<u8>;

/// `der`'s `EncodeValue for i64`, through `Any::encode_from`, which cannot
/// fail for an `i64` (its value is at most nine octets). The contract names
/// the octets, and claims that `der`'s decoder reads them back as `v`: its
/// `DecodeValue` takes the big-endian value of the octets and accepts them
/// when their length is the one `EncodeValue` gives for that value.
#[verifier::external_body]
fn der_encode_i64(v: i64) -> (r: Vec<u8>)
    ensures
        r@ == der_i64_content(v),
        der_i64_value(r@) == Some(v),
{
    match der::asn1::Any::encode_from(&v) {
        Ok(a) => a.value().to_vec(),
        Err(_) => Vec::new(),
    }
}

/// `der`'s `EncodeValue for u64`, through `Any::encode_from`; as for `i64`,
/// the octets are named and read back as `v` by `der`'s decoder.
#[verifier::external_body]
fn der_encode_u64(v: u64) -> (r: Vec<u8>)
    ensures
        r@ == der_u64_content(v),
        der_u64_value(r@) == Some(v),
{
    match der::asn1::Any::encode_from(&v) {
        Ok(a) => a.value().to_vec(),
        Err(_) => Vec::new(),
    }
}

// ---------------------------------------------------------------------------
// The item trees
// ---------------------------------------------------------------------------

pub open spec fn prim_tree(tag: Tag, c: Seq<u8>) -> SpecTlv {
    SpecTlv { tag_class: TagClass::Universal, tag, length: c.len(), value: SpecValue::Primitive(c) }
}

pub open spec fn seq_tree(items: Seq<SpecTlv>) -> SpecTlv {
    SpecTlv {
        tag_class: TagClass::Universal,
        tag: Tag::Sequence,
        length: spec_items_octets(items).len(),
        value: SpecValue::Nested(items),
    }
}

pub open spec fn ia5_tree(s: Seq<char>) -> SpecTlv {
    prim_tree(Tag::IA5String, encode_utf8(s))
}

pub open spec fn printable_tree(s: Seq<char>) -> SpecTlv {
    prim_tree(Tag::PrintableString, encode_utf8(s))
}

pub open spec fn utf8_tree(s: Seq<char>) -> SpecTlv {
    prim_tree(Tag::UTF8String, encode_utf8(s))
}

pub open spec fn i64_tree(v: i64) -> SpecTlv {
    prim_tree(Tag::Integer, der_i64_content(v))
}

pub open spec fn u64_tree(v: u64) -> SpecTlv {
    prim_tree(Tag::Integer, der_u64_content(v))
}

pub open spec fn octets_tree(b: Seq<u8>) -> SpecTlv {
    prim_tree(Tag::OctetString, b)
}

pub open spec fn bool_tree(b: bool) -> SpecTlv {
    prim_tree(
        Tag::Other(1),
        if b {
            seq![0xffu8]
        } else {
            seq![0u8]
        },
    )
}

pub open spec fn bits_tree(b: BitStr) -> SpecTlv {
    prim_tree(Tag::BitString, seq![b.unused_bits] + b.bytes@)
}

pub open spec fn header_tree(h: SesHeader) -> SpecTlv {
    seq_tree(seq![ia5_tree(h.id@), i64_tree(h.version), ia5_tree(h.vid@)])
}

pub open spec fn picture_tree(p: SesEsPictureInfo) -> SpecTlv {
    seq_tree(seq![ia5_tree(p.typ@), octets_tree(p.data@), u64_tree(p.width), u64_tree(p.height)])
}

pub open spec fn digest_tree(d: CertDigestObj) -> SpecTlv {
    seq_tree(seq![printable_tree(d.typ@), octets_tree(d.value@)])
}

pub open spec fn cert_list_tree(c: SesCertList) -> SpecTlv {
    match c {
        SesCertList::Certs(v) => seq_tree(Seq::new(v@.len(), |i: int| octets_tree(v@[i]@))),
        SesCertList::CertDigestList(v) => seq_tree(Seq::new(v@.len(), |i: int| digest_tree(v@[i]))),
    }
}

pub open spec fn property_tree(p: SesEsPropertyInfo) -> SpecTlv {
    seq_tree(
        seq![
            i64_tree(p.typ),
            utf8_tree(p.name@),
            i64_tree(p.cert_list_type),
            cert_list_tree(p.cert_list),
            prim_tree(Tag::GeneralizedTime, p.create_date@),
            prim_tree(Tag::GeneralizedTime, p.valid_start@),
            prim_tree(Tag::GeneralizedTime, p.valid_end@),
        ],
    )
}

pub open spec fn ext_tree(e: ExtData) -> SpecTlv {
    seq_tree(
        seq![prim_tree(Tag::ObjectIdentifier, e.extn_id@), bool_tree(e.critical), octets_tree(e.extn@)],
    )
}

pub open spec fn ext_list_tree(v: Seq<ExtData>) -> SpecTlv {
    seq_tree(Seq::new(v.len(), |i: int| ext_tree(v[i])))
}

pub open spec fn seal_info_tree(x: SesSealInfo) -> SpecTlv {
    seq_tree(
        seq![header_tree(x.header), ia5_tree(x.es_id@), property_tree(x.property), picture_tree(x.picture)]
            + match x.ext_data {
            Some(v) => seq![ext_list_tree(v@)],
            None => Seq::empty(),
        },
    )
}

pub open spec fn seal_tree(s: SesSeal) -> SpecTlv {
    seq_tree(
        seq![
            seal_info_tree(s.e_seal_info),
            octets_tree(s.cert@),
            prim_tree(Tag::ObjectIdentifier, s.signature_alg_id@),
            bits_tree(s.signed_value),
        ],
    )
}

// ---------------------------------------------------------------------------
// Reading back what is written
// ---------------------------------------------------------------------------

/// The text of an `IA5String` is ASCII.
pub open spec fn ascii(s: Seq<char>) -> bool {
    is_ascii_chars(s)
}

proof fn lemma_ia5_back(s: Seq<char>)
    requires
        ascii(s),
    ensures
        spec_ia5(ia5_tree(s)) == Some(s),
{
    broadcast use encode_utf8_decode_utf8;

    is_ascii_chars_encode_utf8(s);
    assert forall|i: int| 0 <= i < encode_utf8(s).len() implies encode_utf8(s)[i] <= 0x7f by {
        assert(s[i] as u8 == encode_utf8(s)[i]);
        assert('\0' <= s[i] <= '\u{7f}');
    }
    assert(all_ascii(encode_utf8(s)));
}

proof fn lemma_utf8_back(s: Seq<char>)
    ensures
        spec_utf8_string(utf8_tree(s)) == Some(s),
{
    broadcast use encode_utf8_decode_utf8, encode_utf8_valid_utf8;

}

/// A property that the reader gives back from its tree: its certificate
/// list is a list of certificates (the reader takes a list of either kind
/// for one of certificates), and the `der` crate accepts its times.
pub open spec fn property_readable(p: SesEsPropertyInfo) -> bool {
    &&& p.cert_list is Certs
    &&& spec_generalized_time(prim_tree(Tag::GeneralizedTime, p.create_date@)) is Some
    &&& spec_generalized_time(prim_tree(Tag::GeneralizedTime, p.valid_start@)) is Some
    &&& spec_generalized_time(prim_tree(Tag::GeneralizedTime, p.valid_end@)) is Some
}

/// The seal information that the reader gives back from the tree it is
/// written as: one whose strings of the IA5 kind are ASCII, whose property
/// the reader gives back, and which carries no extension data.
pub open spec fn seal_info_readable(x: SesSealInfo) -> bool {
    &&& ascii(x.header.id@)
    &&& ascii(x.header.vid@)
    &&& ascii(x.es_id@)
    &&& ascii(x.picture.typ@)
    &&& property_readable(x.property)
    &&& x.ext_data is None
}

/// The seal that the reader gives back from its tree: its seal information
/// is read back, and `der` accepts its algorithm identifier.
pub open spec fn seal_readable(s: SesSeal) -> bool {
    &&& seal_info_readable(s.e_seal_info)
    &&& der_oid_valid(s.signature_alg_id@)
}

// ---------------------------------------------------------------------------
// The shape of the trees
// ---------------------------------------------------------------------------

/// The lists of a seal that are written as `SEQUENCE OF` hold an item each
/// at least: the reader refuses an empty `SEQUENCE`.
pub open spec fn seal_lists_nonempty(s: SesSeal) -> bool {
    &&& match s.e_seal_info.property.cert_list {
        SesCertList::Certs(v) => v@.len() > 0,
        SesCertList::CertDigestList(v) => v@.len() > 0,
    }
    &&& match s.e_seal_info.ext_data {
        Some(v) => v@.len() > 0,
        None => true,
    }
}

proof fn lemma_seq_tidy(items: Seq<SpecTlv>)
    requires
        items.len() > 0,
        forall|i: int| 0 <= i < items.len() ==> tidy(#[trigger] items[i]),
    ensures
        tidy(seq_tree(items)),
{
    lemma_all_tidy(items);
}

proof fn lemma_tidy_2(a: SpecTlv, b: SpecTlv)
    requires
        tidy(a),
        tidy(b),
    ensures
        tidy(seq_tree(seq![a, b])),
{
    let s = seq![a, b];
    assert forall|i: int| 0 <= i < s.len() implies tidy(#[trigger] s[i]) by {}
    lemma_seq_tidy(s);
}

proof fn lemma_tidy_3(a: SpecTlv, b: SpecTlv, c: SpecTlv)
    requires
        tidy(a),
        tidy(b),
        tidy(c),
    ensures
        tidy(seq_tree(seq![a, b, c])),
{
    let s = seq![a, b, c];
    assert forall|i: int| 0 <= i < s.len() implies tidy(#[trigger] s[i]) by {}
    lemma_seq_tidy(s);
}

proof fn lemma_tidy_4(a: SpecTlv, b: SpecTlv, c: SpecTlv, d: SpecTlv)
    requires
        tidy(a),
        tidy(b),
        tidy(c),
        tidy(d),
    ensures
        tidy(seq_tree(seq![a, b, c, d])),
{
    let s = seq![a, b, c, d];
    assert forall|i: int| 0 <= i < s.len() implies tidy(#[trigger] s[i]) by {}
    lemma_seq_tidy(s);
}

proof fn lemma_prims_tidy(c: Seq<u8>)
    ensures
        tidy(prim_tree(Tag::IA5String, c)),
        tidy(prim_tree(Tag::PrintableString, c)),
        tidy(prim_tree(Tag::UTF8String, c)),
        tidy(prim_tree(Tag::Integer, c)),
        tidy(prim_tree(Tag::OctetString, c)),
        tidy(prim_tree(Tag::ObjectIdentifier, c)),
        tidy(prim_tree(Tag::GeneralizedTime, c)),
        tidy(prim_tree(Tag::BitString, c)),
        tidy(prim_tree(Tag::Other(1), c)),
{
    assert(spec_tag(1) == Tag::Other(1));
}

proof fn lemma_cert_list_tidy(c: SesCertList)
    requires
        match c {
            SesCertList::Certs(v) => v@.len() > 0,
            SesCertList::CertDigestList(v) => v@.len() > 0,
        },
    ensures
        tidy(cert_list_tree(c)),
{
    match c {
        SesCertList::Certs(v) => {
            let s = Seq::new(v@.len(), |i: int| octets_tree(v@[i]@));
            assert forall|i: int| 0 <= i < s.len() implies tidy(#[trigger] s[i]) by {
                lemma_prims_tidy(v@[i]@);
            }
            lemma_seq_tidy(s);
        },
        SesCertList::CertDigestList(v) => {
            let s = Seq::new(v@.len(), |i: int| digest_tree(v@[i]));
            assert forall|i: int| 0 <= i < s.len() implies tidy(#[trigger] s[i]) by {
                lemma_prims_tidy(encode_utf8(v@[i].typ@));
                lemma_prims_tidy(v@[i].value@);
                lemma_tidy_2(printable_tree(v@[i].typ@), octets_tree(v@[i].value@));
            }
            lemma_seq_tidy(s);
        },
    }
}

proof fn lemma_seal_info_tidy(x: SesSealInfo)
    requires
        match x.property.cert_list {
            SesCertList::Certs(v) => v@.len() > 0,
            SesCertList::CertDigestList(v) => v@.len() > 0,
        },
        match x.ext_data {
            Some(v) => v@.len() > 0,
            None => true,
        },
    ensures
        tidy(seal_info_tree(x)),
{
    let h = x.header;
    lemma_prims_tidy(encode_utf8(h.id@));
    lemma_prims_tidy(der_i64_content(h.version));
    lemma_prims_tidy(encode_utf8(h.vid@));
    lemma_tidy_3(ia5_tree(h.id@), i64_tree(h.version), ia5_tree(h.vid@));
    let p = x.picture;
    lemma_prims_tidy(encode_utf8(p.typ@));
    lemma_prims_tidy(p.data@);
    lemma_prims_tidy(der_u64_content(p.width));
    lemma_prims_tidy(der_u64_content(p.height));
    lemma_tidy_4(ia5_tree(p.typ@), octets_tree(p.data@), u64_tree(p.width), u64_tree(p.height));
    let q = x.property;
    lemma_cert_list_tidy(q.cert_list);
    lemma_prims_tidy(der_i64_content(q.typ));
    lemma_prims_tidy(encode_utf8(q.name@));
    lemma_prims_tidy(der_i64_content(q.cert_list_type));
    lemma_prims_tidy(q.create_date@);
    lemma_prims_tidy(q.valid_start@);
    lemma_prims_tidy(q.valid_end@);
    let qs = seq![
        i64_tree(q.typ),
        utf8_tree(q.name@),
        i64_tree(q.cert_list_type),
        cert_list_tree(q.cert_list),
        prim_tree(Tag::GeneralizedTime, q.create_date@),
        prim_tree(Tag::GeneralizedTime, q.valid_start@),
        prim_tree(Tag::GeneralizedTime, q.valid_end@),
    ];
    assert forall|i: int| 0 <= i < qs.len() implies tidy(#[trigger] qs[i]) by {}
    lemma_seq_tidy(qs);
    lemma_prims_tidy(encode_utf8(x.es_id@));
    let base = seq![header_tree(h), ia5_tree(x.es_id@), property_tree(q), picture_tree(p)];
    let items = base + match x.ext_data {
        Some(v) => seq![ext_list_tree(v@)],
        None => Seq::empty(),
    };
    if let Some(v) = x.ext_data {
        let es = Seq::new(v@.len(), |i: int| ext_tree(v@[i]));
        assert forall|i: int| 0 <= i < es.len() implies tidy(#[trigger] es[i]) by {
            let e = v@[i];
            lemma_prims_tidy(e.extn_id@);
            lemma_prims_tidy(if e.critical { seq![0xffu8] } else { seq![0u8] });
            lemma_prims_tidy(e.extn@);
            lemma_tidy_3(
                prim_tree(Tag::ObjectIdentifier, e.extn_id@),
                bool_tree(e.critical),
                octets_tree(e.extn@),
            );
        }
        lemma_seq_tidy(es);
    }
    assert forall|i: int| 0 <= i < items.len() implies tidy(#[trigger] items[i]) by {}
    lemma_seq_tidy(items);
}

/// The tree of a seal whose lists are not empty is tidy: written out, it is
/// read back as itself wherever its octets can be allocated, and its octets
/// are the distinguished encoding where they are fewer than 2^32.
pub proof fn lemma_seal_tree_read_back(s: SesSeal)
    requires
        seal_lists_nonempty(s),
        spec_item_octets(seal_tree(s)).len() <= max_alloc(),
    ensures
        well_formed(seal_tree(s)),
        spec_parse_tlvs(spec_item_octets(seal_tree(s))) == ParseOutcome::Parsed(seq![seal_tree(s)]),
        spec_item_octets(seal_tree(s)).len() < 0x1_0000_0000 ==> strict_items(
            spec_item_octets(seal_tree(s)),
        ),
{
    lemma_seal_info_tidy(s.e_seal_info);
    lemma_prims_tidy(s.cert@);
    lemma_prims_tidy(s.signature_alg_id@);
    lemma_prims_tidy(seq![s.signed_value.unused_bits] + s.signed_value.bytes@);
    lemma_tidy_4(
        seal_info_tree(s.e_seal_info),
        octets_tree(s.cert@),
        prim_tree(Tag::ObjectIdentifier, s.signature_alg_id@),
        bits_tree(s.signed_value),
    );
    lemma_well_formed_of_size(seal_tree(s));
    lemma_der_roundtrip(seal_tree(s));
    if spec_item_octets(seal_tree(s)).len() < 0x1_0000_0000 {
        lemma_der_strict(seal_tree(s));
    }
}

// ---------------------------------------------------------------------------
// Building the trees
// ---------------------------------------------------------------------------

fn prim(tag: Tag, c: Vec<u8>) -> (t: Tlv)
    ensures
        t@ == prim_tree(tag, c@),
{
    let n = c.len();
    Tlv { tag_class: TagClass::Universal, tag, length: n, value: Value::Primitive(c) }
}

fn seq_of(items: Vec<Tlv>) -> (t: Tlv)
    ensures
        t@ == seq_tree(tlvs_view(items@)),
{
    let content = items_content(&items);
    let n = content.len();
    Tlv { tag_class: TagClass::Universal, tag: Tag::Sequence, length: n, value: Value::Nested(items) }
}

fn str_octets(s: &str) -> (r: Vec<u8>)
    ensures
        r@ == encode_utf8(s@),
{
    let b = s.as_bytes();
    let mut out: Vec<u8> = Vec::new();
    let mut i: usize = 0;
    while i < b.len()
        invariant
            b@ == encode_utf8(s@),
            i <= b@.len(),
            out@ == b@.take(i as int),
        decreases b@.len() - i,
    {
        out.push(b[i]);
        i = i + 1;
        assert(out@ =~= b@.take(i as int));
    }
    assert(b@.take(i as int) =~= b@);
    out
}

fn copy_octets(b: &Vec<u8>) -> (r: Vec<u8>)
    ensures
        r@ == b@,
{
    let mut out: Vec<u8> = Vec::new();
    let mut i: usize = 0;
    while i < b.len()
        invariant
            i <= b@.len(),
            out@ == b@.take(i as int),
        decreases b@.len() - i,
    {
        out.push(b[i]);
        i = i + 1;
        assert(out@ =~= b@.take(i as int));
    }
    assert(b@.take(i as int) =~= b@);
    out
}

proof fn lemma_view_of_2(v: Seq<Tlv>, a: SpecTlv, b: SpecTlv)
    requires
        v.len() == 2,
        tlv_view(v[0]) == a,
        tlv_view(v[1]) == b,
    ensures
        tlvs_view(v) == seq![a, b],
{
    lemma_tlvs_view_index(v);
    assert(tlvs_view(v) =~= seq![a, b]);
}

proof fn lemma_view_of_3(v: Seq<Tlv>, a: SpecTlv, b: SpecTlv, c: SpecTlv)
    requires
        v.len() == 3,
        tlv_view(v[0]) == a,
        tlv_view(v[1]) == b,
        tlv_view(v[2]) == c,
    ensures
        tlvs_view(v) == seq![a, b, c],
{
    lemma_tlvs_view_index(v);
    assert(tlvs_view(v) =~= seq![a, b, c]);
}

proof fn lemma_view_of_4(v: Seq<Tlv>, a: SpecTlv, b: SpecTlv, c: SpecTlv, d: SpecTlv)
    requires
        v.len() == 4,
        tlv_view(v[0]) == a,
        tlv_view(v[1]) == b,
        tlv_view(v[2]) == c,
        tlv_view(v[3]) == d,
    ensures
        tlvs_view(v) == seq![a, b, c, d],
{
    lemma_tlvs_view_index(v);
    assert(tlvs_view(v) =~= seq![a, b, c, d]);
}

impl SesHeader {
    /// The item tree of the header.
    pub fn to_tlv(&self) -> (t: Tlv)
        ensures
            t@ == header_tree(*self),
            ascii(self.id@) && ascii(self.vid@) ==> self.decodes(t@),
    {
        let a = prim(Tag::IA5String, str_octets(self.id.as_str()));
        let b = prim(Tag::Integer, der_encode_i64(self.version));
        let c = prim(Tag::IA5String, str_octets(self.vid.as_str()));
        let ghost (ga, gb, gc) = (a@, b@, c@);
        let v = vec![a, b, c];
        proof {
            lemma_view_of_3(v@, ga, gb, gc);
            if ascii(self.id@) && ascii(self.vid@) {
                lemma_ia5_back(self.id@);
                lemma_ia5_back(self.vid@);
            }
        }
        seq_of(v)
    }
}

impl SesEsPictureInfo {
    /// The item tree of the picture.
    pub fn to_tlv(&self) -> (t: Tlv)
        ensures
            t@ == picture_tree(*self),
            ascii(self.typ@) ==> self.decodes(t@),
    {
        let a = prim(Tag::IA5String, str_octets(self.typ.as_str()));
        let b = prim(Tag::OctetString, copy_octets(&self.data));
        let c = prim(Tag::Integer, der_encode_u64(self.width));
        let d = prim(Tag::Integer, der_encode_u64(self.height));
        let ghost (ga, gb, gc, gd) = (a@, b@, c@, d@);
        let v = vec![a, b, c, d];
        proof {
            lemma_view_of_4(v@, ga, gb, gc, gd);
            if ascii(self.typ@) {
                lemma_ia5_back(self.typ@);
            }
        }
        seq_of(v)
    }
}

impl CertDigestObj {
    /// The item tree of a digest of a certificate.
    pub fn to_tlv(&self) -> (t: Tlv)
        ensures
            t@ == digest_tree(*self),
    {
        let a = prim(Tag::PrintableString, str_octets(self.typ.as_str()));
        let b = prim(Tag::OctetString, copy_octets(&self.value));
        let ghost (ga, gb) = (a@, b@);
        let v = vec![a, b];
        proof {
            lemma_view_of_2(v@, ga, gb);
        }
        seq_of(v)
    }
}

impl SesCertList {
    /// The item tree of the list of certificates or of their digests.
    pub fn to_tlv(&self) -> (t: Tlv)
        ensures
            t@ == cert_list_tree(*self),
            self is Certs ==> self.decodes(t@),
    {
        let mut items: Vec<Tlv> = Vec::new();
        match self {
            SesCertList::Certs(v) => {
                let ghost want = Seq::new(v@.len(), |i: int| octets_tree(v@[i]@));
                let mut i: usize = 0;
                while i < v.len()
                    invariant
                        want == Seq::new(v@.len(), |i: int| octets_tree(v@[i]@)),
                        i <= v@.len(),
                        tlvs_view(items@) == want.take(i as int),
                    decreases v@.len() - i,
                {
                    let t = prim(Tag::OctetString, copy_octets(&v[i]));
                    let ghost before = items@;
                    items.push(t);
                    proof {
                        assert(items@.subrange(0, items@.len() - 1) =~= before);
                        assert(want.take(i + 1) =~= want.take(i as int).push(octets_tree(v@[i as int]@)));
                    }
                    i = i + 1;
                }
                assert(want.take(i as int) =~= want);
            },
            SesCertList::CertDigestList(v) => {
                let ghost want = Seq::new(v@.len(), |i: int| digest_tree(v@[i]));
                let mut i: usize = 0;
                while i < v.len()
                    invariant
                        want == Seq::new(v@.len(), |i: int| digest_tree(v@[i])),
                        i <= v@.len(),
                        tlvs_view(items@) == want.take(i as int),
                    decreases v@.len() - i,
                {
                    let t = v[i].to_tlv();
                    let ghost before = items@;
                    items.push(t);
                    proof {
                        assert(items@.subrange(0, items@.len() - 1) =~= before);
                        assert(want.take(i + 1) =~= want.take(i as int).push(digest_tree(v@[i as int])));
                    }
                    i = i + 1;
                }
                assert(want.take(i as int) =~= want);
            },
        }
        seq_of(items)
    }
}

impl SesEsPropertyInfo {
    /// The item tree of the property.
    pub fn to_tlv(&self) -> (t: Tlv)
        ensures
            t@ == property_tree(*self),
            property_readable(*self) ==> self.decodes(t@),
    {
        let a = prim(Tag::Integer, der_encode_i64(self.typ));
        let b = prim(Tag::UTF8String, str_octets(self.name.as_str()));
        let c = prim(Tag::Integer, der_encode_i64(self.cert_list_type));
        let d = self.cert_list.to_tlv();
        let e = prim(Tag::GeneralizedTime, copy_octets(&self.create_date));
        let f = prim(Tag::GeneralizedTime, copy_octets(&self.valid_start));
        let g = prim(Tag::GeneralizedTime, copy_octets(&self.valid_end));
        let ghost want = seq![a@, b@, c@, d@, e@, f@, g@];
        let v = vec![a, b, c, d, e, f, g];
        proof {
            lemma_tlvs_view_index(v@);
            assert(tlvs_view(v@) =~= want);
            lemma_utf8_back(self.name@);
        }
        seq_of(v)
    }
}

impl ExtData {
    /// The item tree of extension data.
    pub fn to_tlv(&self) -> (t: Tlv)
        ensures
            t@ == ext_tree(*self),
    {
        let a = prim(Tag::ObjectIdentifier, copy_octets(&self.extn_id));
        let flag: Vec<u8> = if self.critical {
            let f = vec![0xffu8];
            assert(f@ =~= seq![0xffu8]);
            f
        } else {
            let f = vec![0u8];
            assert(f@ =~= seq![0u8]);
            f
        };
        let b = prim(Tag::Other(1), flag);
        let c = prim(Tag::OctetString, copy_octets(&self.extn));
        let ghost (ga, gb, gc) = (a@, b@, c@);
        let v = vec![a, b, c];
        proof {
            lemma_view_of_3(v@, ga, gb, gc);
        }
        seq_of(v)
    }
}

fn ext_list_to_tlv(v: &Vec<ExtData>) -> (t: Tlv)
    ensures
        t@ == ext_list_tree(v@),
{
    let ghost want = Seq::new(v@.len(), |i: int| ext_tree(v@[i]));
    let mut items: Vec<Tlv> = Vec::new();
    let mut i: usize = 0;
    while i < v.len()
        invariant
            want == Seq::new(v@.len(), |i: int| ext_tree(v@[i])),
            i <= v@.len(),
            tlvs_view(items@) == want.take(i as int),
        decreases v@.len() - i,
    {
        let t = v[i].to_tlv();
        let ghost before = items@;
        items.push(t);
        proof {
            assert(items@.subrange(0, items@.len() - 1) =~= before);
            assert(want.take(i + 1) =~= want.take(i as int).push(ext_tree(v@[i as int])));
        }
        i = i + 1;
    }
    assert(want.take(i as int) =~= want);
    seq_of(items)
}

impl SesSealInfo {
    /// The item tree of the seal information.
    pub fn to_tlv(&self) -> (t: Tlv)
        ensures
            t@ == seal_info_tree(*self),
            seal_info_readable(*self) ==> self.decodes(t@),
    {
        let a = self.header.to_tlv();
        let b = prim(Tag::IA5String, str_octets(self.es_id.as_str()));
        let c = self.property.to_tlv();
        let d = self.picture.to_tlv();
        let ghost base = seq![a@, b@, c@, d@];
        let mut v = vec![a, b, c, d];
        proof {
            lemma_tlvs_view_index(v@);
            assert(tlvs_view(v@) =~= base);
            if seal_info_readable(*self) {
                lemma_ia5_back(self.es_id@);
            }
        }
        match &self.ext_data {
            Some(e) => {
                let t = ext_list_to_tlv(e);
                let ghost before = v@;
                v.push(t);
                proof {
                    assert(v@.subrange(0, v@.len() - 1) =~= before);
                    assert(base.push(ext_list_tree(e@)) =~= base + seq![ext_list_tree(e@)]);
                }
            },
            None => {
                assert(base + Seq::<SpecTlv>::empty() =~= base);
            },
        }
        seq_of(v)
    }
}

impl SesSeal {
    /// The item tree of the seal.
    pub fn to_tlv(&self) -> (t: Tlv)
        ensures
            t@ == seal_tree(*self),
            seal_readable(*self) ==> self.decodes(t@),
    {
        let a = self.e_seal_info.to_tlv();
        let b = prim(Tag::OctetString, copy_octets(&self.cert));
        let c = prim(Tag::ObjectIdentifier, copy_octets(&self.signature_alg_id));
        let mut bits: Vec<u8> = Vec::new();
        bits.push(self.signed_value.unused_bits);
        let rest = copy_octets(&self.signed_value.bytes);
        let mut i: usize = 0;
        while i < rest.len()
            invariant
                i <= rest@.len(),
                bits@ == seq![self.signed_value.unused_bits] + rest@.take(i as int),
            decreases rest@.len() - i,
        {
            bits.push(rest[i]);
            i = i + 1;
            assert(bits@ =~= seq![self.signed_value.unused_bits] + rest@.take(i as int));
        }
        assert(rest@.take(i as int) =~= rest@);
        let d = prim(Tag::BitString, bits);
        let ghost (ga, gb, gc, gd) = (a@, b@, c@, d@);
        let v = vec![a, b, c, d];
        proof {
            lemma_view_of_4(v@, ga, gb, gc, gd);
            if seal_readable(*self) {
                let c = seq![self.signed_value.unused_bits] + self.signed_value.bytes@;
                assert(c.subrange(1, c.len() as int) =~= self.signed_value.bytes@);
            }
        }
        seq_of(v)
    }
}

} // verus!
