//! Electronic seals and signatures of version 4 (GB/T 38540).
use crate::asn1::{
    bits_match, items_of, opt_bytes, opt_chars, read_bits, read_boolean, read_generalized_time,
    read_i64, read_ia5, read_octets, read_oid, read_printable, read_u64, read_utf8_string,
    seq_items, spec_bits_ok, spec_boolean, spec_generalized_time, spec_i64, spec_ia5,
    spec_octets, spec_oid, spec_printable, spec_u64, spec_utf8_string, BitStr,
};
use crate::der::{lemma_tlvs_view_index, tlv_view, tlvs_view, SpecTlv, Tlv};
use vstd::prelude::*;

verus! {

/// entry for sign
#[derive(Debug)]
pub struct SesSignature {
    /// 签章信息
    pub to_sign: TbsSign,
    /// 签章者证书
    pub cert: Vec<u8>,
    /// 签名算法标识 (content octets of the object identifier)
    pub signature_alg_id: Vec<u8>,
    /// 签名值
    pub signature: BitStr,
    /// 对签名值的时间戳
    pub timestamp: Option<BitStr>,
}

#[derive(Debug)]
pub struct TbsSign {
    /// 电子签章版本号，与电子印章版本号保持一致
    pub version: i64,
    /// 电子印章
    pub e_seal: SesSeal,
    /// 签章时间 (content octets of the GeneralizedTime)
    pub time_info: Vec<u8>,
    /// 原文杂凑值
    pub data_hash: BitStr,
    /// 原文数据的属性
    pub property_info: String,
    /// 自定义数据
    pub ext_data: Option<Vec<ExtData>>,
}

#[derive(Debug)]
pub struct ExtData {
    /// 自定义扩展字段标识
    pub extn_id: Vec<u8>,
    /// 自定义扩展字段是否关键
    pub critical: bool,
    /// 自定义扩展字段数据值
    pub extn: Vec<u8>,
}

/// 电子印章数据
#[derive(Debug)]
pub struct SesSeal {
    /// 印章信息
    pub e_seal_info: SesSealInfo,
    /// 制章者证书
    pub cert: Vec<u8>,
    /// 签名算法标识
    pub signature_alg_id: Vec<u8>,
    /// 签名值
    pub signed_value: BitStr,
}

/// 印章信息
#[derive(Debug)]
pub struct SesSealInfo {
    /// 印章头
    pub header: SesHeader,
    /// 印章标识
    pub es_id: String,
    /// 印章属性
    pub property: SesEsPropertyInfo,
    /// 印章图像数据
    pub picture: SesEsPictureInfo,
    /// 自定义数据
    pub ext_data: Option<Vec<ExtData>>,
}

#[derive(Debug)]
pub struct SesEsPictureInfo {
    /// 图像类型，如 GIF BMP JPG PNG SVG 等
    pub typ: String,
    /// 印章图像数据
    pub data: Vec<u8>,
    /// 图像显示宽度，单位毫米
    pub width: u64,
    /// 图像显示高度，单位毫米
    pub height: u64,
}

/// 印章属性
#[derive(Debug)]
pub struct SesEsPropertyInfo {
    /// 印章类型
    pub typ: i64,
    /// 印章名称
    pub name: String,
    /// 签章者证书信息类型: 1 数字证书, 2 数字证书的杂凑值
    pub cert_list_type: i64,
    /// 签章者证书信息列表
    pub cert_list: SesCertList,
    /// 印章制作时间
    pub create_date: Vec<u8>,
    /// 印章有效期起始时间
    pub valid_start: Vec<u8>,
    /// 印章有效期终止时间
    pub valid_end: Vec<u8>,
}

#[derive(Debug)]
pub enum SesCertList {
    /// 签章者证书
    Certs(Vec<Vec<u8>>),
    /// 签章者证书杂凑值
    CertDigestList(Vec<CertDigestObj>),
}

#[derive(Debug)]
pub struct CertDigestObj {
    /// 自定义类型
    pub typ: String,
    /// 证书杂凑值
    pub value: Vec<u8>,
}

/// 印章头
#[derive(Debug)]
pub struct SesHeader {
    /// 头标识，固定值 `ES`
    pub id: String,
    /// 印章版本，当前为 `4`
    pub version: i64,
    /// 厂商标识
    pub vid: String,
}

// ---------------------------------------------------------------------------
// The structures, read from an item tree
// ---------------------------------------------------------------------------

pub open spec fn valid_header(t: SpecTlv) -> bool {
    match seq_items(t) {
        Some(s) => s.len() == 3 && spec_ia5(s[0]) is Some && spec_i64(s[1]) is Some && spec_ia5(
            s[2],
        ) is Some,
        None => false,
    }
}

impl SesHeader {
    pub open spec fn decodes(self, t: SpecTlv) -> bool {
        match seq_items(t) {
            Some(s) => s.len() == 3 && spec_ia5(s[0]) == Some(self.id@) && spec_i64(s[1]) == Some(
                self.version,
            ) && spec_ia5(s[2]) == Some(self.vid@),
            None => false,
        }
    }

    pub fn from_tlv(t: &Tlv) -> (r: Option<Self>)
        ensures
            r is Some <==> valid_header(t@),
            r matches Some(x) ==> x.decodes(t@),
    {
        let items = items_of(t)?;
        proof {
            lemma_tlvs_view_index(items@);
        }
        if items.len() != 3 {
            return None;
        }
        let id = read_ia5(&items[0])?;
        let version = read_i64(&items[1])?;
        let vid = read_ia5(&items[2])?;
        Some(SesHeader { id, version, vid })
    }
}

pub open spec fn valid_picture(t: SpecTlv) -> bool {
    match seq_items(t) {
        Some(s) => s.len() == 4 && spec_ia5(s[0]) is Some && spec_octets(s[1]) is Some && spec_u64(
            s[2],
        ) is Some && spec_u64(s[3]) is Some,
        None => false,
    }
}

impl SesEsPictureInfo {
    pub open spec fn decodes(self, t: SpecTlv) -> bool {
        match seq_items(t) {
            Some(s) => s.len() == 4 && spec_ia5(s[0]) == Some(self.typ@) && spec_octets(s[1])
                == Some(self.data@) && spec_u64(s[2]) == Some(self.width) && spec_u64(s[3]) == Some(
                self.height,
            ),
            None => false,
        }
    }

    pub fn from_tlv(t: &Tlv) -> (r: Option<Self>)
        ensures
            r is Some <==> valid_picture(t@),
            r matches Some(x) ==> x.decodes(t@),
    {
        let items = items_of(t)?;
        proof {
            lemma_tlvs_view_index(items@);
        }
        if items.len() != 4 {
            return None;
        }
        let typ = read_ia5(&items[0])?;
        let data = read_octets(&items[1])?;
        let width = read_u64(&items[2])?;
        let height = read_u64(&items[3])?;
        Some(SesEsPictureInfo { typ, data, width, height })
    }
}

pub open spec fn valid_cert_digest(t: SpecTlv) -> bool {
    match seq_items(t) {
        Some(s) => s.len() == 2 && spec_printable(s[0]) is Some && spec_octets(s[1]) is Some,
        None => false,
    }
}

impl CertDigestObj {
    pub open spec fn decodes(self, t: SpecTlv) -> bool {
        match seq_items(t) {
            Some(s) => s.len() == 2 && spec_printable(s[0]) == Some(self.typ@) && spec_octets(s[1])
                == Some(self.value@),
            None => false,
        }
    }

    pub fn from_tlv(t: &Tlv) -> (r: Option<Self>)
        ensures
            r is Some <==> valid_cert_digest(t@),
            r matches Some(x) ==> x.decodes(t@),
    {
        let items = items_of(t)?;
        proof {
            lemma_tlvs_view_index(items@);
        }
        if items.len() != 2 {
            return None;
        }
        let typ = read_printable(&items[0])?;
        let value = read_octets(&items[1])?;
        Some(CertDigestObj { typ, value })
    }
}

/// The certificate list is a `CHOICE` of two `SEQUENCE OF`s that share
/// their tag: a `SEQUENCE` is always read as a list of certificates.
pub open spec fn valid_cert_list(t: SpecTlv) -> bool {
    match seq_items(t) {
        Some(s) => forall|i: int| 0 <= i < s.len() ==> #[trigger] spec_octets(s[i]) is Some,
        None => false,
    }
}

impl SesCertList {
    pub open spec fn decodes(self, t: SpecTlv) -> bool {
        match seq_items(t) {
            Some(s) => match self {
                SesCertList::Certs(v) => v@.len() == s.len() && forall|i: int|
                    0 <= i < s.len() ==> #[trigger] spec_octets(s[i]) == Some(v@[i]@),
                SesCertList::CertDigestList(_) => false,
            },
            None => false,
        }
    }

    pub fn from_tlv(t: &Tlv) -> (r: Option<Self>)
        ensures
            r is Some <==> valid_cert_list(t@),
            r matches Some(x) ==> x.decodes(t@),
    {
        let items = items_of(t)?;
        proof {
            lemma_tlvs_view_index(items@);
        }
        let ghost s = tlvs_view(items@);
        let mut certs: Vec<Vec<u8>> = Vec::new();
        let mut i: usize = 0;
        while i < items.len()
            invariant
                i <= items@.len(),
                s == tlvs_view(items@),
                seq_items(t@) == Some(s),
                s.len() == items@.len(),
                forall|k: int| 0 <= k < items@.len() ==> #[trigger] s[k] == tlv_view(items@[k]),
                certs@.len() == i,
                forall|k: int| 0 <= k < i ==> #[trigger] spec_octets(s[k]) == Some(certs@[k]@),
            decreases items@.len() - i,
        {
            match read_octets(&items[i]) {
                Some(c) => certs.push(c),
                None => {
                    assert(s[i as int] == tlv_view(items@[i as int]));
                    assert(!(spec_octets(s[i as int]) is Some));
                    return None;
                },
            }
            i = i + 1;
        }
        Some(SesCertList::Certs(certs))
    }
}

pub open spec fn valid_property(t: SpecTlv) -> bool {
    match seq_items(t) {
        Some(s) => s.len() == 7 && spec_i64(s[0]) is Some && spec_utf8_string(s[1]) is Some
            && spec_i64(s[2]) is Some && valid_cert_list(s[3]) && spec_generalized_time(s[4]) is Some
            && spec_generalized_time(s[5]) is Some && spec_generalized_time(s[6]) is Some,
        None => false,
    }
}

impl SesEsPropertyInfo {
    pub open spec fn decodes(self, t: SpecTlv) -> bool {
        match seq_items(t) {
            Some(s) => s.len() == 7 && spec_i64(s[0]) == Some(self.typ) && spec_utf8_string(s[1])
                == Some(self.name@) && spec_i64(s[2]) == Some(self.cert_list_type)
                && self.cert_list.decodes(s[3]) && spec_generalized_time(s[4]) == Some(
                self.create_date@,
            ) && spec_generalized_time(s[5]) == Some(self.valid_start@) && spec_generalized_time(
                s[6],
            ) == Some(self.valid_end@),
            None => false,
        }
    }

    pub fn from_tlv(t: &Tlv) -> (r: Option<Self>)
        ensures
            r is Some <==> valid_property(t@),
            r matches Some(x) ==> x.decodes(t@),
    {
        let items = items_of(t)?;
        proof {
            lemma_tlvs_view_index(items@);
        }
        if items.len() != 7 {
            return None;
        }
        let typ = read_i64(&items[0])?;
        let name = read_utf8_string(&items[1])?;
        let cert_list_type = read_i64(&items[2])?;
        let cert_list = SesCertList::from_tlv(&items[3])?;
        let create_date = read_generalized_time(&items[4])?;
        let valid_start = read_generalized_time(&items[5])?;
        let valid_end = read_generalized_time(&items[6])?;
        Some(
            SesEsPropertyInfo {
                typ,
                name,
                cert_list_type,
                cert_list,
                create_date,
                valid_start,
                valid_end,
            },
        )
    }
}

pub open spec fn valid_ext(t: SpecTlv) -> bool {
    match seq_items(t) {
        Some(s) => s.len() == 3 && spec_oid(s[0]) is Some && spec_boolean(s[1]) is Some
            && spec_octets(s[2]) is Some,
        None => false,
    }
}

impl ExtData {
    pub open spec fn decodes(self, t: SpecTlv) -> bool {
        match seq_items(t) {
            Some(s) => s.len() == 3 && spec_oid(s[0]) == Some(self.extn_id@) && spec_boolean(s[1])
                == Some(self.critical) && spec_octets(s[2]) == Some(self.extn@),
            None => false,
        }
    }

    pub fn from_tlv(t: &Tlv) -> (r: Option<Self>)
        ensures
            r is Some <==> valid_ext(t@),
            r matches Some(x) ==> x.decodes(t@),
    {
        let items = items_of(t)?;
        proof {
            lemma_tlvs_view_index(items@);
        }
        if items.len() != 3 {
            return None;
        }
        let extn_id = read_oid(&items[0])?;
        let critical = read_boolean(&items[1])?;
        let extn = read_octets(&items[2])?;
        Some(ExtData { extn_id, critical, extn })
    }
}

pub open spec fn valid_ext_list(t: SpecTlv) -> bool {
    match seq_items(t) {
        Some(s) => forall|i: int| 0 <= i < s.len() ==> #[trigger] valid_ext(s[i]),
        None => false,
    }
}

pub open spec fn ext_list_decodes(v: Seq<ExtData>, t: SpecTlv) -> bool {
    match seq_items(t) {
        Some(s) => v.len() == s.len() && forall|i: int|
            0 <= i < s.len() ==> #[trigger] v[i].decodes(s[i]),
        None => false,
    }
}

/// Reads a `SEQUENCE OF` extension data.
pub fn ext_list_from_tlv(t: &Tlv) -> (r: Option<Vec<ExtData>>)
    ensures
        r is Some <==> valid_ext_list(t@),
        r matches Some(v) ==> ext_list_decodes(v@, t@),
{
    let items = items_of(t)?;
    proof {
        lemma_tlvs_view_index(items@);
    }
    let ghost s = tlvs_view(items@);
    let mut res: Vec<ExtData> = Vec::new();
    let mut i: usize = 0;
    while i < items.len()
        invariant
            i <= items@.len(),
            s == tlvs_view(items@),
            seq_items(t@) == Some(s),
            s.len() == items@.len(),
            forall|k: int| 0 <= k < items@.len() ==> #[trigger] s[k] == tlv_view(items@[k]),
            res@.len() == i,
            forall|k: int| 0 <= k < i ==> #[trigger] res@[k].decodes(s[k]),
            forall|k: int| 0 <= k < i ==> #[trigger] valid_ext(s[k]),
        decreases items@.len() - i,
    {
        match ExtData::from_tlv(&items[i]) {
            Some(e) => res.push(e),
            None => {
                assert(s[i as int] == tlv_view(items@[i as int]));
                assert(!valid_ext(s[i as int]));
                assert(valid_ext_list(t@) == match seq_items(t@) {
                    Some(s2) => forall|k: int| 0 <= k < s2.len() ==> #[trigger] valid_ext(s2[k]),
                    None => false,
                });
                return None;
            },
        }
        i = i + 1;
    }
    Some(res)
}

/// An optional trailing `SEQUENCE OF` extension data, at `pos`.
pub open spec fn valid_opt_ext(s: Seq<SpecTlv>, pos: int) -> bool {
    s.len() == pos || (s.len() == pos + 1 && valid_ext_list(s[pos]))
}

pub open spec fn opt_ext_decodes(e: Option<Vec<ExtData>>, s: Seq<SpecTlv>, pos: int) -> bool {
    match e {
        None => s.len() == pos,
        Some(v) => s.len() == pos + 1 && ext_list_decodes(v@, s[pos]),
    }
}

fn opt_ext_from_items(items: &Vec<Tlv>, pos: usize) -> (r: Option<Option<Vec<ExtData>>>)
    requires
        pos <= items@.len(),
    ensures
        r is Some <==> valid_opt_ext(tlvs_view(items@), pos as int),
        r matches Some(e) ==> opt_ext_decodes(e, tlvs_view(items@), pos as int),
{
    proof {
        lemma_tlvs_view_index(items@);
    }
    if items.len() == pos {
        Some(None)
    } else if items.len() == pos + 1 {
        match ext_list_from_tlv(&items[pos]) {
            Some(v) => Some(Some(v)),
            None => None,
        }
    } else {
        None
    }
}

pub open spec fn valid_seal_info(t: SpecTlv) -> bool {
    match seq_items(t) {
        Some(s) => s.len() >= 4 && valid_header(s[0]) && spec_ia5(s[1]) is Some && valid_property(
            s[2],
        ) && valid_picture(s[3]) && valid_opt_ext(s, 4),
        None => false,
    }
}

impl SesSealInfo {
    pub open spec fn decodes(self, t: SpecTlv) -> bool {
        match seq_items(t) {
            Some(s) => s.len() >= 4 && self.header.decodes(s[0]) && spec_ia5(s[1]) == Some(
                self.es_id@,
            ) && self.property.decodes(s[2]) && self.picture.decodes(s[3]) && opt_ext_decodes(
                self.ext_data,
                s,
                4,
            ),
            None => false,
        }
    }

    pub fn from_tlv(t: &Tlv) -> (r: Option<Self>)
        ensures
            r is Some <==> valid_seal_info(t@),
            r matches Some(x) ==> x.decodes(t@),
    {
        let items = items_of(t)?;
        proof {
            lemma_tlvs_view_index(items@);
        }
        if items.len() < 4 {
            return None;
        }
        let header = SesHeader::from_tlv(&items[0])?;
        let es_id = read_ia5(&items[1])?;
        let property = SesEsPropertyInfo::from_tlv(&items[2])?;
        let picture = SesEsPictureInfo::from_tlv(&items[3])?;
        let ext_data = opt_ext_from_items(items, 4)?;
        Some(SesSealInfo { header, es_id, property, picture, ext_data })
    }
}

pub open spec fn valid_seal(t: SpecTlv) -> bool {
    match seq_items(t) {
        Some(s) => s.len() == 4 && valid_seal_info(s[0]) && spec_octets(s[1]) is Some && spec_oid(
            s[2],
        ) is Some && spec_bits_ok(s[3]),
        None => false,
    }
}

impl SesSeal {
    pub open spec fn decodes(self, t: SpecTlv) -> bool {
        match seq_items(t) {
            Some(s) => s.len() == 4 && self.e_seal_info.decodes(s[0]) && spec_octets(s[1]) == Some(
                self.cert@,
            ) && spec_oid(s[2]) == Some(self.signature_alg_id@) && bits_match(
                self.signed_value,
                s[3],
            ),
            None => false,
        }
    }

    pub fn from_tlv(t: &Tlv) -> (r: Option<Self>)
        ensures
            r is Some <==> valid_seal(t@),
            r matches Some(x) ==> x.decodes(t@),
    {
        let items = items_of(t)?;
        proof {
            lemma_tlvs_view_index(items@);
        }
        if items.len() != 4 {
            return None;
        }
        let e_seal_info = SesSealInfo::from_tlv(&items[0])?;
        let cert = read_octets(&items[1])?;
        let signature_alg_id = read_oid(&items[2])?;
        let signed_value = read_bits(&items[3])?;
        Some(SesSeal { e_seal_info, cert, signature_alg_id, signed_value })
    }
}

pub open spec fn valid_tbs_sign(t: SpecTlv) -> bool {
    match seq_items(t) {
        Some(s) => s.len() >= 5 && spec_i64(s[0]) is Some && valid_seal(s[1])
            && spec_generalized_time(s[2]) is Some && spec_bits_ok(s[3]) && spec_ia5(s[4]) is Some
            && valid_opt_ext(s, 5),
        None => false,
    }
}

impl TbsSign {
    pub open spec fn decodes(self, t: SpecTlv) -> bool {
        match seq_items(t) {
            Some(s) => s.len() >= 5 && spec_i64(s[0]) == Some(self.version) && self.e_seal.decodes(
                s[1],
            ) && spec_generalized_time(s[2]) == Some(self.time_info@) && bits_match(
                self.data_hash,
                s[3],
            ) && spec_ia5(s[4]) == Some(self.property_info@) && opt_ext_decodes(
                self.ext_data,
                s,
                5,
            ),
            None => false,
        }
    }

    pub fn from_tlv(t: &Tlv) -> (r: Option<Self>)
        ensures
            r is Some <==> valid_tbs_sign(t@),
            r matches Some(x) ==> x.decodes(t@),
    {
        let items = items_of(t)?;
        proof {
            lemma_tlvs_view_index(items@);
        }
        if items.len() < 5 {
            return None;
        }
        let version = read_i64(&items[0])?;
        let e_seal = SesSeal::from_tlv(&items[1])?;
        let time_info = read_generalized_time(&items[2])?;
        let data_hash = read_bits(&items[3])?;
        let property_info = read_ia5(&items[4])?;
        let ext_data = opt_ext_from_items(items, 5)?;
        Some(TbsSign { version, e_seal, time_info, data_hash, property_info, ext_data })
    }
}

pub open spec fn valid_signature(t: SpecTlv) -> bool {
    match seq_items(t) {
        Some(s) => (s.len() == 4 || s.len() == 5) && valid_tbs_sign(s[0]) && spec_octets(s[1]) is Some
            && spec_oid(s[2]) is Some && spec_bits_ok(s[3]) && (s.len() == 5 ==> spec_bits_ok(s[4])),
        None => false,
    }
}

impl SesSignature {
    pub open spec fn decodes(self, t: SpecTlv) -> bool {
        match seq_items(t) {
            Some(s) => (s.len() == 4 || s.len() == 5) && self.to_sign.decodes(s[0]) && spec_octets(
                s[1],
            ) == Some(self.cert@) && spec_oid(s[2]) == Some(self.signature_alg_id@) && bits_match(
                self.signature,
                s[3],
            ) && match self.timestamp {
                None => s.len() == 4,
                Some(b) => s.len() == 5 && bits_match(b, s[4]),
            },
            None => false,
        }
    }

    pub fn from_tlv(t: &Tlv) -> (r: Option<Self>)
        ensures
            r is Some <==> valid_signature(t@),
            r matches Some(x) ==> x.decodes(t@),
    {
        let items = items_of(t)?;
        proof {
            lemma_tlvs_view_index(items@);
        }
        if items.len() != 4 && items.len() != 5 {
            return None;
        }
        let to_sign = TbsSign::from_tlv(&items[0])?;
        let cert = read_octets(&items[1])?;
        let signature_alg_id = read_oid(&items[2])?;
        let signature = read_bits(&items[3])?;
        let timestamp = if items.len() == 5 {
            Some(read_bits(&items[4])?)
        } else {
            None
        };
        Some(SesSignature { to_sign, cert, signature_alg_id, signature, timestamp })
    }
}

} // verus!
