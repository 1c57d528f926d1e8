//! Electronic seals and signatures of version 1 (GM/T 0031).
use crate::asn1::{
    bits_match, items_of, read_bits, read_boolean, read_i64, read_ia5, read_octets, read_oid,
    read_u64, read_utc_time, read_utf8_string, seq_items, spec_bits_ok, spec_boolean, spec_i64,
    spec_ia5, spec_octets, spec_oid, spec_u64, spec_utc_time, spec_utf8_string, BitStr,
};
use crate::der::{lemma_tlvs_view_index, tlv_view, tlvs_view, SpecTlv, Tlv};
use vstd::prelude::*;

verus! {

/// 电子印章数据
#[derive(Debug)]
pub struct SeSeal {
    /// 印章信息
    pub e_seal_info: SesSealInfo,
    /// 制章人对印章签名的信息
    pub sign_info: SesSignInfo,
}

/// 印章签名信息
#[derive(Debug)]
pub struct SesSignInfo {
    pub cert: Vec<u8>,
    pub signature_algorithm: Vec<u8>,
    pub sign_data: BitStr,
}

#[derive(Debug)]
pub struct SesSealInfo {
    /// 头信息
    pub header: SesHeader,
    /// 电子印章标识
    pub es_id: String,
    /// 印章属性信息
    pub property: SesEsPropertyInfo,
    /// 电子印章图片数据
    pub picture: SesEsPictureInfo,
    pub ext_data: Option<Vec<ExtData>>,
}

/// 印章属性信息
#[derive(Debug)]
pub struct SesEsPropertyInfo {
    /// 印章类型，如 1 为代为印章，2为个人印章
    pub typ: u64,
    /// 印章名称
    pub name: String,
    /// 签章人证书列表
    pub cert_list: Vec<Vec<u8>>,
    /// 印章制作日期 (content octets of the UTCTime)
    pub create_date: Vec<u8>,
    /// 印章有效起始日期
    pub valid_start: Vec<u8>,
    /// 印章有效终止日期
    pub valid_end: Vec<u8>,
}

/// 印章图片信息
#[derive(Debug)]
pub struct SesEsPictureInfo {
    /// 图片类型
    pub typ: String,
    /// 图片数据
    pub data: Vec<u8>,
    /// 图片显示宽度
    pub width: u64,
    /// 图片显示高度
    pub height: u64,
}

/// 头信息
#[derive(Debug)]
pub struct SesHeader {
    /// 电子信息数据标识, 固定为 `ES`
    pub id: String,
    /// 电子印章数据版本号标识
    pub version: u64,
    /// 电子印章厂商ID
    pub vid: String,
}

#[derive(Debug)]
pub struct ExtData {
    /// 自定义扩展字段标识
    pub extn_id: Vec<u8>,
    /// 自定义扩展字段是否关键
    pub critical: bool,
    /// 自定义扩展字段数据值
    pub extn_value: Vec<u8>,
}

/// The value that an absent `critical` flag stands for.
pub fn default_false() -> (r: bool)
    ensures
        !r,
{
    false
}

/// 电子签章数据
#[derive(Debug)]
pub struct SesSignature {
    /// 待电子签章数据
    pub to_sign: TbsSign,
    /// 电子签章中签名值
    pub signature: BitStr,
}

#[derive(Debug)]
pub struct TbsSign {
    /// 版本信息
    pub version: i64,
    /// 电子印章
    pub e_seal: SeSeal,
    /// 签章时间信息
    pub time_info: BitStr,
    /// 原文杂凑值
    pub data_hash: BitStr,
    /// 原文数据的属性信息
    pub property_info: String,
    /// 签章人对应的签名证书
    pub cert: Vec<u8>,
    /// 签名算法标识
    pub signature_algorithm: Vec<u8>,
}

// ---------------------------------------------------------------------------
// The structures, read from an item tree
// ---------------------------------------------------------------------------

pub open spec fn valid_header(t: SpecTlv) -> bool {
    match seq_items(t) {
        Some(s) => s.len() == 3 && spec_ia5(s[0]) is Some && spec_u64(s[1]) is Some && spec_ia5(
            s[2],
        ) is Some,
        None => false,
    }
}

impl SesHeader {
    pub open spec fn decodes(self, t: SpecTlv) -> bool {
        match seq_items(t) {
            Some(s) => s.len() == 3 && spec_ia5(s[0]) == Some(self.id@) && spec_u64(s[1]) == Some(
                self.version,
            ) && spec_ia5(s[2]) == Some(self.vid@),
            None => false,
        }
    }

    pub fn from_tlv(t: &Tlv) -> (r: Option<Self>)
        ensures
            r is Some <==> valid_header(t@),
            r matches Some(x) ==> x.decodes(t@),
    {
        let items = items_of(t)?;
        proof {
            lemma_tlvs_view_index(items@);
        }
        if items.len() != 3 {
            return None;
        }
        let id = read_ia5(&items[0])?;
        let version = read_u64(&items[1])?;
        let vid = read_ia5(&items[2])?;
        Some(SesHeader { id, version, vid })
    }
}

pub open spec fn valid_picture(t: SpecTlv) -> bool {
    match seq_items(t) {
        Some(s) => s.len() == 4 && spec_ia5(s[0]) is Some && spec_octets(s[1]) is Some && spec_u64(
            s[2],
        ) is Some && spec_u64(s[3]) is Some,
        None => false,
    }
}

impl SesEsPictureInfo {
    pub open spec fn decodes(self, t: SpecTlv) -> bool {
        match seq_items(t) {
            Some(s) => s.len() == 4 && spec_ia5(s[0]) == Some(self.typ@) && spec_octets(s[1])
                == Some(self.data@) && spec_u64(s[2]) == Some(self.width) && spec_u64(s[3]) == Some(
                self.height,
            ),
            None => false,
        }
    }

    pub fn from_tlv(t: &Tlv) -> (r: Option<Self>)
        ensures
            r is Some <==> valid_picture(t@),
            r matches Some(x) ==> x.decodes(t@),
    {
        let items = items_of(t)?;
        proof {
            lemma_tlvs_view_index(items@);
        }
        if items.len() != 4 {
            return None;
        }
        let typ = read_ia5(&items[0])?;
        let data = read_octets(&items[1])?;
        let width = read_u64(&items[2])?;
        let height = read_u64(&items[3])?;
        Some(SesEsPictureInfo { typ, data, width, height })
    }
}

pub open spec fn valid_cert_list(t: SpecTlv) -> bool {
    match seq_items(t) {
        Some(s) => forall|i: int| 0 <= i < s.len() ==> #[trigger] spec_octets(s[i]) is Some,
        None => false,
    }
}

pub open spec fn cert_list_decodes(v: Seq<Vec<u8>>, t: SpecTlv) -> bool {
    match seq_items(t) {
        Some(s) => v.len() == s.len() && forall|i: int|
            0 <= i < s.len() ==> #[trigger] spec_octets(s[i]) == Some(v[i]@),
        None => false,
    }
}

/// Reads a `SEQUENCE OF` certificates.
pub fn cert_list_from_tlv(t: &Tlv) -> (r: Option<Vec<Vec<u8>>>)
    ensures
        r is Some <==> valid_cert_list(t@),
        r matches Some(v) ==> cert_list_decodes(v@, t@),
{
    let items = items_of(t)?;
    proof {
        lemma_tlvs_view_index(items@);
    }
    let ghost s = tlvs_view(items@);
    let mut certs: Vec<Vec<u8>> = Vec::new();
    let mut i: usize = 0;
    while i < items.len()
        invariant
            i <= items@.len(),
            s == tlvs_view(items@),
            seq_items(t@) == Some(s),
            s.len() == items@.len(),
            forall|k: int| 0 <= k < items@.len() ==> #[trigger] s[k] == tlv_view(items@[k]),
            certs@.len() == i,
            forall|k: int| 0 <= k < i ==> #[trigger] spec_octets(s[k]) == Some(certs@[k]@),
        decreases items@.len() - i,
    {
        match read_octets(&items[i]) {
            Some(c) => certs.push(c),
            None => {
                assert(s[i as int] == tlv_view(items@[i as int]));
                assert(!(spec_octets(s[i as int]) is Some));
                return None;
            },
        }
        i = i + 1;
    }
    Some(certs)
}

pub open spec fn valid_property(t: SpecTlv) -> bool {
    match seq_items(t) {
        Some(s) => s.len() == 6 && spec_u64(s[0]) is Some && spec_utf8_string(s[1]) is Some
            && valid_cert_list(s[2]) && spec_utc_time(s[3]) is Some && spec_utc_time(s[4]) is Some
            && spec_utc_time(s[5]) is Some,
        None => false,
    }
}

impl SesEsPropertyInfo {
    pub open spec fn decodes(self, t: SpecTlv) -> bool {
        match seq_items(t) {
            Some(s) => s.len() == 6 && spec_u64(s[0]) == Some(self.typ) && spec_utf8_string(s[1])
                == Some(self.name@) && cert_list_decodes(self.cert_list@, s[2]) && spec_utc_time(
                s[3],
            ) == Some(self.create_date@) && spec_utc_time(s[4]) == Some(self.valid_start@)
                && spec_utc_time(s[5]) == Some(self.valid_end@),
            None => false,
        }
    }

    pub fn from_tlv(t: &Tlv) -> (r: Option<Self>)
        ensures
            r is Some <==> valid_property(t@),
            r matches Some(x) ==> x.decodes(t@),
    {
        let items = items_of(t)?;
        proof {
            lemma_tlvs_view_index(items@);
        }
        if items.len() != 6 {
            return None;
        }
        let typ = read_u64(&items[0])?;
        let name = read_utf8_string(&items[1])?;
        let cert_list = cert_list_from_tlv(&items[2])?;
        let create_date = read_utc_time(&items[3])?;
        let valid_start = read_utc_time(&items[4])?;
        let valid_end = read_utc_time(&items[5])?;
        Some(SesEsPropertyInfo { typ, name, cert_list, create_date, valid_start, valid_end })
    }
}

/// `critical` is `DEFAULT FALSE`: it may be left out.
pub open spec fn valid_ext(t: SpecTlv) -> bool {
    match seq_items(t) {
        Some(s) => spec_oid(s[0]) is Some && ((s.len() == 2 && spec_octets(s[1]) is Some) || (
        s.len() == 3 && spec_boolean(s[1]) is Some && spec_octets(s[2]) is Some)),
        None => false,
    }
}

impl ExtData {
    pub open spec fn decodes(self, t: SpecTlv) -> bool {
        match seq_items(t) {
            Some(s) => spec_oid(s[0]) == Some(self.extn_id@) && ((s.len() == 2 && !self.critical
                && spec_octets(s[1]) == Some(self.extn_value@)) || (s.len() == 3 && spec_boolean(
                s[1],
            ) == Some(self.critical) && spec_octets(s[2]) == Some(self.extn_value@))),
            None => false,
        }
    }

    pub fn from_tlv(t: &Tlv) -> (r: Option<Self>)
        ensures
            r is Some <==> valid_ext(t@),
            r matches Some(x) ==> x.decodes(t@),
    {
        let items = items_of(t)?;
        proof {
            lemma_tlvs_view_index(items@);
        }
        if items.len() != 2 && items.len() != 3 {
            return None;
        }
        let extn_id = read_oid(&items[0])?;
        if items.len() == 2 {
            let extn_value = read_octets(&items[1])?;
            Some(ExtData { extn_id, critical: default_false(), extn_value })
        } else {
            let critical = read_boolean(&items[1])?;
            let extn_value = read_octets(&items[2])?;
            Some(ExtData { extn_id, critical, extn_value })
        }
    }
}

pub open spec fn valid_ext_list(t: SpecTlv) -> bool {
    match seq_items(t) {
        Some(s) => forall|i: int| 0 <= i < s.len() ==> #[trigger] valid_ext(s[i]),
        None => false,
    }
}

pub open spec fn ext_list_decodes(v: Seq<ExtData>, t: SpecTlv) -> bool {
    match seq_items(t) {
        Some(s) => v.len() == s.len() && forall|i: int|
            0 <= i < s.len() ==> #[trigger] v[i].decodes(s[i]),
        None => false,
    }
}

/// Reads a `SEQUENCE OF` extension data.
pub fn ext_list_from_tlv(t: &Tlv) -> (r: Option<Vec<ExtData>>)
    ensures
        r is Some <==> valid_ext_list(t@),
        r matches Some(v) ==> ext_list_decodes(v@, t@),
{
    let items = items_of(t)?;
    proof {
        lemma_tlvs_view_index(items@);
    }
    let ghost s = tlvs_view(items@);
    let mut res: Vec<ExtData> = Vec::new();
    let mut i: usize = 0;
    while i < items.len()
        invariant
            i <= items@.len(),
            s == tlvs_view(items@),
            seq_items(t@) == Some(s),
            s.len() == items@.len(),
            forall|k: int| 0 <= k < items@.len() ==> #[trigger] s[k] == tlv_view(items@[k]),
            res@.len() == i,
            forall|k: int| 0 <= k < i ==> #[trigger] res@[k].decodes(s[k]),
            forall|k: int| 0 <= k < i ==> #[trigger] valid_ext(s[k]),
        decreases items@.len() - i,
    {
        match ExtData::from_tlv(&items[i]) {
            Some(e) => res.push(e),
            None => {
                assert(s[i as int] == tlv_view(items@[i as int]));
                assert(!valid_ext(s[i as int]));
                assert(valid_ext_list(t@) == match seq_items(t@) {
                    Some(s2) => forall|k: int| 0 <= k < s2.len() ==> #[trigger] valid_ext(s2[k]),
                    None => false,
                });
                return None;
            },
        }
        i = i + 1;
    }
    Some(res)
}

pub open spec fn valid_seal_info(t: SpecTlv) -> bool {
    match seq_items(t) {
        Some(s) => (s.len() == 4 || (s.len() == 5 && valid_ext_list(s[4]))) && valid_header(s[0])
            && spec_ia5(s[1]) is Some && valid_property(s[2]) && valid_picture(s[3]),
        None => false,
    }
}

impl SesSealInfo {
    pub open spec fn decodes(self, t: SpecTlv) -> bool {
        match seq_items(t) {
            Some(s) => self.header.decodes(s[0]) && spec_ia5(s[1]) == Some(self.es_id@)
                && self.property.decodes(s[2]) && self.picture.decodes(s[3]) && match self.ext_data {
                None => s.len() == 4,
                Some(v) => s.len() == 5 && ext_list_decodes(v@, s[4]),
            },
            None => false,
        }
    }

    pub fn from_tlv(t: &Tlv) -> (r: Option<Self>)
        ensures
            r is Some <==> valid_seal_info(t@),
            r matches Some(x) ==> x.decodes(t@),
    {
        let items = items_of(t)?;
        proof {
            lemma_tlvs_view_index(items@);
        }
        if items.len() != 4 && items.len() != 5 {
            return None;
        }
        let header = SesHeader::from_tlv(&items[0])?;
        let es_id = read_ia5(&items[1])?;
        let property = SesEsPropertyInfo::from_tlv(&items[2])?;
        let picture = SesEsPictureInfo::from_tlv(&items[3])?;
        let ext_data = if items.len() == 5 {
            Some(ext_list_from_tlv(&items[4])?)
        } else {
            None
        };
        Some(SesSealInfo { header, es_id, property, picture, ext_data })
    }
}

pub open spec fn valid_sign_info(t: SpecTlv) -> bool {
    match seq_items(t) {
        Some(s) => s.len() == 3 && spec_octets(s[0]) is Some && spec_oid(s[1]) is Some
            && spec_bits_ok(s[2]),
        None => false,
    }
}

impl SesSignInfo {
    pub open spec fn decodes(self, t: SpecTlv) -> bool {
        match seq_items(t) {
            Some(s) => s.len() == 3 && spec_octets(s[0]) == Some(self.cert@) && spec_oid(s[1])
                == Some(self.signature_algorithm@) && bits_match(self.sign_data, s[2]),
            None => false,
        }
    }

    pub fn from_tlv(t: &Tlv) -> (r: Option<Self>)
        ensures
            r is Some <==> valid_sign_info(t@),
            r matches Some(x) ==> x.decodes(t@),
    {
        let items = items_of(t)?;
        proof {
            lemma_tlvs_view_index(items@);
        }
        if items.len() != 3 {
            return None;
        }
        let cert = read_octets(&items[0])?;
        let signature_algorithm = read_oid(&items[1])?;
        let sign_data = read_bits(&items[2])?;
        Some(SesSignInfo { cert, signature_algorithm, sign_data })
    }
}

pub open spec fn valid_seal(t: SpecTlv) -> bool {
    match seq_items(t) {
        Some(s) => s.len() == 2 && valid_seal_info(s[0]) && valid_sign_info(s[1]),
        None => false,
    }
}

impl SeSeal {
    pub open spec fn decodes(self, t: SpecTlv) -> bool {
        match seq_items(t) {
            Some(s) => s.len() == 2 && self.e_seal_info.decodes(s[0]) && self.sign_info.decodes(
                s[1],
            ),
            None => false,
        }
    }

    pub fn from_tlv(t: &Tlv) -> (r: Option<Self>)
        ensures
            r is Some <==> valid_seal(t@),
            r matches Some(x) ==> x.decodes(t@),
    {
        let items = items_of(t)?;
        proof {
            lemma_tlvs_view_index(items@);
        }
        if items.len() != 2 {
            return None;
        }
        let e_seal_info = SesSealInfo::from_tlv(&items[0])?;
        let sign_info = SesSignInfo::from_tlv(&items[1])?;
        Some(SeSeal { e_seal_info, sign_info })
    }
}

pub open spec fn valid_tbs_sign(t: SpecTlv) -> bool {
    match seq_items(t) {
        Some(s) => s.len() == 7 && spec_i64(s[0]) is Some && valid_seal(s[1]) && spec_bits_ok(s[2])
            && spec_bits_ok(s[3]) && spec_ia5(s[4]) is Some && spec_octets(s[5]) is Some && spec_oid(
            s[6],
        ) is Some,
        None => false,
    }
}

impl TbsSign {
    pub open spec fn decodes(self, t: SpecTlv) -> bool {
        match seq_items(t) {
            Some(s) => s.len() == 7 && spec_i64(s[0]) == Some(self.version) && self.e_seal.decodes(
                s[1],
            ) && bits_match(self.time_info, s[2]) && bits_match(self.data_hash, s[3]) && spec_ia5(
                s[4],
            ) == Some(self.property_info@) && spec_octets(s[5]) == Some(self.cert@) && spec_oid(
                s[6],
            ) == Some(self.signature_algorithm@),
            None => false,
        }
    }

    pub fn from_tlv(t: &Tlv) -> (r: Option<Self>)
        ensures
            r is Some <==> valid_tbs_sign(t@),
            r matches Some(x) ==> x.decodes(t@),
    {
        let items = items_of(t)?;
        proof {
            lemma_tlvs_view_index(items@);
        }
        if items.len() != 7 {
            return None;
        }
        let version = read_i64(&items[0])?;
        let e_seal = SeSeal::from_tlv(&items[1])?;
        let time_info = read_bits(&items[2])?;
        let data_hash = read_bits(&items[3])?;
        let property_info = read_ia5(&items[4])?;
        let cert = read_octets(&items[5])?;
        let signature_algorithm = read_oid(&items[6])?;
        Some(TbsSign { version, e_seal, time_info, data_hash, property_info, cert, signature_algorithm })
    }
}

pub open spec fn valid_signature(t: SpecTlv) -> bool {
    match seq_items(t) {
        Some(s) => s.len() == 2 && valid_tbs_sign(s[0]) && spec_bits_ok(s[1]),
        None => false,
    }
}

impl SesSignature {
    pub open spec fn decodes(self, t: SpecTlv) -> bool {
        match seq_items(t) {
            Some(s) => s.len() == 2 && self.to_sign.decodes(s[0]) && bits_match(self.signature, s[1]),
            None => false,
        }
    }

    pub fn from_tlv(t: &Tlv) -> (r: Option<Self>)
        ensures
            r is Some <==> valid_signature(t@),
            r matches Some(x) ==> x.decodes(t@),
    {
        let items = items_of(t)?;
        proof {
            lemma_tlvs_view_index(items@);
        }
        if items.len() != 2 {
            return None;
        }
        let to_sign = TbsSign::from_tlv(&items[0])?;
        let signature = read_bits(&items[1])?;
        Some(SesSignature { to_sign, signature })
    }
}

} // verus!
