//! Requests for the key pairs, certificates and electronic seals of the
//! national (SM2) algorithms: builders that gather the settings of a request.
use crate::asn1::BitStr;
use crate::encode::{spec_item_octets, to_der};
use crate::seal::{
    cert_list_tree, header_tree, i64_tree, ia5_tree, octets_tree, picture_tree, prim_tree,
    property_tree, seal_info_readable, seal_info_tree, seal_tree, seq_tree, u64_tree, utf8_tree,
    lemma_seal_tree_read_back,
};
use crate::der::{SpecTlv, Tag};
use crate::sign::{der_single, SignClass};
use crate::value::chars_of;
use crate::v4::{SesCertList, SesEsPictureInfo, SesEsPropertyInfo, SesHeader, SesSeal, SesSealInfo};
use der::{DecodePem, Encode};
use signature::Signer;
use der::pem::LineEnding;
use der::EncodePem;
use sm2::dsa::{Signature, SigningKey};
use sm2::SecretKey;
use std::time::{Duration, UNIX_EPOCH};
use x509_cert::builder::profile::cabf::Root;
use x509_cert::builder::{Builder, CertificateBuilder};
use x509_cert::name::Name;
use x509_cert::serial_number::SerialNumber;
use x509_cert::spki::SubjectPublicKeyInfoOwned;
use x509_cert::time::{Time, Validity};
use sm2::elliptic_curve::Generate;
use sm2::pkcs8::{DecodePrivateKey, EncodePrivateKey, EncodePublicKey};
use vstd::prelude::*;
use vstd::utf8::*;

verus! {

/// Generate keypair request: builder for the generate keypair action.
pub struct GenKeyPairReq {
    /// create parent dirs or not
    pub mkdir: bool,
    /// secret key output path
    pub sk_path: String,
    /// extract and save public key or not
    pub extract_pk: bool,
    /// public key output path
    pub pk_path: String,
}

impl GenKeyPairReq {
    pub fn new() -> (r: Self)
        ensures
            !r.mkdir,
            r.sk_path@ == Seq::<char>::empty(),
            !r.extract_pk,
            r.pk_path@ == Seq::<char>::empty(),
    {
        GenKeyPairReq { mkdir: false, sk_path: String::new(), extract_pk: false, pk_path: String::new() }
    }

    pub fn mkdir(&mut self, mkdir: bool) -> (r: &mut Self)
        ensures
            *r == (GenKeyPairReq { mkdir, ..*old(self) }),
            *final(self) == *final(r),
    {
        self.mkdir = mkdir;
        self
    }

    pub fn sk_path(&mut self, sk_path: &str) -> (r: &mut Self)
        ensures
            r.sk_path@ == sk_path@,
            r.mkdir == old(self).mkdir,
            r.extract_pk == old(self).extract_pk,
            r.pk_path == old(self).pk_path,
            *final(self) == *final(r),
    {
        self.sk_path = sk_path.to_owned();
        self
    }

    pub fn extract_pk(&mut self, extract_pk: bool) -> (r: &mut Self)
        ensures
            *r == (GenKeyPairReq { extract_pk, ..*old(self) }),
            *final(self) == *final(r),
    {
        self.extract_pk = extract_pk;
        self
    }

    pub fn pk_path(&mut self, pk_path: &str) -> (r: &mut Self)
        ensures
            r.pk_path@ == pk_path@,
            r.mkdir == old(self).mkdir,
            r.extract_pk == old(self).extract_pk,
            r.sk_path == old(self).sk_path,
            *final(self) == *final(r),
    {
        self.pk_path = pk_path.to_owned();
        self
    }
}

/// The PEM text of the public key (SubjectPublicKeyInfo) of the SM2 secret
/// key that the PKCS#8 PEM text holds, as `sm2` writes it; `None` where the
/// text holds no key.
pub uninterp spec fn sm2_public_key_pem(key_pem: Seq<char>) -> Option<Seq<char>>;

/// `SecretKey::try_generate` of `sm2` (the system's random source), written
/// by `to_pkcs8_pem`: a fresh key, so nothing is claimed of which; by the
/// crate's source it is a non-zero scalar, which the key check accepts.
#[verifier::external_body]
fn random_key_pem() -> (r: Option<String>)
    ensures
        r matches Some(k) ==> sm2_key_ok(k@),
{
    let key = SecretKey::try_generate().ok()?;
    key.to_pkcs8_pem(LineEnding::LF).ok().map(|k| k.to_string())
}

/// `SecretKey::from_pkcs8_pem`, `public_key` and `to_public_key_pem` of
/// `sm2`: named.
#[verifier::external_body]
fn public_key_pem_of(key_pem: &str) -> (r: Option<String>)
    ensures
        match r {
            Some(p) => sm2_public_key_pem(key_pem@) == Some(p@),
            None => sm2_public_key_pem(key_pem@) is None,
        },
{
    let key = SecretKey::from_pkcs8_pem(key_pem).ok()?;
    key.public_key().to_public_key_pem(LineEnding::LF).ok()
}

/// A key pair as plain text: the secret key, and the public key if any.
pub open spec fn pair_view(r: Result<(String, Option<String>), GmError>) -> Result<(Seq<char>, Option<Seq<char>>), GmError> {
    match r {
        Ok((k, p)) => Ok((k@, match p {
            Some(q) => Some(q@),
            None => None,
        })),
        Err(e) => Err(e),
    }
}

/// The key pair that `req` makes of the secret key `key` (PKCS#8 PEM): the
/// key, and its public key where the request asks for it.
pub open spec fn key_pair_outcome(req: GenKeyPairReq, key: Seq<char>) -> Result<(Seq<char>, Option<Seq<char>>), GmError> {
    if !req.extract_pk {
        Ok((key, None))
    } else {
        match sm2_public_key_pem(key) {
            Some(q) => Ok((key, Some(q))),
            None => Err(GmError::InvalidSigningKey),
        }
    }
}

impl GenKeyPairReq {
    /// The key pair that the request makes of the secret key `key`.
    pub fn key_pair_of(&self, key: String) -> (r: Result<(String, Option<String>), GmError>)
        ensures
            pair_view(r) == key_pair_outcome(*self, key@),
    {
        if self.extract_pk {
            match public_key_pem_of(key.as_str()) {
                Some(pk) => Ok((key, Some(pk))),
                None => Err(GmError::InvalidSigningKey),
            }
        } else {
            Ok((key, None))
        }
    }

    /// A fresh SM2 key pair: whatever key the random source draws, the pair
    /// that `key_pair_of` makes of it; `KeyGeneration` where drawing or
    /// writing the key fails.
    pub fn generate(&self) -> (r: Result<(String, Option<String>), GmError>)
        ensures
            r != Err::<(String, Option<String>), GmError>(GmError::KeyGeneration) ==> exists|k: Seq<char>|
                sm2_key_ok(k) && #[trigger] key_pair_outcome(*self, k) == pair_view(r),
    {
        let key = match random_key_pem() {
            Some(k) => k,
            None => {
                return Err(GmError::KeyGeneration);
            },
        };
        let ghost k = key@;
        let r = self.key_pair_of(key);
        assert(sm2_key_ok(k) && key_pair_outcome(*self, k) == pair_view(r));
        r
    }
}

/// Generate certification request.
pub struct GenCertReq {
    pub mkdir: bool,
    pub signing_key_path: String,
    pub subject: String,
    /// validity period, in seconds
    pub duration: u64,
    pub tbs_key_path: String,
    pub output: String,
}

impl GenCertReq {
    pub fn new() -> (r: Self)
        ensures
            !r.mkdir,
            r.signing_key_path@ == Seq::<char>::empty(),
            r.subject@ == Seq::<char>::empty(),
            r.duration == 0,
            r.tbs_key_path@ == Seq::<char>::empty(),
            r.output@ == Seq::<char>::empty(),
    {
        GenCertReq {
            mkdir: false,
            signing_key_path: String::new(),
            subject: String::new(),
            duration: 0,
            tbs_key_path: String::new(),
            output: String::new(),
        }
    }

    pub fn mkdir(&mut self, mkdir: bool) -> (r: &mut Self)
        ensures
            *r == (GenCertReq { mkdir, ..*old(self) }),
            *final(self) == *final(r),
    {
        self.mkdir = mkdir;
        self
    }

    pub fn signing_key_path(&mut self, signing_key_path: &str) -> (r: &mut Self)
        ensures
            r.signing_key_path@ == signing_key_path@,
            *r == (GenCertReq { signing_key_path: r.signing_key_path, ..*old(self) }),
            *final(self) == *final(r),
    {
        self.signing_key_path = signing_key_path.to_owned();
        self
    }

    pub fn subject(&mut self, subject: &str) -> (r: &mut Self)
        ensures
            r.subject@ == subject@,
            *r == (GenCertReq { subject: r.subject, ..*old(self) }),
            *final(self) == *final(r),
    {
        self.subject = subject.to_owned();
        self
    }

    /// Sets the validity period, in seconds.
    pub fn duration(&mut self, duration: u64) -> (r: &mut Self)
        ensures
            *r == (GenCertReq { duration, ..*old(self) }),
            *final(self) == *final(r),
    {
        self.duration = duration;
        self
    }

    pub fn tbs_key_path(&mut self, tbs_key_path: &str) -> (r: &mut Self)
        ensures
            r.tbs_key_path@ == tbs_key_path@,
            *r == (GenCertReq { tbs_key_path: r.tbs_key_path, ..*old(self) }),
            *final(self) == *final(r),
    {
        self.tbs_key_path = tbs_key_path.to_owned();
        self
    }

    pub fn output(&mut self, output: &str) -> (r: &mut Self)
        ensures
            r.output@ == output@,
            *r == (GenCertReq { output: r.output, ..*old(self) }),
            *final(self) == *final(r),
    {
        self.output = output.to_owned();
        self
    }
}

/// Request for an electronic seal.
pub struct ESealReq {
    /// 当输出路径不存在时，是否新建路径
    pub mkdir: bool,
    /// 签名用的私钥
    pub signing_key_path: String,
    /// 签名用的证书
    pub signing_cert_path: String,
    /// 输出路径
    pub output: String,
    /// 签章外观图片
    pub picture_path: String,
    /// 图片类型
    pub picture_type: String,
    /// 图片尺寸
    pub picture_size: (u64, u64),
    /// 内嵌的证书
    pub embed_cert_path: String,
    /// 签章版本
    pub version: SignClass,
    /// 有效时长, in seconds
    pub duration: u64,
    /// 章名称
    pub stamp_name: String,
}

impl ESealReq {
    /// A request with every setting empty, for a seal of version 4.
    pub fn new() -> (r: Self)
        ensures
            !r.mkdir,
            r.signing_key_path@ == Seq::<char>::empty(),
            r.signing_cert_path@ == Seq::<char>::empty(),
            r.output@ == Seq::<char>::empty(),
            r.picture_path@ == Seq::<char>::empty(),
            r.picture_type@ == Seq::<char>::empty(),
            r.picture_size == (0u64, 0u64),
            r.embed_cert_path@ == Seq::<char>::empty(),
            r.version == SignClass::SesV4,
            r.duration == 0,
            r.stamp_name@ == Seq::<char>::empty(),
    {
        ESealReq {
            mkdir: false,
            signing_key_path: String::new(),
            signing_cert_path: String::new(),
            output: String::new(),
            picture_path: String::new(),
            picture_type: String::new(),
            picture_size: (0, 0),
            embed_cert_path: String::new(),
            version: SignClass::SesV4,
            duration: 0,
            stamp_name: String::new(),
        }
    }
}

// ---------------------------------------------------------------------------
// Assembling a seal
// ---------------------------------------------------------------------------

/// Why a seal cannot be assembled.
#[derive(Debug, PartialEq, Eq, Structural, Clone, Copy)]
pub enum GmError {
    /// a string of the IA5 kind holds a character outside ASCII
    InvalidIa5,
    /// a length exceeds what an item can announce, `u32::MAX` octets
    TooLong,
    /// the octets are no certificate in PEM
    InvalidCertificate,
    /// the key is no SM2 secret key in PKCS#8 PEM, or cannot sign
    InvalidSigningKey,
    /// the octets are no subject public key information in PEM
    InvalidPublicKey,
    /// the subject is no distinguished name in the text form of RFC 4514
    InvalidSubject,
    /// the clock cannot be read, or the end of the validity is beyond what a
    /// time can hold
    InvalidValidity,
    /// the builder of `x509-cert` refuses the certificate
    CertificateRefused,
    /// the random source cannot draw a key, or the key cannot be written
    KeyGeneration,
}

/// The largest length that an item can announce.
pub open spec fn max_item_len() -> nat {
    0xffff_ffff
}

/// The DER octets of the certificate that a PEM text holds, as the
/// `x509-cert` crate decodes and re-encodes it; `None` where it decodes no
/// certificate.
pub uninterp spec fn pem_certificate_der(pem: Seq<u8>) -> Option<Seq<u8>>;

/// The octets of the SM2 signature (`r` then `s`) of `msg` under the secret
/// key of the PKCS#8 PEM text, with the distinguishing identifier `1234`,
/// as the `sm2` crate makes it; `None` where the text holds no key or the
/// key cannot sign. The crate picks its nonce by RFC 6979, so the signature
/// is a function of the key and the message.
pub uninterp spec fn sm2_signature(key_pem: Seq<char>, msg: Seq<u8>) -> Option<Seq<u8>>;

/// `Certificate::from_pem` then `Encode::to_der` of `x509-cert`: the
/// result is named, not described.
#[verifier::external_body]
fn certificate_der(pem: &[u8]) -> (r: Option<Vec<u8>>)
    ensures
        match r {
            Some(v) => pem_certificate_der(pem@) == Some(v@),
            None => pem_certificate_der(pem@) is None,
        },
{
    match x509_cert::Certificate::from_pem(pem) {
        Ok(c) => c.to_der().ok(),
        Err(_) => None,
    }
}

/// Whether the `sm2` crate reads an SM2 secret key from the PKCS#8 PEM text
/// and makes a signing key of it with the identifier `1234`.
pub uninterp spec fn sm2_key_ok(key_pem: Seq<char>) -> bool;

/// `SecretKey::from_pkcs8_pem`, then `SigningKey::new` with the identifier
/// `1234`, of `sm2`: whether both succeed, named, not described.
#[verifier::external_body]
fn sm2_key_check(key_pem: &str) -> (r: bool)
    ensures
        r == sm2_key_ok(key_pem@),
{
    match sm2::SecretKey::from_pkcs8_pem(key_pem) {
        Ok(k) => sm2::dsa::SigningKey::new("1234", &k).is_ok(),
        Err(_) => false,
    }
}

/// `SecretKey::from_pkcs8_pem`, `SigningKey::new` with the identifier
/// `1234`, then `Signer::try_sign` of `sm2`, the signature taken as its
/// octets: the result is named, not described; where the first two steps
/// fail (the key check above) there is none.
#[verifier::external_body]
fn sm2_sign(key_pem: &str, msg: &[u8]) -> (r: Option<Vec<u8>>)
    ensures
        match r {
            Some(v) => sm2_signature(key_pem@, msg@) == Some(v@),
            None => sm2_signature(key_pem@, msg@) is None,
        },
        !sm2_key_ok(key_pem@) ==> r is None,
{
    let key = match sm2::SecretKey::from_pkcs8_pem(key_pem) {
        Ok(k) => k,
        Err(_) => return None,
    };
    let signer = match sm2::dsa::SigningKey::new("1234", &key) {
        Ok(s) => s,
        Err(_) => return None,
    };
    match signer.try_sign(msg) {
        Ok(sig) => Some(sig.to_bytes().to_vec()),
        Err(_) => None,
    }
}

// ---------------------------------------------------------------------------
// Issuing a root certificate
// ---------------------------------------------------------------------------

/// Whether `SubjectPublicKeyInfoOwned::from_pem` of `x509-cert` reads the
/// PEM text.
pub uninterp spec fn spki_pem_ok(pem: Seq<u8>) -> bool;

/// Whether `Name::from_str` of `x509-cert` reads the subject.
pub uninterp spec fn subject_name_ok(subject: Seq<char>) -> bool;

/// The PEM text of the root certificate that `x509-cert` builds (serial
/// number 1, the root profile without OCSP) for the public key of the PEM
/// text `tbs_key_pem`, signed with SM2 (identifier `1234`) under the key of
/// `signing_key_pem`, for `subject`, valid from `not_before` to `not_after`
/// (seconds since the Unix epoch); `None` where it refuses. The signature
/// follows RFC 6979, so the text is a function of these.
pub uninterp spec fn root_cert_pem(
    tbs_key_pem: Seq<u8>,
    signing_key_pem: Seq<char>,
    subject: Seq<char>,
    not_before: u64,
    not_after: u64,
) -> Option<Seq<u8>>;

/// `SubjectPublicKeyInfoOwned::from_pem` of `x509-cert`: whether it
/// succeeds, named.
#[verifier::external_body]
fn spki_check(pem: &[u8]) -> (r: bool)
    ensures
        r == spki_pem_ok(pem@),
{
    SubjectPublicKeyInfoOwned::from_pem(pem).is_ok()
}

/// `Name::from_str` of `x509-cert`: whether it succeeds, named.
#[verifier::external_body]
fn subject_check(subject: &str) -> (r: bool)
    ensures
        r == subject_name_ok(subject@),
{
    subject.parse::<Name>().is_ok()
}

/// Reads the key, the signing key and the subject as the checks above do,
/// then `Root::new`, `Validity::new` over `Time::try_from` of the two
/// instants, `CertificateBuilder::new` with serial number 1, `build` with
/// the SM2 signer and `to_pem` of `x509-cert`: the text is named, and there
/// is none where a check above fails.
#[verifier::external_body]
fn build_root_cert(tbs_key_pem: &[u8], key_pem: &str, subject: &str, nb: u64, na: u64) -> (r: Option<Vec<u8>>)
    ensures
        match r {
            Some(v) => root_cert_pem(tbs_key_pem@, key_pem@, subject@, nb, na) == Some(v@),
            None => root_cert_pem(tbs_key_pem@, key_pem@, subject@, nb, na) is None,
        },
        !spki_pem_ok(tbs_key_pem@) || !sm2_key_ok(key_pem@) || !subject_name_ok(subject@) ==> r is None,
{
    let spki = SubjectPublicKeyInfoOwned::from_pem(tbs_key_pem).ok()?;
    let signer = SigningKey::new("1234", &SecretKey::from_pkcs8_pem(key_pem).ok()?).ok()?;
    let name = subject.parse::<Name>().ok()?;
    let at = |s: u64| Time::try_from(UNIX_EPOCH.checked_add(Duration::from_secs(s))?).ok();
    let validity = Validity::new(at(nb)?, at(na)?);
    let profile = Root::new(false, name).ok()?;
    let builder = CertificateBuilder::new(profile, SerialNumber::from(1u32), validity, spki).ok()?;
    let cert = builder.build::<_, Signature>(&signer).ok()?;
    cert.to_pem(LineEnding::LF).ok().map(|p| p.into_bytes())
}

/// The seconds since the Unix epoch that the system clock reads
/// (`SystemTime::now`); `None` for a clock before the epoch. Nothing is
/// claimed of the value: it is the time.
#[verifier::external_body]
fn unix_now() -> (r: Option<u64>) {
    std::time::SystemTime::now().duration_since(std::time::UNIX_EPOCH).ok().map(|d| d.as_secs())
}

/// The outcome of issuing the root certificate of `req`, valid from `start`
/// for the request's duration.
pub open spec fn root_cert_outcome(req: GenCertReq, tbs_key_pem: Seq<u8>, signing_key_pem: Seq<char>, start: u64) -> Result<Seq<u8>, GmError> {
    if !spki_pem_ok(tbs_key_pem) {
        Err(GmError::InvalidPublicKey)
    } else if !sm2_key_ok(signing_key_pem) {
        Err(GmError::InvalidSigningKey)
    } else if start + req.duration > u64::MAX {
        Err(GmError::InvalidValidity)
    } else if !subject_name_ok(req.subject@) {
        Err(GmError::InvalidSubject)
    } else {
        match root_cert_pem(tbs_key_pem, signing_key_pem, req.subject@, start, (start + req.duration) as u64) {
            Some(p) => Ok(p),
            None => Err(GmError::CertificateRefused),
        }
    }
}

/// The PEM text of the root certificate that `req` asks for, for the public
/// key of the PEM text `tbs_key_pem`, signed under the key of
/// `signing_key_pem`, valid from `start` (seconds since the Unix epoch) for
/// the request's duration.
pub fn issue_root_cert(req: &GenCertReq, tbs_key_pem: &[u8], signing_key_pem: &str, start: u64) -> (r: Result<Vec<u8>, GmError>)
    ensures
        match root_cert_outcome(*req, tbs_key_pem@, signing_key_pem@, start) {
            Ok(p) => r matches Ok(v) && v@ == p,
            Err(e) => r == Err::<Vec<u8>, GmError>(e),
        },
{
    if !spki_check(tbs_key_pem) {
        return Err(GmError::InvalidPublicKey);
    }
    if !sm2_key_check(signing_key_pem) {
        return Err(GmError::InvalidSigningKey);
    }
    let end = match start.checked_add(req.duration) {
        Some(e) => e,
        None => {
            return Err(GmError::InvalidValidity);
        },
    };
    if !subject_check(req.subject.as_str()) {
        return Err(GmError::InvalidSubject);
    }
    match build_root_cert(tbs_key_pem, signing_key_pem, req.subject.as_str(), start, end) {
        Some(p) => Ok(p),
        None => Err(GmError::CertificateRefused),
    }
}

impl GenCertReq {
    /// The PEM text of the root certificate that the request asks for, valid
    /// from now for its duration: whatever time the clock gives, the result
    /// is the one `issue_root_cert` gives for it.
    pub fn generate(&self, tbs_key_pem: &[u8], signing_key_pem: &str) -> (r: Result<Vec<u8>, GmError>)
        ensures
            !spki_pem_ok(tbs_key_pem@) ==> r == Err::<Vec<u8>, GmError>(GmError::InvalidPublicKey),
            spki_pem_ok(tbs_key_pem@) && !sm2_key_ok(signing_key_pem@) ==> r == Err::<Vec<u8>, GmError>(
                GmError::InvalidSigningKey,
            ),
            spki_pem_ok(tbs_key_pem@) && sm2_key_ok(signing_key_pem@) && r != Err::<Vec<u8>, GmError>(
                GmError::InvalidValidity,
            ) ==> exists|start: u64|
                match #[trigger] root_cert_outcome(*self, tbs_key_pem@, signing_key_pem@, start) {
                    Ok(p) => r matches Ok(v) && v@ == p,
                    Err(e) => r == Err::<Vec<u8>, GmError>(e),
                },
    {
        if !spki_check(tbs_key_pem) {
            return Err(GmError::InvalidPublicKey);
        }
        if !sm2_key_check(signing_key_pem) {
            return Err(GmError::InvalidSigningKey);
        }
        let start = match unix_now() {
            Some(t) => t,
            None => {
                return Err(GmError::InvalidValidity);
            },
        };
        issue_root_cert(self, tbs_key_pem, signing_key_pem, start)
    }
}

/// The content octets of the object identifier of SM2 signatures with SM3,
/// `1.2.156.10197.1.501`.
pub open spec fn sm2_sm3_oid() -> Seq<u8> {
    seq![0x2au8, 0x81u8, 0x1cu8, 0xcfu8, 0x55u8, 0x01u8, 0x83u8, 0x75u8]
}

/// The error that assembling the seal information meets first, if any.
pub open spec fn seal_info_error(req: ESealReq, img: Seq<u8>, cert_pem: Seq<u8>) -> Option<GmError> {
    if !is_ascii_chars(req.picture_type@) {
        Some(GmError::InvalidIa5)
    } else if req.picture_type@.len() > max_item_len() || img.len() > max_item_len() {
        Some(GmError::TooLong)
    } else {
        match pem_certificate_der(cert_pem) {
            None => Some(GmError::InvalidCertificate),
            Some(d) => if d.len() > max_item_len() {
                Some(GmError::TooLong)
            } else {
                None
            },
        }
    }
}

/// What generating the seal of `req` gives, valid from `start` to `end`
/// (contents of `GeneralizedTime`s): the DER octets of the seal, or the
/// error met first.
pub open spec fn seal_outcome(
    req: ESealReq,
    key_pem: Seq<char>,
    signing_cert_pem: Seq<u8>,
    img: Seq<u8>,
    embed_cert_pem: Seq<u8>,
    start: Seq<u8>,
    end: Seq<u8>,
) -> Result<Seq<u8>, GmError> {
    if !sm2_key_ok(key_pem) {
        Err(GmError::InvalidSigningKey)
    } else {
        match seal_info_error(req, img, embed_cert_pem) {
            Some(e) => Err(e),
            None => {
                let cert = pem_certificate_der(embed_cert_pem)->0;
                let msg = seal_info_octets_of(req, img, cert, start, end);
                if msg.len() > max_item_len() {
                    Err(GmError::TooLong)
                } else {
                    match sm2_signature(key_pem, msg) {
                        None => Err(GmError::InvalidSigningKey),
                        Some(sig) => match pem_certificate_der(signing_cert_pem) {
                            None => Err(GmError::InvalidCertificate),
                            Some(c) => {
                                let out = seal_octets_of(req, img, cert, start, end, sig, c);
                                if c.len() > max_item_len() || out.len() > max_item_len() {
                                    Err(GmError::TooLong)
                                } else {
                                    Ok(out)
                                }
                            },
                        },
                    }
                }
            },
        }
    }
}

/// The contents of the `GeneralizedTime` that `der` makes of an instant,
/// in seconds since the Unix epoch; `None` beyond the year 9999.
pub uninterp spec fn generalized_time_content(secs: u64) -> Option<Seq<u8>>;

/// `GeneralizedTime::from_unix_duration` of `der`, its content octets taken
/// through `Any::encode_from`: named, not described.
#[verifier::external_body]
fn generalized_time_of(secs: u64) -> (r: Option<Vec<u8>>)
    ensures
        match r {
            Some(v) => generalized_time_content(secs) == Some(v@),
            None => generalized_time_content(secs) is None,
        },
{
    let t = der::asn1::GeneralizedTime::from_unix_duration(Duration::from_secs(secs)).ok()?;
    der::asn1::Any::encode_from(&t).ok().map(|a| a.value().to_vec())
}

/// The validity of a seal that starts at `start` (seconds since the Unix
/// epoch) and lasts `duration` seconds, as contents of `GeneralizedTime`s:
/// the end is the time of the start plus the duration.
pub open spec fn validity_of(duration: u64, start: u64) -> Option<(Seq<u8>, Seq<u8>)> {
    if start + duration > u64::MAX {
        None
    } else {
        match (generalized_time_content(start), generalized_time_content((start + duration) as u64)) {
            (Some(a), Some(b)) => Some((a, b)),
            _ => None,
        }
    }
}

/// `x` is the seal information of the request, with the picture `img`, the
/// embedded certificate `cert` (DER) and the validity from `start` to `end`
/// (contents of `GeneralizedTime`s).
pub open spec fn is_seal_info_of(x: SesSealInfo, req: ESealReq, img: Seq<u8>, cert: Seq<u8>, start: Seq<u8>, end: Seq<u8>) -> bool {
    &&& x.header.id@ == "ES"@
    &&& x.header.version == 4
    &&& x.header.vid@ == "rofd"@
    &&& x.es_id@ == "1"@
    &&& x.property.typ == 0
    &&& x.property.name@ == req.stamp_name@
    &&& x.property.cert_list_type == 1
    &&& x.property.cert_list matches SesCertList::Certs(v) && v@.len() == 1 && v@[0]@ == cert
    &&& x.property.create_date@ == start
    &&& x.property.valid_start@ == start
    &&& x.property.valid_end@ == end
    &&& x.picture.typ@ == req.picture_type@
    &&& x.picture.data@ == img
    &&& x.picture.width == req.picture_size.0
    &&& x.picture.height == req.picture_size.1
    &&& x.ext_data is None
}

fn copy_bytes(b: &[u8]) -> (r: Vec<u8>)
    ensures
        r@ == b@,
{
    let mut out: Vec<u8> = Vec::new();
    let mut i: usize = 0;
    while i < b.len()
        invariant
            i <= b@.len(),
            out@ == b@.take(i as int),
        decreases b@.len() - i,
    {
        out.push(b[i]);
        i = i + 1;
        assert(out@ =~= b@.take(i as int));
    }
    assert(b@.take(i as int) =~= b@);
    out
}

/// The item tree of the seal information of the request.
pub open spec fn seal_info_tree_of(req: ESealReq, img: Seq<u8>, cert: Seq<u8>, start: Seq<u8>, end: Seq<u8>) -> SpecTlv {
        seq_tree(
            seq![
                seq_tree(seq![ia5_tree("ES"@), i64_tree(4), ia5_tree("rofd"@)]),
                ia5_tree("1"@),
                seq_tree(
                    seq![
                        i64_tree(0),
                        utf8_tree(req.stamp_name@),
                        i64_tree(1),
                        seq_tree(seq![octets_tree(cert)]),
                        prim_tree(Tag::GeneralizedTime, start),
                        prim_tree(Tag::GeneralizedTime, start),
                        prim_tree(Tag::GeneralizedTime, end),
                    ],
                ),
                seq_tree(
                    seq![
                        ia5_tree(req.picture_type@),
                        octets_tree(img),
                        u64_tree(req.picture_size.0),
                        u64_tree(req.picture_size.1),
                    ],
                ),
            ],
        )
}

/// The DER octets of the seal information of the request.
pub open spec fn seal_info_octets_of(req: ESealReq, img: Seq<u8>, cert: Seq<u8>, start: Seq<u8>, end: Seq<u8>) -> Seq<u8> {
    spec_item_octets(seal_info_tree_of(req, img, cert, start, end))
}

/// The DER octets of the seal of the request, with the signature `sig` and
/// the signer's certificate `signer_cert`.
pub open spec fn seal_octets_of(req: ESealReq, img: Seq<u8>, cert: Seq<u8>, start: Seq<u8>, end: Seq<u8>, sig: Seq<u8>, signer_cert: Seq<u8>) -> Seq<u8> {
    spec_item_octets(
        seq_tree(
            seq![
                seal_info_tree_of(req, img, cert, start, end),
                octets_tree(signer_cert),
                prim_tree(Tag::ObjectIdentifier, sm2_sm3_oid()),
                prim_tree(Tag::BitString, seq![0u8] + sig),
            ],
        ),
    )
}

proof fn lemma_seal_info_octets(x: SesSealInfo, req: ESealReq, img: Seq<u8>, cert: Seq<u8>, start: Seq<u8>, end: Seq<u8>)
    requires
        is_seal_info_of(x, req, img, cert, start, end),
    ensures
        seal_info_tree(x) == seal_info_tree_of(req, img, cert, start, end),
{
    let v = x.property.cert_list->Certs_0;
    assert(Seq::new(v@.len(), |i: int| octets_tree(v@[i]@)) =~= seq![octets_tree(cert)]);
    assert(property_tree(x.property) == seq_tree(
        seq![
            i64_tree(0),
            utf8_tree(req.stamp_name@),
            i64_tree(1),
            seq_tree(seq![octets_tree(cert)]),
            prim_tree(Tag::GeneralizedTime, start),
            prim_tree(Tag::GeneralizedTime, start),
            prim_tree(Tag::GeneralizedTime, end),
        ],
    ));
    let items = seq![header_tree(x.header), ia5_tree(x.es_id@), property_tree(x.property), picture_tree(x.picture)];
    assert(items + Seq::<SpecTlv>::empty() =~= items);
}

impl ESealReq {
    /// The header of the seal: identifier `ES`, version 4, vendor `rofd`.
    pub fn es_info_header(&self) -> (h: SesHeader)
        ensures
            h.id@ == "ES"@,
            h.version == 4,
            h.vid@ == "rofd"@,
    {
        SesHeader { id: String::from_str("ES"), version: 4, vid: String::from_str("rofd") }
    }

    /// The picture of the seal, from the octets of its image.
    pub fn read_picture_v4(&self, img: Vec<u8>) -> (r: Result<SesEsPictureInfo, GmError>)
        ensures
            !is_ascii_chars(self.picture_type@) ==> r == Err::<SesEsPictureInfo, GmError>(GmError::InvalidIa5),
            is_ascii_chars(self.picture_type@) && (self.picture_type@.len() > max_item_len() || img@.len() > max_item_len())
                ==> r == Err::<SesEsPictureInfo, GmError>(GmError::TooLong),
            is_ascii_chars(self.picture_type@) && self.picture_type@.len() <= max_item_len() && img@.len() <= max_item_len()
                ==> (r matches Ok(p) && p.typ@ == self.picture_type@ && p.data@ == img@
                    && p.width == self.picture_size.0 && p.height == self.picture_size.1),
    {
        if !self.picture_type.as_str().is_ascii() {
            return Err(GmError::InvalidIa5);
        }
        let n = chars_of(self.picture_type.as_str()).len();
        if n as u64 > 0xffff_ffff || img.len() as u64 > 0xffff_ffff {
            return Err(GmError::TooLong);
        }
        Ok(
            SesEsPictureInfo {
                typ: self.picture_type.clone(),
                data: img,
                width: self.picture_size.0,
                height: self.picture_size.1,
            },
        )
    }

    /// The property of the seal: its name, the embedded certificate (a PEM
    /// text) and its validity (contents of `GeneralizedTime`s, the start
    /// standing for the date of making too).
    pub fn es_info_property(&self, cert_pem: &[u8], valid_start: &[u8], valid_end: &[u8]) -> (r: Result<SesEsPropertyInfo, GmError>)
        ensures
            match pem_certificate_der(cert_pem@) {
                None => r == Err::<SesEsPropertyInfo, GmError>(GmError::InvalidCertificate),
                Some(d) => if d.len() > max_item_len() {
                    r == Err::<SesEsPropertyInfo, GmError>(GmError::TooLong)
                } else {
                    r matches Ok(p) && p.typ == 0 && p.name@ == self.stamp_name@ && p.cert_list_type == 1
                        && (p.cert_list matches SesCertList::Certs(v) && v@.len() == 1 && v@[0]@ == d)
                        && p.create_date@ == valid_start@ && p.valid_start@ == valid_start@
                        && p.valid_end@ == valid_end@
                },
            },
    {
        let cert = match certificate_der(cert_pem) {
            Some(c) => c,
            None => {
                return Err(GmError::InvalidCertificate);
            },
        };
        if cert.len() as u64 > 0xffff_ffff {
            return Err(GmError::TooLong);
        }
        let ghost d = cert@;
        let certs = vec![cert];
        assert(certs@[0]@ == d);
        Ok(
            SesEsPropertyInfo {
                typ: 0,
                name: self.stamp_name.clone(),
                cert_list_type: 1,
                cert_list: SesCertList::Certs(certs),
                create_date: copy_bytes(valid_start),
                valid_start: copy_bytes(valid_start),
                valid_end: copy_bytes(valid_end),
            },
        )
    }

    /// The seal information: header, identifier `1`, property and picture.
    pub fn assemble_e_seal_info_v4(&self, img: Vec<u8>, cert_pem: &[u8], valid_start: &[u8], valid_end: &[u8]) -> (r: Result<SesSealInfo, GmError>)
        ensures
            match seal_info_error(*self, img@, cert_pem@) {
                Some(e) => r == Err::<SesSealInfo, GmError>(e),
                None => r matches Ok(x) && is_seal_info_of(
                    x,
                    *self,
                    img@,
                    pem_certificate_der(cert_pem@)->0,
                    valid_start@,
                    valid_end@,
                ),
            },
    {
        let picture = self.read_picture_v4(img)?;
        proof {
            reveal_strlit("ES");
            reveal_strlit("rofd");
            reveal_strlit("1");
        }
        let header = self.es_info_header();
        let es_id = String::from_str("1");
        let property = match self.es_info_property(cert_pem, valid_start, valid_end) {
            Ok(p) => p,
            Err(e) => {
                return Err(e);
            },
        };
        Ok(SesSealInfo { header, es_id, property, picture, ext_data: None })
    }

    /// The seal: its information, signed with SM2 under the key of the PEM
    /// text `key_pem` over the DER octets of the information, with the
    /// signer's certificate (a PEM text).
    pub fn assemble_e_seal_v4(
        &self,
        key_pem: &str,
        signing_cert_pem: &[u8],
        img: Vec<u8>,
        embed_cert_pem: &[u8],
        valid_start: &[u8],
        valid_end: &[u8],
    ) -> (r: Result<SesSeal, GmError>)
        ensures
            if !sm2_key_ok(key_pem@) {
                r == Err::<SesSeal, GmError>(GmError::InvalidSigningKey)
            } else { match seal_info_error(*self, img@, embed_cert_pem@) {
                Some(e) => r == Err::<SesSeal, GmError>(e),
                None => {
                    let cert = pem_certificate_der(embed_cert_pem@)->0;
                    let msg = seal_info_octets_of(*self, img@, cert, valid_start@, valid_end@);
                    if msg.len() > max_item_len() {
                        r == Err::<SesSeal, GmError>(GmError::TooLong)
                    } else {
                        match sm2_signature(key_pem@, msg) {
                            None => r == Err::<SesSeal, GmError>(GmError::InvalidSigningKey),
                            Some(sig) => match pem_certificate_der(signing_cert_pem@) {
                                None => r == Err::<SesSeal, GmError>(GmError::InvalidCertificate),
                                Some(c) => if c.len() > max_item_len() {
                                    r == Err::<SesSeal, GmError>(GmError::TooLong)
                                } else {
                                    r matches Ok(s) && is_seal_info_of(
                                        s.e_seal_info,
                                        *self,
                                        img@,
                                        cert,
                                        valid_start@,
                                        valid_end@,
                                    ) && s.signed_value.unused_bits == 0 && s.signed_value.bytes@ == sig
                                        && s.cert@ == c && s.signature_alg_id@ == sm2_sm3_oid()
                                },
                            },
                        }
                    }
                },
            } },
    {
        if !sm2_key_check(key_pem) {
            return Err(GmError::InvalidSigningKey);
        }
        let esi = self.assemble_e_seal_info_v4(img, embed_cert_pem, valid_start, valid_end)?;
        let der = to_der(&esi.to_tlv());
        proof {
            lemma_seal_info_octets(esi, *self, img@, pem_certificate_der(embed_cert_pem@)->0, valid_start@, valid_end@);
        }
        if der.len() as u64 > 0xffff_ffff {
            return Err(GmError::TooLong);
        }
        let signed = match sm2_sign(key_pem, der.as_slice()) {
            Some(s) => s,
            None => {
                return Err(GmError::InvalidSigningKey);
            },
        };
        let cert = match certificate_der(signing_cert_pem) {
            Some(c) => c,
            None => {
                return Err(GmError::InvalidCertificate);
            },
        };
        if cert.len() as u64 > 0xffff_ffff {
            return Err(GmError::TooLong);
        }
        let oid = vec![0x2au8, 0x81u8, 0x1cu8, 0xcfu8, 0x55u8, 0x01u8, 0x83u8, 0x75u8];
        assert(oid@ =~= sm2_sm3_oid());
        Ok(
            SesSeal {
                e_seal_info: esi,
                cert,
                signature_alg_id: oid,
                signed_value: BitStr { unused_bits: 0, bytes: signed },
            },
        )
    }

    /// The DER octets of the seal of the request, to be written out; a seal
    /// of version 1 is not made.
    pub fn generate_with_validity(
        &self,
        key_pem: &str,
        signing_cert_pem: &[u8],
        img: Vec<u8>,
        embed_cert_pem: &[u8],
        valid_start: &[u8],
        valid_end: &[u8],
    ) -> (r: Result<Vec<u8>, GmError>)
        requires
            self.version != SignClass::SesV1,
        ensures
            match seal_outcome(*self, key_pem@, signing_cert_pem@, img@, embed_cert_pem@, valid_start@, valid_end@) {
                Ok(o) => r matches Ok(b) && b@ == o && der_single(b@),
                Err(e) => r == Err::<Vec<u8>, GmError>(e),
            },
    {
        let es = self.assemble_e_seal_v4(key_pem, signing_cert_pem, img, embed_cert_pem, valid_start, valid_end)?;
        let der = to_der(&es.to_tlv());
        proof {
            let cert = pem_certificate_der(embed_cert_pem@)->0;
            lemma_seal_info_octets(es.e_seal_info, *self, img@, cert, valid_start@, valid_end@);
            assert(seq![es.signed_value.unused_bits] + es.signed_value.bytes@ =~= seq![0u8] + es.signed_value.bytes@);
        }
        if der.len() as u64 > 0xffff_ffff {
            return Err(GmError::TooLong);
        }
        proof {
            lemma_seal_tree_read_back(es);
        }
        Ok(der)
    }

    /// The validity of the seal when it starts at `start` (seconds since the
    /// Unix epoch): it lasts the request's duration.
    pub fn validity(&self, start: u64) -> (r: Option<(Vec<u8>, Vec<u8>)>)
        ensures
            match validity_of(self.duration, start) {
                Some((a, e)) => r matches Some((x, y)) && x@ == a && y@ == e,
                None => r is None,
            },
    {
        let end = start.checked_add(self.duration)?;
        let a = generalized_time_of(start)?;
        let e = generalized_time_of(end)?;
        Some((a, e))
    }

    /// The DER octets of the seal of the request, to be written out, valid
    /// from now for the request's duration: whatever time the clock gives,
    /// they are those that `generate_with_validity` gives for the validity
    /// starting then. A seal of version 1 is not made.
    pub fn generate(&self, key_pem: &str, signing_cert_pem: &[u8], img: Vec<u8>, embed_cert_pem: &[u8]) -> (r: Result<Vec<u8>, GmError>)
        requires
            self.version != SignClass::SesV1,
        ensures
            !sm2_key_ok(key_pem@) ==> r == Err::<Vec<u8>, GmError>(GmError::InvalidSigningKey),
            r matches Ok(b) ==> der_single(b@),
            sm2_key_ok(key_pem@) && r != Err::<Vec<u8>, GmError>(GmError::InvalidValidity) ==> exists|start: u64|
                #[trigger] validity_of(self.duration, start) matches Some((a, e)) && match seal_outcome(
                    *self,
                    key_pem@,
                    signing_cert_pem@,
                    img@,
                    embed_cert_pem@,
                    a,
                    e,
                ) {
                    Ok(o) => r matches Ok(b) && b@ == o,
                    Err(x) => r == Err::<Vec<u8>, GmError>(x),
                },
    {
        if !sm2_key_check(key_pem) {
            return Err(GmError::InvalidSigningKey);
        }
        let start = match unix_now() {
            Some(t) => t,
            None => {
                return Err(GmError::InvalidValidity);
            },
        };
        let (a, e) = match self.validity(start) {
            Some(v) => v,
            None => {
                return Err(GmError::InvalidValidity);
            },
        };
        let r = self.generate_with_validity(key_pem, signing_cert_pem, img, embed_cert_pem, a.as_slice(), e.as_slice());
        assert(validity_of(self.duration, start) matches Some((x, y)) && x == a@ && y == e@);
        r
    }
}

} // verus!