use sm2::pkcs8::DecodePrivateKey;
use der::DecodePem;
use sm2::pkcs8::EncodePublicKey;
use rofd::asn1::BitStr;
use rofd::der::{check_strict, parse_single};
use rofd::duration::{checked_parse_duration, parse_duration, DurationReason};
use rofd::encode::to_der;
use rofd::gm::{ESealReq, GmError};
use rofd::v4::{SesCertList, SesEsPictureInfo, SesEsPropertyInfo, SesHeader, SesSeal, SesSealInfo};
use der::Encode;
use signature::Verifier;
use sm2::pkcs8::EncodePrivateKey;

fn tlv(tag: u8, content: &[u8]) -> Vec<u8> {
    let mut out = vec![tag];
    let n = content.len();
    if n < 128 {
        out.push(n as u8);
    } else if n < 256 {
        out.extend_from_slice(&[0x81, n as u8]);
    } else {
        out.extend_from_slice(&[0x82, (n >> 8) as u8, n as u8]);
    }
    out.extend_from_slice(content);
    out
}

fn seq(parts: &[Vec<u8>]) -> Vec<u8> {
    tlv(0x30, &parts.concat())
}

const SM3_SM2: [u8; 8] = [0x2a, 0x81, 0x1c, 0xcf, 0x55, 0x01, 0x83, 0x75];

/// A small certificate, in DER: its signature is not checked by anyone here.
fn certificate_der() -> Vec<u8> {
    let alg = seq(&[tlv(0x06, &SM3_SM2)]);
    let spki = seq(&[
        seq(&[
            tlv(0x06, &[0x2a, 0x86, 0x48, 0xce, 0x3d, 0x02, 0x01]),
            tlv(0x06, &[0x2a, 0x81, 0x1c, 0xcf, 0x55, 0x01, 0x82, 0x2d]),
        ]),
        tlv(0x03, &[&[0u8, 4u8][..], &[7u8; 64][..]].concat()),
    ]);
    let tbs = seq(&[
        tlv(0x02, &[1]),
        alg.clone(),
        seq(&[]),
        seq(&[tlv(0x17, b"240101000000Z"), tlv(0x17, b"340101000000Z")]),
        seq(&[]),
        spki,
    ]);
    seq(&[tbs, alg, tlv(0x03, &[&[0u8][..], &[9u8; 64][..]].concat())])
}

fn certificate_pem() -> String {
    der::pem::encode_string("CERTIFICATE", der::pem::LineEnding::LF, &certificate_der()).unwrap()
}

fn key_pem() -> String {
    let key = sm2::SecretKey::from_slice(&[1u8; 32]).unwrap();
    key.to_pkcs8_pem(der::pem::LineEnding::LF).unwrap().to_string()
}

fn request() -> ESealReq {
    let mut r = ESealReq::new();
    r.stamp_name = "测试用章".to_string();
    r.picture_type = "PNG".to_string();
    r.picture_size = (80, 50);
    r
}

#[test]
fn test_parse_duration() {
    let dur = parse_duration("17y").unwrap();
    assert_eq!(dur, 17 * 366 * 24 * 60 * 60);
}

#[test]
fn durations_of_several_units() {
    assert_eq!(parse_duration("1y10d").unwrap(), (366 + 10) * 86400);
    assert_eq!(parse_duration("2M3h4m5s").unwrap(), 2 * 31 * 86400 + 3 * 3600 + 4 * 60 + 5);
    assert_eq!(parse_duration("").unwrap(), 0);
    let e = parse_duration("1x").unwrap_err();
    assert_eq!(e.pos, 1);
}

#[test]
fn durations_written_together_add_up() {
    let parts = ["1y", "10d", "3h", "", "7s"];
    for a in parts {
        for b in parts {
            let joined = format!("{}{}", a, b);
            assert_eq!(parse_duration(&joined).unwrap(), parse_duration(a).unwrap() + parse_duration(b).unwrap());
        }
    }
}

#[test]
fn durations_beyond_a_time_delta_are_not_read() {
    assert_eq!(checked_parse_duration("1d1s"), Some(Ok(86401)));
    assert_eq!(checked_parse_duration("999999999999d"), None);
    let e = checked_parse_duration("99999999999999999y").unwrap().unwrap_err();
    assert_eq!((e.pos, e.reason), (17, DurationReason::AddYearOverflow));
    let e = checked_parse_duration("99999999999999999999s").unwrap().unwrap_err();
    assert_eq!(e.reason, DurationReason::MulOverflow);
    let e = checked_parse_duration("3q").unwrap().unwrap_err();
    assert_eq!((e.pos, e.reason), (1, DurationReason::InvalidChar('q')));
}

#[test]
fn a_whole_seal_is_read_back_from_its_octets() {
    let seal = SesSeal {
        e_seal_info: sample_info(),
        cert: vec![0x30, 0x03, 0x02, 0x01, 0x05],
        signature_alg_id: SM3_SM2.to_vec(),
        signed_value: BitStr { unused_bits: 0, bytes: vec![7; 64] },
    };
    let bytes = to_der(&seal.to_tlv());
    assert!(check_strict(&bytes));
    let back = SesSeal::from_tlv(&parse_single(&bytes).unwrap()).unwrap();
    assert_eq!(back.cert, seal.cert);
    assert_eq!(back.signature_alg_id, seal.signature_alg_id);
    assert_eq!(back.signed_value.bytes, vec![7; 64]);
    assert_eq!(back.e_seal_info.es_id, "1");
    assert_eq!(back.e_seal_info.picture.height, 129);
}

fn sample_info() -> SesSealInfo {
    SesSealInfo {
        header: SesHeader { id: "ES".to_string(), version: 4, vid: "rofd".to_string() },
        es_id: "1".to_string(),
        property: SesEsPropertyInfo {
            typ: 0,
            name: "名称".to_string(),
            cert_list_type: 1,
            cert_list: SesCertList::Certs(vec![vec![1, 2, 3], vec![0xff; 300]]),
            create_date: b"20240102030405Z".to_vec(),
            valid_start: b"20240102030405Z".to_vec(),
            valid_end: b"20340102030405Z".to_vec(),
        },
        picture: SesEsPictureInfo { typ: "PNG".to_string(), data: vec![0x89, 0x50], width: 80, height: 129 },
        ext_data: None,
    }
}

#[test]
fn seal_information_is_read_back_as_written() {
    let info = sample_info();
    let bytes = to_der(&info.to_tlv());
    let back = SesSealInfo::from_tlv(&parse_single(&bytes).unwrap()).unwrap();
    assert_eq!(back.header.id, "ES");
    assert_eq!(back.header.version, 4);
    assert_eq!(back.header.vid, "rofd");
    assert_eq!(back.es_id, "1");
    assert_eq!(back.property.name, "名称");
    assert_eq!(back.property.cert_list_type, 1);
    match back.property.cert_list {
        SesCertList::Certs(v) => assert_eq!(v, vec![vec![1, 2, 3], vec![0xff; 300]]),
        _ => panic!("expected certificates"),
    }
    assert_eq!(back.property.valid_end, b"20340102030405Z".to_vec());
    assert_eq!(back.picture.typ, "PNG");
    assert_eq!(back.picture.data, vec![0x89, 0x50]);
    assert_eq!((back.picture.width, back.picture.height), (80, 129));
    assert!(back.ext_data.is_none());
}

#[test]
fn the_writer_agrees_with_the_der_crate() {
    assert_eq!(to_der(&SesHeader { id: "ES".to_string(), version: 4, vid: "rofd".to_string() }.to_tlv()), {
        let mut v = vec![0x30, 0x0d];
        v.extend(der::asn1::Ia5StringRef::new("ES").unwrap().to_der().unwrap());
        v.extend(4i64.to_der().unwrap());
        v.extend(der::asn1::Ia5StringRef::new("rofd").unwrap().to_der().unwrap());
        v
    });
    let long = vec![5u8; 200];
    let t = SesSeal {
        e_seal_info: sample_info(),
        cert: long.clone(),
        signature_alg_id: SM3_SM2.to_vec(),
        signed_value: BitStr { unused_bits: 0, bytes: vec![1, 2] },
    }
    .to_tlv();
    let bytes = to_der(&t);
    let back = SesSeal::from_tlv(&parse_single(&bytes).unwrap()).unwrap();
    assert_eq!(back.cert, long);
    assert_eq!(back.signature_alg_id, SM3_SM2.to_vec());
    assert_eq!(back.signed_value.bytes, vec![1, 2]);
}

#[test]
fn the_header_of_a_seal() {
    let h = ESealReq::new().es_info_header();
    assert_eq!((h.id.as_str(), h.version, h.vid.as_str()), ("ES", 4, "rofd"));
}

#[test]
fn pictures_need_an_ascii_type() {
    let mut r = request();
    let p = r.read_picture_v4(vec![1, 2, 3]).unwrap();
    assert_eq!((p.typ.as_str(), p.data.clone(), p.width, p.height), ("PNG", vec![1, 2, 3], 80, 50));
    r.picture_type = "图片".to_string();
    assert!(matches!(r.read_picture_v4(vec![]), Err(GmError::InvalidIa5)));
}

#[test]
fn the_property_holds_the_certificate_in_der() {
    let r = request();
    let pem = certificate_pem();
    let p = r.es_info_property(pem.as_bytes(), b"20240102030405Z", b"20250102030405Z").unwrap();
    match &p.cert_list {
        SesCertList::Certs(v) => {
            assert_eq!(v.len(), 1);
            assert_eq!(v[0], certificate_der());
        }
        _ => panic!("expected certificates"),
    }
    assert_eq!(p.name, "测试用章");
    assert_eq!(p.create_date, b"20240102030405Z".to_vec());
    assert!(matches!(r.es_info_property(b"not a certificate", b"", b""), Err(GmError::InvalidCertificate)));
}

#[test]
fn seals_are_signed_over_their_information() {
    let r = request();
    let pem = certificate_pem();
    let key = key_pem();
    let seal = r
        .assemble_e_seal_v4(&key, pem.as_bytes(), vec![9, 9], pem.as_bytes(), b"20240102030405Z", b"20250102030405Z")
        .unwrap();
    assert_eq!(seal.cert, certificate_der());
    assert_eq!(seal.signature_alg_id, SM3_SM2.to_vec());
    assert_eq!(seal.signed_value.unused_bits, 0);
    assert_eq!(seal.signed_value.bytes.len(), 64);
    let msg = to_der(&seal.e_seal_info.to_tlv());
    let sk = sm2::SecretKey::from_slice(&[1u8; 32]).unwrap();
    let signer = sm2::dsa::SigningKey::new("1234", &sk).unwrap();
    let sig = sm2::dsa::Signature::try_from(seal.signed_value.bytes.as_slice()).unwrap();
    assert!(signer.verifying_key().verify(&msg, &sig).is_ok());

    let out = r
        .generate_with_validity(&key, pem.as_bytes(), vec![9, 9], pem.as_bytes(), b"20240102030405Z", b"20250102030405Z")
        .unwrap();
    assert!(check_strict(&out));
    let back = SesSeal::from_tlv(&parse_single(&out).unwrap()).unwrap();
    assert_eq!(back.signed_value.bytes, seal.signed_value.bytes);
    assert_eq!(back.e_seal_info.property.name, "测试用章");

    assert!(matches!(
        r.assemble_e_seal_v4("no key", pem.as_bytes(), vec![], pem.as_bytes(), b"", b""),
        Err(GmError::InvalidSigningKey)
    ));
    assert!(matches!(
        r.assemble_e_seal_v4(&key, b"none", vec![], pem.as_bytes(), b"", b""),
        Err(GmError::InvalidCertificate)
    ));

    // the key is checked before the information of the seal
    let mut wide = request();
    wide.picture_type = "图".to_string();
    assert!(matches!(
        wide.assemble_e_seal_v4("no key", pem.as_bytes(), vec![], pem.as_bytes(), b"", b""),
        Err(GmError::InvalidSigningKey)
    ));
    assert!(matches!(
        wide.assemble_e_seal_v4(&key, pem.as_bytes(), vec![], pem.as_bytes(), b"", b""),
        Err(GmError::InvalidIa5)
    ));
}

fn public_key_pem() -> String {
    let key = sm2::SecretKey::from_slice(&[2u8; 32]).unwrap();
    key.public_key().to_public_key_pem(der::pem::LineEnding::LF).unwrap()
}

#[test]
fn root_certificates_are_issued_for_the_request() {
    let mut req = rofd::gm::GenCertReq::new();
    req.subject("CN=test,O=rofd,C=CN").duration(3600);
    let tbs = public_key_pem();
    let key = key_pem();
    let start = 1_700_000_000u64;
    let pem = rofd::gm::issue_root_cert(&req, tbs.as_bytes(), &key, start).unwrap();
    // the signature follows RFC 6979: the same request gives the same text
    assert_eq!(rofd::gm::issue_root_cert(&req, tbs.as_bytes(), &key, start).unwrap(), pem);
    let cert = x509_cert::Certificate::from_pem(&pem).unwrap();
    let v = cert.tbs_certificate().validity();
    let secs = |t: x509_cert::time::Time| t.to_unix_duration().as_secs();
    assert_eq!(secs(v.not_before), start);
    assert_eq!(secs(v.not_after), start + 3600);
    assert_eq!(cert.tbs_certificate().serial_number(), &x509_cert::serial_number::SerialNumber::from(1u32));

    assert_eq!(rofd::gm::issue_root_cert(&req, b"none", &key, start), Err(GmError::InvalidPublicKey));
    assert_eq!(rofd::gm::issue_root_cert(&req, tbs.as_bytes(), "no key", start), Err(GmError::InvalidSigningKey));
    assert_eq!(rofd::gm::issue_root_cert(&req, tbs.as_bytes(), &key, u64::MAX), Err(GmError::InvalidValidity));
    let mut bad = rofd::gm::GenCertReq::new();
    bad.subject("no name here");
    assert_eq!(rofd::gm::issue_root_cert(&bad, tbs.as_bytes(), &key, start), Err(GmError::InvalidSubject));
    // a root needs a country, an organization and a common name
    let mut short = rofd::gm::GenCertReq::new();
    short.subject("CN=test").duration(10);
    assert_eq!(rofd::gm::issue_root_cert(&short, tbs.as_bytes(), &key, start), Err(GmError::CertificateRefused));

    let now = req.generate(tbs.as_bytes(), &key).unwrap();
    let cert = x509_cert::Certificate::from_pem(&now).unwrap();
    let v = cert.tbs_certificate().validity();
    assert_eq!(secs(v.not_after) - secs(v.not_before), 3600);
}


#[test]
fn seals_generated_now_last_the_requested_duration() {
    let mut r = request();
    r.duration = 86400;
    let (a, e) = r.validity(1_700_000_000).unwrap();
    assert_eq!(a, b"20231114221320Z".to_vec());
    assert_eq!(e, b"20231115221320Z".to_vec());
    assert!(r.validity(u64::MAX).is_none());

    let pem = certificate_pem();
    let key = key_pem();
    let out = r.generate(&key, pem.as_bytes(), vec![9, 9], pem.as_bytes()).unwrap();
    assert!(check_strict(&out));
    let back = SesSeal::from_tlv(&parse_single(&out).unwrap()).unwrap();
    let p = back.e_seal_info.property;
    assert_eq!(p.create_date, p.valid_start);
    let (start, end) = (String::from_utf8(p.valid_start).unwrap(), String::from_utf8(p.valid_end).unwrap());
    let at = |t: &str| chrono::NaiveDateTime::parse_from_str(t, "%Y%m%d%H%M%SZ").unwrap();
    assert_eq!((at(&end) - at(&start)).num_seconds(), 86400);
    assert!(matches!(r.generate("no key", pem.as_bytes(), vec![], pem.as_bytes()), Err(GmError::InvalidSigningKey)));
}

#[test]
fn key_pairs_are_fresh_sm2_keys() {
    let mut req = rofd::gm::GenKeyPairReq::new();
    let (sk, pk) = req.generate().unwrap();
    assert!(pk.is_none());
    assert!(sm2::SecretKey::from_pkcs8_pem(&sk).is_ok());
    req.extract_pk(true);
    let (sk, pk) = req.generate().unwrap();
    let key = sm2::SecretKey::from_pkcs8_pem(&sk).unwrap();
    let expected = key.public_key().to_public_key_pem(der::pem::LineEnding::LF).unwrap();
    assert_eq!(pk.unwrap(), expected);
}

#[test]
fn key_pairs_are_made_of_a_given_key() {
    let key = key_pem();
    let mut req = rofd::gm::GenKeyPairReq::new();
    let (k, p) = req.key_pair_of(key.clone()).unwrap();
    assert_eq!((k.as_str(), p), (key.as_str(), None));
    req.extract_pk(true);
    let (_, p) = req.key_pair_of(key.clone()).unwrap();
    let sk = sm2::SecretKey::from_slice(&[1u8; 32]).unwrap();
    assert_eq!(p.unwrap(), sk.public_key().to_public_key_pem(der::pem::LineEnding::LF).unwrap());
    assert_eq!(req.key_pair_of("no key".to_string()), Err(GmError::InvalidSigningKey));
}
