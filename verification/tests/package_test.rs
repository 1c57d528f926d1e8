use rofd::container::{from_bytes, Error, Ofd, OfdItem};
use rofd::dom::TryFromDomError;
use rofd::graphic::{CtColor, Join};
use rofd::ofd_utils::{get_doc_count, get_info, get_page_count};
use rofd::render::{decide_size, font_choice, resolve_color, ColorError, FontChoice};
use rofd::res::Type;
use rofd::value::StArray;
use std::io::Write;

const NS: &str = "http://www.ofdspec.org/2016";

fn ofd_xml() -> String {
    format!(
        r#"<?xml version="1.0" encoding="UTF-8"?>
<ofd:OFD xmlns:ofd="{NS}" Version="1.1" DocType="OFD">
  <ofd:DocBody>
    <ofd:DocInfo><ofd:DocID>abc123</ofd:DocID><ofd:CreationDate>2024-01-02</ofd:CreationDate></ofd:DocInfo>
    <ofd:DocRoot>Doc_0/Document.xml</ofd:DocRoot>
    <ofd:Signatures>Doc_0/Signs/Signatures.xml</ofd:Signatures>
  </ofd:DocBody>
</ofd:OFD>"#
    )
}

fn document_xml() -> String {
    format!(
        r#"<ofd:Document xmlns:ofd="{NS}">
  <ofd:CommonData>
    <ofd:MaxUnitID>20</ofd:MaxUnitID>
    <ofd:PageArea><ofd:PhysicalBox>0 0 210 297</ofd:PhysicalBox></ofd:PageArea>
    <ofd:PublicRes>PublicRes.xml</ofd:PublicRes>
    <ofd:TemplatePage ID="5" BaseLoc="Tpls/Tpl_0/Content.xml"/>
    <ofd:DefaultCS>3</ofd:DefaultCS>
  </ofd:CommonData>
  <ofd:Pages>
    <ofd:Page ID="1" BaseLoc="Pages/Page_0/Content.xml"/>
  </ofd:Pages>
  <ofd:Annotations>Annots/Annotations.xml</ofd:Annotations>
</ofd:Document>"#
    )
}

fn page_xml() -> String {
    format!(
        r#"<ofd:Page xmlns:ofd="{NS}">
  <ofd:Template TemplateID="5"/>
  <ofd:Content>
    <ofd:Layer ID="2">
      <ofd:PathObject ID="3" Boundary="0 0 10 10"><ofd:AbbreviatedData>M 0 0 L 1 1 C</ofd:AbbreviatedData></ofd:PathObject>
      <ofd:TextObject ID="4" Boundary="0 0 10 10" Font="6" Size="3.5"><ofd:TextCode X="1" Y="2">Hi</ofd:TextCode></ofd:TextObject>
    </ofd:Layer>
  </ofd:Content>
</ofd:Page>"#
    )
}

fn template_xml() -> String {
    format!(
        r#"<ofd:Page xmlns:ofd="{NS}"><ofd:Area><ofd:PhysicalBox>0 0 100 150</ofd:PhysicalBox></ofd:Area></ofd:Page>"#
    )
}

fn public_res_xml() -> String {
    format!(
        r#"<ofd:Res xmlns:ofd="{NS}" BaseLoc="Res">
  <ofd:ColorSpaces><ofd:ColorSpace ID="3" Type="GRAY" BitsPerComponent="8"/></ofd:ColorSpaces>
  <ofd:Fonts><ofd:Font ID="6" FontName="SongTi"><ofd:FontFile>font.ttf</ofd:FontFile></ofd:Font><ofd:Font ID="8" FontName="KaiTi"/></ofd:Fonts>
  <ofd:DrawParams><ofd:DrawParam ID="7" Join="Round"/></ofd:DrawParams>
</ofd:Res>"#
    )
}

fn signatures_xml() -> String {
    format!(
        r#"<ofd:Signatures xmlns:ofd="{NS}"><ofd:MaxSignId>1</ofd:MaxSignId><ofd:Signature ID="1" BaseLoc="Sign_0/Signature.xml"/></ofd:Signatures>"#
    )
}

fn signature_xml() -> String {
    format!(
        r#"<ofd:Signature xmlns:ofd="{NS}">
  <ofd:SignedInfo>
    <ofd:Provider ProviderName="p"/>
    <ofd:References CheckMethod="SM3"><ofd:Reference FileRef="/Doc_0/Document.xml"><ofd:CheckValue>abc</ofd:CheckValue></ofd:Reference></ofd:References>
    <ofd:StampAnnot ID="s1" PageRef="1" Boundary="10 10 40 40"/>
    <ofd:StampAnnot ID="s2" PageRef="9" Boundary="0 0 1 1"/>
    <ofd:StampAnnot ID="s3" PageRef="1" Boundary="1 2 3 4" Clip="0 0 2 2"/>
  </ofd:SignedInfo>
  <ofd:SignedValue>/Doc_0/Signs/Sign_0/SignedValue.dat</ofd:SignedValue>
</ofd:Signature>"#
    )
}

fn annotations_xml() -> String {
    format!(
        r#"<ofd:Annotations xmlns:ofd="{NS}"><ofd:Page PageID="1"><ofd:FileLoc>Page_0/Annotation.xml</ofd:FileLoc></ofd:Page><ofd:Page PageID="2"><ofd:FileLoc>Page_1/Annotation.xml</ofd:FileLoc></ofd:Page></ofd:Annotations>"#
    )
}

fn annotation_xml() -> String {
    format!(
        r#"<ofd:PageAnnot xmlns:ofd="{NS}"><ofd:Annot ID="11" Type="Stamp" Creator="me" LastModDate="2023-05-06" Print="false"><ofd:Remark>r</ofd:Remark><ofd:Appearance Boundary="0 0 5 5"><ofd:PathObject ID="12" Boundary="0 0 1 1"><ofd:AbbreviatedData>M 0 0</ofd:AbbreviatedData></ofd:PathObject></ofd:Appearance></ofd:Annot></ofd:PageAnnot>"#
    )
}

fn zip_of(items: &[(&str, Vec<u8>)]) -> Vec<u8> {
    let mut w = zip::ZipWriter::new(std::io::Cursor::new(Vec::new()));
    let opts = zip::write::SimpleFileOptions::default()
        .compression_method(zip::CompressionMethod::Stored);
    for (name, data) in items {
        w.start_file(*name, opts).unwrap();
        w.write_all(data).unwrap();
    }
    w.finish().unwrap().into_inner()
}

fn package_bytes() -> Vec<u8> {
    let mut bom_ofd = vec![0xef, 0xbb, 0xbf];
    bom_ofd.extend_from_slice(ofd_xml().as_bytes());
    zip_of(&[
        ("OFD.xml", bom_ofd),
        ("Doc_0/Document.xml", document_xml().into_bytes()),
        ("Doc_0/Pages/Page_0/Content.xml", page_xml().into_bytes()),
        ("Doc_0/Tpls/Tpl_0/Content.xml", template_xml().into_bytes()),
        ("Doc_0/PublicRes.xml", public_res_xml().into_bytes()),
        ("Doc_0/Signs/Signatures.xml", signatures_xml().into_bytes()),
        ("Doc_0/Signs/Sign_0/Signature.xml", signature_xml().into_bytes()),
        ("Doc_0/Annots/Annotations.xml", annotations_xml().into_bytes()),
        ("Doc_0/Annots/Page_0/Annotation.xml", annotation_xml().into_bytes()),
    ])
}

fn package() -> Ofd {
    from_bytes(&package_bytes()).unwrap()
}

#[test]
fn container_test_resolve() {
    let l = OfdItem { path: "a/b".to_string(), content: String::new() };
    let r = l.resolve("value");
    assert_eq!(r, "a/value")
}

#[test]
fn container_test_relative_path() {
    let l = OfdItem { path: "/a/value".to_string(), content: () };
    assert_eq!(l.resolve("/foo/bar"), "foo/bar");
}

#[test]
fn resolving_keeps_the_directory_of_the_item() {
    let l = OfdItem { path: "Doc_0/Document.xml".to_string(), content: () };
    assert_eq!(l.resolve("Pages/Page_0/Content.xml"), "Doc_0/Pages/Page_0/Content.xml");
    // only `/` separates the parts of a location
    assert_eq!(l.resolve("Pages\\P.xml"), "Doc_0/Pages\\P.xml");
    assert_eq!(l.resolve("./Res/../Pages//P.xml"), "Doc_0/Pages/P.xml");
    // a rooted location keeps its parts, as `relative_to("/")` does
    assert_eq!(l.resolve("/Doc_1/./a/../b.xml"), "Doc_1/a/../b.xml");
    assert_eq!(l.resolve("//Doc_1//b.xml/"), "Doc_1/b.xml");
    assert_eq!(l.resolve("/"), "");
    let top = OfdItem { path: "OFD.xml".to_string(), content: () };
    assert_eq!(top.resolve("Doc_0/Document.xml"), "Doc_0/Document.xml");
}

#[test]
fn archives_that_are_not_zip_are_refused() {
    assert!(matches!(from_bytes(b"not a zip"), Err(Error::ZipError)));
}

#[test]
fn archives_without_entry_are_refused() {
    let data = zip_of(&[("x.xml", b"<a/>".to_vec())]);
    assert!(matches!(from_bytes(&data), Err(Error::OfdEntryNotFound)));
}

#[test]
fn entry_and_documents() {
    let ofd = package();
    let e = ofd.entry().unwrap();
    assert_eq!(e.path, "OFD.xml");
    assert_eq!(e.content.version, "1.1");
    assert_eq!(e.content.doc_type, "OFD");
    assert_eq!(e.content.doc_body.len(), 1);
    assert_eq!(e.content.doc_body[0].doc_info.doc_id.as_deref(), Some("abc123"));
    let d = e.content.doc_body[0].doc_info.creation_date.unwrap();
    assert_eq!((d.year, d.month, d.day), (2024, 1, 2));

    let doc = ofd.document_by_index(0).unwrap();
    assert_eq!(doc.path, "Doc_0/Document.xml");
    assert_eq!(doc.content.common_data.max_unit_id, 20);
    assert_eq!(doc.content.common_data.default_cs, Some(3));
    assert_eq!(doc.content.pages.page.len(), 1);
    assert!(matches!(ofd.document_by_index(1), Err(Error::NoSuchDocument)));
}

#[test]
fn pages_and_templates() {
    let ofd = package();
    let page = ofd.page_by_index(0, 0).unwrap();
    assert_eq!(page.path, "Doc_0/Pages/Page_0/Content.xml");
    let content = page.content.content.as_ref().unwrap();
    assert_eq!(content.layer.len(), 1);
    assert_eq!(content.layer[0].objects.as_ref().unwrap().len(), 2);
    assert!(matches!(ofd.page_by_index(0, 1), Err(Error::NoSuchTemplate)));

    let tpls = ofd.templates_for_page(0, 0).unwrap();
    assert_eq!(tpls.len(), 1);
    assert_eq!(tpls[0].path, "Doc_0/Tpls/Tpl_0/Content.xml");
    assert!(ofd.template_by_id(0, 5).is_ok());
    assert!(matches!(ofd.template_by_id(0, 6), Err(Error::NoSuchTemplate)));

    let doc = ofd.document_by_index(0).unwrap();
    let tpl_refs: Vec<_> = tpls.iter().map(|t| &t.content).collect();
    let area = decide_size(&page.content, &tpl_refs, &doc.content);
    assert_eq!(area.physical_box.h, "150");
    let none: Vec<_> = Vec::new();
    let area = decide_size(&page.content, &none, &doc.content);
    assert_eq!(area.physical_box.h, "297");
}

#[test]
fn missing_items_are_reported_with_their_location() {
    let ofd = package();
    match ofd.bytes("nowhere.xml") {
        Err(Error::OpenZipError(p)) => assert_eq!(p, "nowhere.xml"),
        other => panic!("unexpected {other:?}"),
    }
    assert_eq!(ofd.bytes("Doc_0/PublicRes.xml").unwrap(), public_res_xml().into_bytes());
}

#[test]
fn documents_without_pages_are_refused() {
    let broken = format!(
        r#"<ofd:Document xmlns:ofd="{NS}"><ofd:CommonData><ofd:MaxUnitID>1</ofd:MaxUnitID><ofd:PageArea><ofd:PhysicalBox>0 0 1 1</ofd:PhysicalBox></ofd:PageArea></ofd:CommonData></ofd:Document>"#
    );
    let data = zip_of(&[("OFD.xml", ofd_xml().into_bytes()), ("Doc_0/Document.xml", broken.into_bytes())]);
    let ofd = from_bytes(&data).unwrap();
    match ofd.document_by_index(0) {
        Err(Error::Dom(TryFromDomError::NoSuchAttribute(n))) => assert_eq!(n, "Pages"),
        other => panic!("unexpected {:?}", other.err()),
    }
    let bad_xml = zip_of(&[("OFD.xml", b"<a>".to_vec())]);
    let ofd = from_bytes(&bad_xml).unwrap();
    assert!(matches!(ofd.entry(), Err(Error::MiniDomError)));
}

#[test]
fn resources_and_lookups() {
    let ofd = package();
    let res = ofd.resources_for_page(0, 0).unwrap();
    assert_eq!(res.default_cs, Some(3));
    assert_eq!(res.public_resource.as_ref().unwrap().len(), 1);
    assert!(res.document_resource.is_none());
    assert!(res.page_resource.is_none());
    let cs = res.get_color_space_by_id(3).unwrap();
    assert_eq!(cs.typ, Type::GRAY);
    assert!(res.get_color_space_by_id(4).is_none());
    assert_eq!(res.get_draw_param_by_id(7).unwrap().join, Some(Join::Round));
    let (file, font) = res.get_font_by_id(6).unwrap();
    assert_eq!(file.path, "Doc_0/PublicRes.xml");
    assert_eq!(font.font_name, "SongTi");
    assert!(res.get_image_by_id(6).is_none());

    match font_choice(&res, 6) {
        FontChoice::Embedded(p) => assert_eq!(p, "Doc_0/Res/font.ttf"),
        _ => panic!("expected an embedded font"),
    }
    match font_choice(&res, 8) {
        FontChoice::Family(n) => assert_eq!(n, "KaiTi"),
        _ => panic!("expected a family"),
    }
    assert!(matches!(font_choice(&res, 99), FontChoice::Fallback));
}

fn color(value: Option<Vec<u16>>, index: Option<usize>, cs: Option<u64>, alpha: Option<u8>) -> CtColor {
    CtColor { value: value.map(StArray), index, color_space: cs, alpha, pattern: None }
}

#[test]
fn colors_are_resolved_in_their_space() {
    let ofd = package();
    let res = ofd.resources_for_page(0, 0).unwrap();
    let c = resolve_color(&color(Some(vec![128]), None, Some(3), None), &res).unwrap();
    assert_eq!((c.typ, c.bits_per_component, c.components.clone(), c.alpha), (Type::GRAY, 8, vec![128], 255));
    // an unknown space falls back to the default one of the document
    let c = resolve_color(&color(Some(vec![5]), None, Some(42), Some(200)), &res).unwrap();
    assert_eq!((c.typ, c.alpha), (Type::GRAY, 200));
    // no space at all is sRGB
    let c = resolve_color(&color(Some(vec![1, 2, 3]), None, None, Some(255)), &res).unwrap();
    assert_eq!((c.typ, c.components.clone(), c.alpha), (Type::RGB, vec![1, 2, 3], 255));
    let c = resolve_color(&color(Some(vec![0, 0, 0]), None, None, Some(51)), &res).unwrap();
    assert_eq!(c.alpha, 51);
    assert_eq!(resolve_color(&color(None, Some(0), Some(3), None), &res).err(), Some(ColorError::PaletteNotFound));
    assert_eq!(resolve_color(&color(None, None, Some(3), None), &res).err(), Some(ColorError::InvalidColor));
}

#[test]
fn package_summary() {
    let data = package_bytes();
    let info = get_info(&data).unwrap();
    assert_eq!(info.doc_count, 1);
    assert_eq!(info.doc_info.len(), 1);
    assert_eq!(info.doc_info[0].doc_id.as_deref(), Some("abc123"));
    assert_eq!(info.doc_info[0].page_count, 1);
    assert_eq!(info.doc_info[0].template_count, 1);
    assert_eq!(info.item_names.len(), 9);
    assert_eq!(info.item_names[0], "OFD.xml");
    let ofd = package();
    assert_eq!(get_doc_count(&ofd).unwrap(), 1);
    assert_eq!(get_page_count(&ofd, 0).unwrap(), 1);
    assert!(matches!(get_page_count(&ofd, 3), Err(Error::NoSuchDocument)));
    assert_eq!(rofd::ofd_utils::fmt_doc_id(&None), "");
    assert_eq!(rofd::ofd_utils::fmt_doc_id(&Some("x".to_string())), "x");
}

#[test]
fn signatures_and_stamps() {
    let ofd = package();
    let list = ofd.signatures_for_doc(0).unwrap().unwrap();
    assert_eq!(list.path, "Doc_0/Signs/Signatures.xml");
    assert_eq!(list.content.max_sign_id.as_deref(), Some("1"));
    let files = ofd.signature_for_doc(0).unwrap().unwrap();
    assert_eq!(files.len(), 1);
    assert_eq!(files[0].path, "Doc_0/Signs/Sign_0/Signature.xml");
    assert_eq!(files[0].content.signed_value, "/Doc_0/Signs/Sign_0/SignedValue.dat");
    assert_eq!(files[0].content.signed_info.references.references[0].check_value, "abc");

    let stamps = ofd.signature_for_page(0, 0).unwrap().unwrap();
    assert_eq!(stamps.len(), 2);
    assert_eq!(stamps[0].1.id, "s1");
    assert_eq!(stamps[1].1.id, "s3");
    assert_eq!(stamps[1].1.clip.as_ref().unwrap().w, "2");
    assert_eq!(stamps[1].0.path, "Doc_0/Signs/Sign_0/Signature.xml");
    let same = ofd.signatures_for_page(0, 0).unwrap().unwrap();
    assert_eq!(same.len(), 2);
    assert_eq!(same[0].1.id, "s1");
    assert_eq!(same[1].1.id, "s3");
}

#[test]
fn annotations_of_a_page() {
    let ofd = package();
    let annots = ofd.annotations_for_page(0, 0).unwrap();
    assert_eq!(annots.len(), 1);
    assert_eq!(annots[0].path, "Doc_0/Annots/Page_0/Annotation.xml");
    let a = &annots[0].content.annot[0];
    assert_eq!(a.id, 11);
    assert_eq!(a.typ, "Stamp");
    assert_eq!(a.creator, "me");
    assert_eq!((a.last_mod_date.year, a.last_mod_date.month, a.last_mod_date.day), (2023, 5, 6));
    assert_eq!(a.print, Some(false));
    assert_eq!(a.remark.as_deref(), Some("r"));
    assert_eq!(a.appearance.objects.as_ref().unwrap().len(), 1);
}

#[test]
fn items_are_read_when_they_are_asked_for() {
    let marker = b"broken-item-payload".to_vec();
    let mut data = zip_of(&[("OFD.xml", ofd_xml().into_bytes()), ("extra.bin", marker.clone())]);
    // spoil the stored bytes of the second item: its checksum no longer holds
    let at = data.windows(marker.len()).position(|w| w == &marker[..]).unwrap();
    data[at] ^= 0xff;
    let ofd = from_bytes(&data).unwrap();
    assert!(ofd.entry().is_ok());
    assert_eq!(ofd.item_names(), vec!["OFD.xml".to_string(), "extra.bin".to_string()]);
    match ofd.bytes("extra.bin") {
        Err(Error::ReadError(p)) => assert_eq!(p, "extra.bin"),
        other => panic!("unexpected {:?}", other.map(|v| v.len())),
    }
    assert!(matches!(ofd.bytes("missing"), Err(Error::OpenZipError(_))));
}
