use rofd::dom::{TryFromDom, TryFromDomError};
use rofd::graphic::{read_text_object, read_text_vals, TextCode, VtGraphicUnit};
use rofd::page::{ct_layer_from, layer_from, UnifiedText, UnifiedTextValVec, TryIntoTextValError};
use rofd::value::ValueError;
use rofd::container::read_item;
use rofd::xml::XmlElement;

const NS_DECL: &str = r#"xmlns="http://www.ofdspec.org/2016" xmlns:ofd="http://www.ofdspec.org/2016""#;

fn element(xml: &str) -> XmlElement {
    read_item(xml.trim().as_bytes()).expect("well-formed XML")
}

#[test]
fn common_test_de_on_none() {
    let e = element(&format!(r#"<CtLayer {NS_DECL} Type="AAA" ID="123">content</CtLayer>"#));
    let res = ct_layer_from(&e).unwrap();
    assert_eq!(res.typ.as_deref(), Some("AAA"));
    assert_eq!(res.draw_param, None);
}

#[test]
fn test_parse_str() {
    let e = element(r#"<hello xmlns="urn:test">world!</hello>"#);
    assert_eq!(e.name, "hello");
    assert_eq!(e.ns, "urn:test");
    assert_eq!(e.text, "world!");
    // an element without a namespace is taken in that of the package
    let e = read_item(b"<hello>world!</hello>").unwrap();
    assert_eq!((e.name.as_str(), e.ns.as_str(), e.text.as_str()), ("hello", "OFD.xml", "world!"));
    // a byte order mark is skipped
    let e = read_item(b"\xef\xbb\xbf<hello>world!</hello>").unwrap();
    assert_eq!(e.text, "world!");
    // elements must be closed
    assert!(read_item(br#"<hello xmlns="urn:test">world!"#).is_err());
}

#[test]
fn test_text_code_empty() {
    let data = r#"<?xml version="1.0" encoding="UTF-8"?>
        <TextCode xmlns="http://www.ofdspec.org/2016"> </TextCode>
        "#;
    let root = element(data);
    let st = TextCode::try_from_dom(&root).unwrap();
    assert_eq!(st.val, " ");
    assert!(st.x.is_none() && st.y.is_none());
}

#[test]
fn test_text_object() {
    let xml_str = format!(
        r#"
        <ofd:Layer {NS_DECL} DrawParam="4" ID="11">
        <ofd:PathObject ID="12" CTM="0.45 0 0 0.45 0 0" Boundary="57.5 97.8 5 5" LineWidth="0.5">
          <ofd:AbbreviatedData>M 10.07 5.54 B 10.07 3.04 8.04 1 5.53 1 B 3.03 1 1 3.04 1 5.54 B 1 8.04 3.03 10.08 5.53 10.08 B 8.04 10.08 10.07 8.04 10.07 5.54 M 2.3 2.3 L 8.7 8.7 M 2.3 8.7 L 8.7 2.3 </ofd:AbbreviatedData>
        </ofd:PathObject>
        </ofd:Layer>
        "#
    );
    let layer = layer_from(&element(&xml_str)).unwrap();
    assert_eq!(layer.id, 11);
    assert_eq!(layer.draw_param, Some(4));
    let objs = layer.objects.unwrap();
    assert_eq!(objs.len(), 1);
    match &objs[0] {
        VtGraphicUnit::PathObject(p) => {
            assert_eq!(p.id, 12);
            assert_eq!(p.line_width.as_deref(), Some("0.5"));
            assert_eq!(p.ctm.as_ref().unwrap().0.len(), 6);
            assert_eq!(p.abbreviated_data.0[0], "M");
            assert_eq!(p.abbreviated_data.0.len(), 43);
        }
        _ => panic!("expected a path object"),
    }
}

#[test]
fn test_unified_text() {
    let xml_str = format!(
        r#"<Data {NS_DECL}><ofd:CGTransform CodePosition="0" CodeCount="1" GlyphCount="1">
                    <ofd:Glyphs>1</ofd:Glyphs>
                </ofd:CGTransform>
                <ofd:TextCode X="0" Y="0"> </ofd:TextCode></Data>"#
    );
    let vals = read_text_vals(&element(&xml_str)).unwrap();
    assert_eq!(vals.len(), 1);
    let cgt = vals[0].cg_transform.as_ref().unwrap();
    assert_eq!(cgt.code_position, 0);
    assert_eq!(cgt.glyphs.0, vec![1]);
    assert_eq!(vals[0].text_code.x.as_deref(), Some("0"));
}

#[test]
fn test_parse_text_object() {
    let xml_str = format!(
        r#"<ofd:TextObject {NS_DECL} ID="112" CTM="0.3528 0 0 0.3528 0 0" Boundary="25.4085 242.817 0.8445 0"
                Font="115" Size="15.96">
                <ofd:CGTransform CodePosition="0" CodeCount="1" GlyphCount="1">
                    <ofd:Glyphs>1</ofd:Glyphs>
                </ofd:CGTransform>
                <ofd:TextCode X="0" Y="0"> </ofd:TextCode>
            </ofd:TextObject>"#
    );
    let t = read_text_object(&element(&xml_str)).unwrap();
    assert_eq!(t.id, 112);
    assert_eq!(t.font, 115);
    assert_eq!(t.size, "15.96");
    assert_eq!(t.boundary.x, "25.4085");
    assert_eq!(t.text_vals.len(), 1);
}

#[test]
fn two_transforms_in_a_row_are_refused() {
    let xml_str = format!(
        r#"<Data {NS_DECL}><ofd:CGTransform CodePosition="0"><ofd:Glyphs>1</ofd:Glyphs></ofd:CGTransform><ofd:CGTransform CodePosition="1"><ofd:Glyphs>2</ofd:Glyphs></ofd:CGTransform><ofd:TextCode>a</ofd:TextCode></Data>"#
    );
    match read_text_vals(&element(&xml_str)) {
        Err(TryFromDomError::ElementNameNotExpected(a, b)) => {
            assert_eq!(a, "TextCode");
            assert_eq!(b, "CGTransform");
        }
        other => panic!("unexpected {:?}", other.err()),
    }
}

#[test]
fn bad_numbers_are_reported() {
    let e = element(&format!(r#"<ofd:Layer {NS_DECL} ID="x"/>"#));
    assert!(matches!(layer_from(&e), Err(TryFromDomError::Warp(ValueError::ParseInt))));
    let e = element(&format!(r#"<ofd:Layer {NS_DECL}/>"#));
    match layer_from(&e) {
        Err(TryFromDomError::NoSuchAttribute(n)) => assert_eq!(n, "ID"),
        other => panic!("unexpected {:?}", other.err()),
    }
    let e = element(&format!(r#"<ofd:Layer {NS_DECL} ID="1"><ofd:PageBlock ID="2"/></ofd:Layer>"#));
    assert!(matches!(layer_from(&e), Err(TryFromDomError::Unhandled)));
}

#[test]
fn text_values_are_split_and_joined_back() {
    let xml_str = format!(
        r#"<Data {NS_DECL}><ofd:CGTransform CodePosition="0"><ofd:Glyphs>5</ofd:Glyphs></ofd:CGTransform><ofd:TextCode X="1">a</ofd:TextCode><ofd:CGTransform CodePosition="0"><ofd:Glyphs>7</ofd:Glyphs></ofd:CGTransform><ofd:TextCode>b</ofd:TextCode></Data>"#
    );
    let vals = read_text_vals(&element(&xml_str)).unwrap();
    assert_eq!(vals.len(), 2);
    let flat = UnifiedTextValVec::from(vals);
    assert_eq!(flat.0.len(), 4);
    assert!(matches!(flat.0[0], UnifiedText::CGTransform(_)));
    assert!(matches!(flat.0[1], UnifiedText::TextCode(_)));
    let back = flat.try_into().unwrap();
    assert_eq!(back.len(), 2);
    assert_eq!(back[0].text_code.val, "a");
    assert_eq!(back[0].cg_transform.as_ref().unwrap().glyphs.0, vec![5]);
    assert_eq!(back[1].cg_transform.as_ref().unwrap().glyphs.0, vec![7]);

    let lone = read_text_vals(&element(&xml_str)).unwrap();
    let mut items = Vec::new();
    for v in lone {
        items.push(UnifiedText::CGTransform(v.cg_transform.unwrap()));
    }
    assert_eq!(UnifiedTextValVec(items).try_into().err(), Some(TryIntoTextValError::CgtNotValid));
}
