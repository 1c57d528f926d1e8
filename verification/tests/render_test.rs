use rofd::dom::TryFromDom;
use rofd::container::Resources;
use rofd::graphic::{read_path_object, read_text_object, CGTransform, Cap, FillRule, Join};
use rofd::render::{
    abbreviated_data_2_path, delta_steps, flat_g, path_join, path_object_plan, text_object_plan,
    text_val_runs, ArcSize, Deltas, DrawParamStack, FontChoice, GlyphRun, MyError, PathDirection,
    PathOp,
};
use rofd::res::DrawParam;
use rofd::value::StArray;
use rofd::container::read_item;
use rofd::xml::XmlElement;

const NS_DECL: &str = r#"xmlns:ofd="http://www.ofdspec.org/2016""#;
const ABBR: &str = "M 10.07 5.54 B 10.07 3.04 8.04 1 5.53 1 B 3.03 1 1 3.04 1 5.54 B 1 8.04 3.03 10.08 5.53 10.08 B 8.04 10.08 10.07 8.04 10.07 5.54 M 2.3 2.3 L 8.7 8.7 M 2.3 8.7 L 8.7 2.3 ";

fn element(xml: &str) -> XmlElement {
    read_item(xml.as_bytes()).expect("well-formed XML")
}

fn words(s: &str) -> StArray<String> {
    StArray::<String>::from_str(s)
}

fn no_resources() -> Resources {
    Resources { default_cs: None, public_resource: None, document_resource: None, page_resource: None }
}

#[test]
fn test_abbr_2_path() {
    let src = words(ABBR);
    let p = abbreviated_data_2_path(&src).unwrap();
    assert_eq!(p.len(), 9);
    assert!(matches!(&p[0], PathOp::MoveTo(x, y) if x == "10.07" && y == "5.54"));
    assert!(matches!(&p[1], PathOp::CubicTo(a, _, _, _, _, f) if a == "10.07" && f == "1"));
    assert!(matches!(&p[8], PathOp::LineTo(x, y) if x == "8.7" && y == "2.3"));
}

#[test]
fn test_() {
    let src = words(ABBR);
    let p = abbreviated_data_2_path(&src).unwrap();
    assert_eq!(p.len(), 9);
}

#[test]
fn path_commands_of_every_kind() {
    let p = abbreviated_data_2_path(&words("S 0 0 Q 1 2 3 4 A 5 6 30 1 0 7 8 C")).unwrap();
    assert_eq!(p.len(), 4);
    assert!(matches!(&p[0], PathOp::MoveTo(..)));
    assert!(matches!(&p[1], PathOp::QuadTo(a, b, c, d) if a == "1" && b == "2" && c == "3" && d == "4"));
    match &p[2] {
        PathOp::ArcTo { rx, ry, rotation, large_arc, sweep, end_x, end_y } => {
            assert_eq!((rx.as_str(), ry.as_str(), rotation.as_str()), ("5", "6", "30"));
            assert_eq!(*large_arc, ArcSize::Large);
            assert_eq!(*sweep, PathDirection::CCW);
            assert_eq!((end_x.as_str(), end_y.as_str()), ("7", "8"));
        }
        _ => panic!("expected an arc"),
    }
    assert!(matches!(&p[3], PathOp::Close));
}

#[test]
fn path_errors() {
    match abbreviated_data_2_path(&words("M 0 0 Z 1")) {
        Err(MyError::UnknownPathCommand(c, i)) => {
            assert_eq!(c, "Z");
            assert_eq!(i, 3);
        }
        other => panic!("unexpected {other:?}"),
    }
    assert!(matches!(abbreviated_data_2_path(&words("M 0")), Err(MyError::UnexpectedEnd)));
    assert!(matches!(abbreviated_data_2_path(&words("L x 0")), Err(MyError::ParseError)));
    assert!(matches!(abbreviated_data_2_path(&words("A 1 1 0 2 0 1 1")), Err(MyError::Invalid)));
}

#[test]
fn glyph_offsets_are_written_out() {
    let v = flat_g(&words("g 4 1.5875  3.175 g 2 1.5875  3.175 g 2 1.5875 -19.05")).unwrap();
    assert_eq!(
        v,
        vec!["1.5875", "1.5875", "1.5875", "1.5875", "3.175", "1.5875", "1.5875", "3.175", "1.5875", "1.5875", "-19.05"]
    );
    assert!(flat_g(&words("g 0 1.5")).unwrap().is_empty());
    assert!(matches!(flat_g(&words("g 2")), Err(MyError::UnexpectedEnd)));
    assert!(matches!(flat_g(&words("g x 1")), Err(MyError::ParseError)));
}

#[test]
fn steps_between_glyphs() {
    let dx = words("1 g 2 3");
    let dy = words("4");
    let s = delta_steps(Some(&dx), Some(&dy)).unwrap();
    let pairs: Vec<(&str, &str)> = s.iter().map(|(a, b)| (a.as_str(), b.as_str())).collect();
    assert_eq!(pairs, vec![("1", "4"), ("3", "0"), ("3", "0")]);
    assert!(delta_steps(None, None).unwrap().is_empty());
}

#[test]
fn points_past_the_last_stay_at_the_last() {
    let d = Deltas { points: vec![(0, 0), (1, 0), (2, 5)] };
    assert_eq!(*d.index(1), (1, 0));
    assert_eq!(*d.index(7), (2, 5));
    assert_eq!(d.slice(1, 5), vec![(1, 0), (2, 5), (2, 5), (2, 5)]);
    assert_eq!(d.slice(0, 2), vec![(0, 0), (1, 0)]);
    assert!(d.slice(2, 2).is_empty());
}

fn cgt(pos: u32, cc: Option<u32>, gc: Option<u32>, glyphs: Vec<u32>) -> CGTransform {
    CGTransform { code_position: pos, code_count: cc, glyph_count: gc, glyphs: StArray(glyphs) }
}

#[test]
fn glyph_runs_of_a_text() {
    let runs = text_val_runs(5, &cgt(1, Some(2), Some(2), vec![16, 224, 210]));
    assert_eq!(runs.len(), 4);
    assert!(matches!(runs[0], GlyphRun::Char { char_pos: 0, point: 0 }));
    match &runs[1] {
        GlyphRun::Glyphs { glyphs, start, end } => {
            assert_eq!(glyphs, &vec![16, 224]);
            assert_eq!((*start, *end), (1, 3));
        }
        _ => panic!("expected glyphs"),
    }
    assert!(matches!(runs[2], GlyphRun::Char { char_pos: 3, point: 3 }));
    assert!(matches!(runs[3], GlyphRun::Char { char_pos: 4, point: 4 }));
    // a transform that covers no character passes over it
    let runs = text_val_runs(3, &cgt(1, Some(0), None, vec![]));
    assert_eq!(runs.len(), 2);
    assert!(matches!(runs[1], GlyphRun::Char { char_pos: 2, point: 1 }));
    // a transform past the text changes nothing
    let runs = text_val_runs(2, &cgt(9, None, None, vec![1]));
    assert_eq!(runs.len(), 2);
}

#[test]
fn paths_are_joined_as_on_unix() {
    assert_eq!(path_join("Res", "font.ttf"), "Res/font.ttf");
    assert_eq!(path_join("Res/", "font.ttf"), "Res/font.ttf");
    assert_eq!(path_join("", "font.ttf"), "font.ttf");
    assert_eq!(path_join("Res", "/abs/font.ttf"), "/abs/font.ttf");
}

fn param(id: u64, join: Option<Join>, cap: Option<Cap>, miter: Option<&str>) -> DrawParam {
    DrawParam {
        id,
        relative: None,
        line_width: None,
        join,
        cap,
        dash_offset: None,
        dash_pattern: None,
        miter_limit: miter.map(|s| s.to_string()),
        fill_color: None,
        stroke_color: None,
    }
}

#[test]
fn the_innermost_parameters_win() {
    let mut stack = DrawParamStack::new();
    assert!(stack.is_empty());
    stack.push(Some(param(1, Some(Join::Round), Some(Cap::Square), Some("2"))));
    stack.push(None);
    stack.push(Some(param(2, Some(Join::Bevel), None, None)));
    assert_eq!(stack.get_join(None, &Join::Miter), Join::Bevel);
    assert_eq!(stack.get_join(Some(&Join::Miter), &Join::Round), Join::Miter);
    assert_eq!(stack.get_cap(None, &Cap::Butt), Cap::Square);
    assert_eq!(stack.get_miter_limit(None, &"9".to_string()), "2");
    assert!(stack.get_stroke_color(None, &no_resources()).is_none());
    assert_eq!(stack.pop(Some(param(0, None, None, None))).map(|d| d.id), Some(2));
    assert!(stack.pop(None).is_none());
    assert_eq!(stack.get_join(None, &Join::Miter), Join::Round);
    assert_eq!(stack.pop(Some(param(0, None, None, None))).map(|d| d.id), Some(1));
    assert!(stack.is_empty());
    assert_eq!(stack.get_cap(None, &Cap::Butt), Cap::Butt);
    assert_eq!(stack.get_miter_limit(None, &"9".to_string()), "9");
}

#[test]
fn what_drawing_a_path_decides() {
    let stack = DrawParamStack::new();
    let e = element(&format!(
        r#"<ofd:PathObject {NS_DECL} ID="3" Boundary="0 0 1 1" Fill="true" Rule="EvenOdd"><ofd:AbbreviatedData>M 0 0 L 1 1</ofd:AbbreviatedData></ofd:PathObject>"#
    ));
    let p = read_path_object(&e).unwrap();
    let plan = path_object_plan(&stack, &p, &no_resources()).unwrap().unwrap();
    assert_eq!(plan.ops.len(), 2);
    let s = plan.stroke.unwrap();
    assert_eq!(s.join, Join::Miter);
    assert_eq!(s.miter_limit.as_deref(), Some("3.528"));
    assert_eq!(s.cap, Cap::Butt);
    assert_eq!(s.line_width, "0.353");
    assert!(s.color.is_none());
    let f = plan.fill.unwrap();
    assert_eq!(f.rule, FillRule::EvenOdd);

    let hidden = element(&format!(
        r#"<ofd:PathObject {NS_DECL} ID="3" Boundary="0 0 1 1" Visible="false"><ofd:AbbreviatedData>Z</ofd:AbbreviatedData></ofd:PathObject>"#
    ));
    assert!(path_object_plan(&stack, &read_path_object(&hidden).unwrap(), &no_resources()).unwrap().is_none());
}

#[test]
fn what_drawing_a_text_decides() {
    let stack = DrawParamStack::new();
    let e = element(&format!(
        r#"<ofd:TextObject {NS_DECL} ID="4" Boundary="0 0 10 10" Font="6" Size="3.5"><ofd:TextCode X="1" Y="2">ab</ofd:TextCode><ofd:TextCode> </ofd:TextCode><ofd:TextCode Y="5">c</ofd:TextCode><ofd:TextCode></ofd:TextCode></ofd:TextObject>"#
    ));
    let t = read_text_object(&e).unwrap();
    let plan = text_object_plan(&stack, &t, &no_resources()).unwrap();
    let origins: Vec<(usize, &str, &str)> = plan.origins.iter().map(|o| (o.index, o.x.as_str(), o.y.as_str())).collect();
    assert_eq!(origins, vec![(0, "1", "2"), (1, "1", "2"), (2, "1", "5")]);
    assert!(plan.stroke.is_none());
    assert!(matches!(plan.fill, Some(None)));
    assert!(matches!(plan.font, FontChoice::Fallback));
    assert_eq!(plan.size, "3.5");

    // nothing to draw: no color is decided
    let e = element(&format!(
        r#"<ofd:TextObject {NS_DECL} ID="5" Boundary="0 0 10 10" Font="6" Size="3.5"><ofd:TextCode X="1" Y="2"></ofd:TextCode></ofd:TextObject>"#
    ));
    let t = read_text_object(&e).unwrap();
    let plan = text_object_plan(&stack, &t, &no_resources()).unwrap();
    assert!(plan.origins.is_empty());
    assert!(plan.fill.is_none());
}

#[test]
fn text_objects_read_their_stroke_flag() {
    let e = element(&format!(
        r#"<ofd:TextObject {NS_DECL} ID="1" Font="2" Size="3" Boundary="0 0 10 10" Stroke="true"><ofd:TextCode X="0" Y="0">a</ofd:TextCode></ofd:TextObject>"#
    ));
    let t = read_text_object(&e).unwrap();
    assert_eq!(t.stroke, Some(true));
}

#[test]
fn draw_parameters_read_their_stroke_color() {
    let e = element(&format!(r#"<ofd:DrawParam {NS_DECL} ID="1"><ofd:StrokeColor Value="255 0 0"/></ofd:DrawParam>"#));
    let dp = DrawParam::try_from_dom(&e).unwrap();
    assert_eq!(dp.id, 1);
    assert!(dp.fill_color.is_none());
    assert_eq!(dp.stroke_color.unwrap().value.unwrap().0, vec![255, 0, 0]);
}
