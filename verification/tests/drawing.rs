use thorn_svg_core::drawing::DrawingError;
use thorn_svg_core::profile::check;
use thorn_svg_core::{Dash, Drawing, Heads, Order, Pen, ShapeKind, Steps};

const EMPTY: &str = "<svg xmlns=\"http://www.w3.org/2000/svg\" viewBox=\"0 0 200 100\" data-diaryx-drawing=\"1\">\n</svg>\n";

const SCENE: &str = "<svg viewBox=\"0 0 100 100\" data-diaryx-drawing=\"1\">\n  <defs><marker id=\"m\"/></defs>\n  <rect x=\"10\" y=\"10\" width=\"20\" height=\"10\" fill=\"red\" data-id=\"s1\"/>\n  <circle cx=\"50\" cy=\"50\" r=\"5\" data-id=\"s2\"/>\n  <line x1=\"30\" y1=\"15\" x2=\"45\" y2=\"50\" data-id=\"s3\"/>\n</svg>\n";

const GROUPED: &str = "<svg viewBox=\"0 0 100 100\" data-diaryx-drawing=\"1\">\n  <g data-id=\"s1\" transform=\"translate(10 0)\">\n    <rect x=\"0\" y=\"0\" width=\"10\" height=\"10\" data-id=\"s2\"/>\n    <path d=\"M20 0 h10\" data-id=\"s3\"/>\n  </g>\n</svg>\n";

const WIRED: &str = "<svg xmlns=\"http://www.w3.org/2000/svg\" viewBox=\"0 0 200 100\" data-diaryx-drawing=\"1\">\n  <rect x=\"10\" y=\"10\" width=\"20\" height=\"20\" data-id=\"s1\"/>\n  <circle cx=\"100\" cy=\"20\" r=\"10\" data-id=\"s2\"/>\n  <line x1=\"0\" y1=\"0\" x2=\"1\" y2=\"1\" data-id=\"s3\"/>\n</svg>\n";

const DASH_RULES_ADDED: &str = "    [data-dash=\"dashed\"] { stroke-dasharray: 8 6 }\n    [data-dash=\"dotted\"] { stroke-dasharray: 1 5; stroke-linecap: round }\n";

fn ids(d: &Drawing) -> Vec<String> {
    d.shapes().iter().map(|s| s.id.clone().unwrap()).collect()
}

fn attrs(pairs: &[(&str, &str)]) -> Vec<(String, String)> {
    pairs
        .iter()
        .map(|(k, v)| (k.to_string(), v.to_string()))
        .collect()
}

#[test]
fn drawing_refuses_what_is_not_an_svg() {
    assert!(matches!(Drawing::open("<html></html>"), Err(DrawingError::NotSvg)));
    assert!(matches!(Drawing::open("<svg"), Err(DrawingError::Parse(_))));
}

#[test]
fn drawing_a_prolog_and_a_comment_before_the_root_are_fine() {
    let d = Drawing::open("<?xml version=\"1.0\"?>\n<!-- x -->\n<svg viewBox=\"0 0 1 1\"/>")
        .unwrap();
    assert_eq!(d.shapes().len(), 0);
    assert_eq!(d.root_attrs()[0].0, "viewBox");
}

#[test]
fn group_wraps_the_members_and_ungroup_is_its_mirror() {
    let mut d = Drawing::open(SCENE).unwrap();
    let g = d.group(&["s3", "s1"]).unwrap();
    assert_eq!(g, "s4");
    assert_eq!(
        d.source(),
        "<svg viewBox=\"0 0 100 100\" data-diaryx-drawing=\"1\">\n  <defs><marker id=\"m\"/></defs>\n  <g data-id=\"s4\">\n    <rect x=\"10\" y=\"10\" width=\"20\" height=\"10\" fill=\"red\" data-id=\"s1\"/>\n    <line x1=\"30\" y1=\"15\" x2=\"45\" y2=\"50\" data-id=\"s3\"/>\n  </g>\n  <circle cx=\"50\" cy=\"50\" r=\"5\" data-id=\"s2\"/>\n</svg>\n",
        "the line came up behind the rect; the group is where the rect was"
    );
    assert_eq!(ids(&d), ["s4", "s1", "s3", "s2"]);
    assert_eq!(d.shape("s3").unwrap().group.as_deref(), Some("s4"));
    assert!(check(&d).is_empty());
    assert!(d.undo().unwrap(), "one step, though it was two edits");
    assert_eq!(d.source(), SCENE);
    assert!(d.redo().unwrap());

    let mut steps = Steps::new(&d);
    assert_eq!(d.ungroup("s4", &mut steps).unwrap(), ["s1", "s3"]);
    assert_eq!(
        d.source(),
        "<svg viewBox=\"0 0 100 100\" data-diaryx-drawing=\"1\">\n  <defs><marker id=\"m\"/></defs>\n  <rect x=\"10\" y=\"10\" width=\"20\" height=\"10\" fill=\"red\" data-id=\"s1\"/>\n  <line x1=\"30\" y1=\"15\" x2=\"45\" y2=\"50\" data-id=\"s3\"/>\n  <circle cx=\"50\" cy=\"50\" r=\"5\" data-id=\"s2\"/>\n</svg>\n"
    );
    assert!(d.undo().unwrap());
    assert!(d.shape("s4").is_some());

    // Adjacent members need no reorder, and inline members wrap inline.
    let mut inline = Drawing::open("<svg viewBox=\"0 0 9 9\"><rect width=\"1\" height=\"1\" data-id=\"a\"/><rect width=\"1\" height=\"1\" data-id=\"b\"/></svg>").unwrap();
    inline.group(&["a", "b"]).unwrap();
    assert_eq!(
        inline.source(),
        "<svg viewBox=\"0 0 9 9\"><g data-id=\"s1\"><rect width=\"1\" height=\"1\" data-id=\"a\"/><rect width=\"1\" height=\"1\" data-id=\"b\"/></g></svg>"
    );
    let mut steps = Steps::new(&inline);
    inline.ungroup("s1", &mut steps).unwrap();
    assert_eq!(
        inline.source(),
        "<svg viewBox=\"0 0 9 9\"><rect width=\"1\" height=\"1\" data-id=\"a\"/><rect width=\"1\" height=\"1\" data-id=\"b\"/></svg>"
    );
}

#[test]
fn group_refuses_what_is_not_siblings_and_ungroup_what_is_not_a_group() {
    let mut d = Drawing::open(GROUPED).unwrap();
    assert!(matches!(d.group(&["s1", "s2"]), Err(DrawingError::NotSiblings)));
    assert!(matches!(
        d.group(&["s2", "zz"]),
        Err(DrawingError::NoSuchShape(_))
    ));
    let mut steps = Steps::new(&d);
    assert!(matches!(
        d.ungroup("s2", &mut steps),
        Err(DrawingError::Unsupported {
            gesture: "ungroup",
            kind: ShapeKind::Rect
        })
    ));
    // Members of a group can be grouped again, inside it.
    let inner = d.group(&["s2", "s3"]).unwrap();
    assert_eq!(d.shape(&inner).unwrap().group.as_deref(), Some("s1"));
    assert_eq!(d.outermost("s3").and_then(|s| s.id.as_deref()), Some("s1"));
    assert_eq!(
        d.source(),
        "<svg viewBox=\"0 0 100 100\" data-diaryx-drawing=\"1\">\n  <g data-id=\"s1\" transform=\"translate(10 0)\">\n    <g data-id=\"s4\">\n      <rect x=\"0\" y=\"0\" width=\"10\" height=\"10\" data-id=\"s2\"/>\n      <path d=\"M20 0 h10\" data-id=\"s3\"/>\n    </g>\n  </g>\n</svg>\n"
    );
    let mut steps = Steps::new(&d);
    d.ungroup("s4", &mut steps).unwrap();
    assert_eq!(d.source(), GROUPED);
}

#[test]
fn set_dash_writes_the_word_and_brings_its_rules_to_an_older_stylesheet() {
    // A drawing from before the word: a `<style>` with no rule for it.
    let old = "<svg xmlns=\"http://www.w3.org/2000/svg\" viewBox=\"0 0 200 100\" data-diaryx-drawing=\"1\">\n  <style>\n    rect { fill: none; stroke: #222 }\n  </style>\n  <rect x=\"10\" y=\"10\" width=\"20\" height=\"20\" data-id=\"s1\"/>\n  <text x=\"5\" y=\"50\" data-id=\"s2\">hi</text>\n</svg>\n".to_string();
    let mut d = Drawing::open(&old).unwrap();
    d.set_dash("s1", Some(Dash::Dashed)).unwrap();
    assert_eq!(d.shape("s1").unwrap().dash(), Some(Dash::Dashed));
    assert!(
        d.source().contains(&format!(
            "    rect {{ fill: none; stroke: #222 }}\n{DASH_RULES_ADDED}  </style>"
        )),
        "{}",
        d.source()
    );
    assert!(d.source().contains("data-id=\"s1\" data-dash=\"dashed\"/>"));
    assert_eq!(check(&d), []);
    // The word and the rules are one step.
    d.undo().unwrap();
    assert_eq!(d.source(), old);
    d.redo().unwrap();
    // A second word finds the rules there; solid takes the word off
    // and leaves them.
    d.set_dash("s1", Some(Dash::Dotted)).unwrap();
    assert_eq!(d.shape("s1").unwrap().dash(), Some(Dash::Dotted));
    assert_eq!(d.source().matches("[data-dash=\"dashed\"]").count(), 1);
    d.set_dash("s1", None).unwrap();
    assert_eq!(d.shape("s1").unwrap().dash(), None);
    assert!(d.source().contains("data-id=\"s1\"/>"), "{}", d.source());
    assert!(d.source().contains(DASH_RULES_ADDED), "the rules stay");
    // Not a stroke: refused; a selection skips it.
    assert!(matches!(
        d.set_dash("s2", Some(Dash::Dashed)),
        Err(DrawingError::Unsupported {
            gesture: "set_dash",
            ..
        })
    ));
    d.set_dash_all(&["s2", "s1"], Some(Dash::Dashed)).unwrap();
    assert_eq!(d.shape("s1").unwrap().dash(), Some(Dash::Dashed));
    assert_eq!(d.shape("s2").unwrap().dash(), None);

    // A stylesheet that says what the word means is left alone.
    let themed = old.replace("rect {", "[data-dash] { stroke-dasharray: 2 }\n    rect {");
    let mut d = Drawing::open(&themed).unwrap();
    d.set_dash("s1", Some(Dash::Dashed)).unwrap();
    assert!(!d.source().contains("8 6"), "{}", d.source());
}

#[test]
fn set_heads_writes_the_word_takes_it_off_and_replaces_a_spelled_marker() {
    let mut d = Drawing::open(WIRED).unwrap();
    // A plain line takes a head at each end, appended after what it has.
    d.set_heads("s3", Some(Heads::Both)).unwrap();
    assert_eq!(d.shape("s3").unwrap().heads(), Some(Heads::Both));
    assert!(
        d.source().contains(
            "<line x1=\"0\" y1=\"0\" x2=\"1\" y2=\"1\" data-id=\"s3\" data-arrow=\"both\"/>"
        ),
        "{}",
        d.source()
    );
    // The same word again writes nothing, so undo goes past it.
    d.set_heads("s3", Some(Heads::Both)).unwrap();
    // Off again is a line, and one undo step brings the word back.
    d.set_heads("s3", None).unwrap();
    assert_eq!(d.shape("s3").unwrap().heads(), None);
    assert_eq!(d.source(), WIRED);
    d.undo().unwrap();
    assert_eq!(d.shape("s3").unwrap().heads(), Some(Heads::Both));
    d.undo().unwrap();
    assert_eq!(d.source(), WIRED, "the no-op was not a step");
    // Not a connector: refused.
    assert!(matches!(
        d.set_heads("s1", Some(Heads::End)),
        Err(DrawingError::Unsupported {
            gesture: "set_heads",
            ..
        })
    ));

    // A file that spells its own marker: the word replaces it.
    let spelled = WIRED.replace(
        "data-id=\"s3\"",
        "marker-end=\"url(#arrow)\" data-id=\"s3\"",
    );
    let mut d = Drawing::open(&spelled).unwrap();
    assert_eq!(d.shape("s3").unwrap().heads(), Some(Heads::End));
    d.set_heads("s3", Some(Heads::Start)).unwrap();
    assert_eq!(d.shape("s3").unwrap().heads(), Some(Heads::Start));
    assert!(!d.source().contains("marker-end"), "{}", d.source());
    // Taking the heads off a spelled arrow takes the marker off too.
    let mut d = Drawing::open(&spelled).unwrap();
    d.set_heads("s3", None).unwrap();
    assert_eq!(d.shape("s3").unwrap().heads(), None);
    assert_eq!(d.source(), WIRED);
}

#[test]
fn reorder_moves_among_sibling_shapes_and_keeps_the_lines() {
    let mut d = Drawing::open(SCENE).unwrap();
    assert!(d.reorder("s1", Order::Forward).unwrap());
    assert_eq!(ids(&d), ["s2", "s1", "s3"]);
    assert!(d.reorder("s1", Order::ToFront).unwrap());
    assert_eq!(ids(&d), ["s2", "s3", "s1"]);
    assert!(
        !d.reorder("s1", Order::Forward).unwrap(),
        "already at the front"
    );
    assert!(!d.reorder("s1", Order::ToFront).unwrap());
    assert!(d.reorder("s1", Order::ToBack).unwrap());
    assert_eq!(ids(&d), ["s1", "s2", "s3"]);
    // <defs> stayed first: to-back is among shapes.
    assert_eq!(d.source(), SCENE);
    assert!(d.reorder("s3", Order::Backward).unwrap());
    assert_eq!(
        d.source(),
        "<svg viewBox=\"0 0 100 100\" data-diaryx-drawing=\"1\">\n  <defs><marker id=\"m\"/></defs>\n  <rect x=\"10\" y=\"10\" width=\"20\" height=\"10\" fill=\"red\" data-id=\"s1\"/>\n  <line x1=\"30\" y1=\"15\" x2=\"45\" y2=\"50\" data-id=\"s3\"/>\n  <circle cx=\"50\" cy=\"50\" r=\"5\" data-id=\"s2\"/>\n</svg>\n"
    );
    assert!(d.undo().unwrap());
    assert_eq!(d.source(), SCENE);
}

#[test]
fn drawing_deleting_a_group_takes_its_members() {
    let mut d = Drawing::open("<svg viewBox=\"0 0 9 9\">\n  <g data-id=\"s2\"><circle cx=\"5\" cy=\"5\" r=\"1\" data-id=\"s3\"/></g>\n</svg>\n").unwrap();
    let mut steps = Steps::new(&d);
    d.delete("s2", &mut steps).unwrap();
    assert!(d.shapes().is_empty());
}

// ----- of this library's own ----------------------------------------------

#[test]
fn opening_writes_nothing_and_keeps_no_history() {
    let mut d = Drawing::open(SCENE).unwrap();
    assert_eq!(d.source(), SCENE);
    assert!(!d.undo().unwrap());
    assert!(!d.redo().unwrap());
    assert_eq!(d.source(), SCENE);
}

#[test]
fn a_delete_and_its_undo_are_one_step_each_and_touch_nothing_else() {
    let src = "<svg viewBox=\"0 0 9 9\" data-diaryx-drawing=\"1\">\n  <!-- keep me -->\n  <rect x=\"1\" y=\"1\" width=\"2\" height=\"2\" data-id=\"s1\"/>\n  <g data-id=\"s2\"><circle cx=\"5\" cy=\"5\" r=\"1\" data-id=\"s3\"/></g>\n</svg>\n";
    let mut d = Drawing::open(src).unwrap();
    assert_eq!(ids(&d), ["s1", "s2", "s3"]);
    assert_eq!(d.shape("s3").unwrap().group.as_deref(), Some("s2"));
    assert_eq!(d.shape("s3").unwrap().depth, 1);

    let mut steps = Steps::new(&d);
    d.delete("s1", &mut steps).unwrap();
    assert!(steps.wrote());
    assert_eq!(
        d.source(),
        "<svg viewBox=\"0 0 9 9\" data-diaryx-drawing=\"1\">\n  <!-- keep me -->\n  \n  <g data-id=\"s2\"><circle cx=\"5\" cy=\"5\" r=\"1\" data-id=\"s3\"/></g>\n</svg>\n"
    );
    assert!(d.shape("s1").is_none());
    let mut steps = Steps::new(&d);
    assert!(matches!(
        d.delete("s1", &mut steps),
        Err(DrawingError::NoSuchShape(id)) if id == "s1"
    ));
    assert!(!steps.wrote());

    assert!(d.undo().unwrap());
    assert_eq!(d.source(), src);
    assert!(d.shape("s1").is_some());
    assert!(!d.undo().unwrap());
    assert!(d.redo().unwrap());
    assert!(d.shape("s1").is_none());
}

#[test]
fn delete_all_is_one_step_and_skips_what_went_with_a_group() {
    let mut d = Drawing::open(SCENE).unwrap();
    let mut steps = Steps::new(&d);
    d.delete_all(&["s1", "s3"], &mut steps).unwrap();
    assert_eq!(ids(&d), ["s2"]);
    assert!(d.undo().unwrap());
    assert_eq!(d.source(), SCENE);
    let mut steps = Steps::new(&d);
    assert!(matches!(
        d.delete_all(&["zz"], &mut steps),
        Err(DrawingError::NoSuchShape(_))
    ));

    let mut d = Drawing::open(GROUPED).unwrap();
    let mut steps = Steps::new(&d);
    d.delete_all(&["s1", "s2"], &mut steps).unwrap();
    assert!(d.shapes().is_empty());
    assert!(d.undo().unwrap());
    assert_eq!(d.source(), GROUPED);
}

#[test]
fn deleting_a_target_unbinds_the_arrow_in_the_same_step() {
    let src = "<svg viewBox=\"0 0 9 9\">\n  <rect x=\"1\" y=\"1\" width=\"2\" height=\"2\" data-id=\"a\"/>\n  <line x1=\"3\" y1=\"2\" x2=\"8\" y2=\"8\" data-from=\"a\" data-to=\"b\" data-id=\"l\"/>\n  <rect x=\"7\" y=\"7\" width=\"2\" height=\"2\" data-id=\"b\"/>\n</svg>\n";
    let mut d = Drawing::open(src).unwrap();
    let mut steps = Steps::new(&d);
    d.delete("a", &mut steps).unwrap();
    assert_eq!(d.shape("l").unwrap().attr("data-from"), None);
    assert_eq!(d.shape("l").unwrap().attr("data-to"), Some("b"));
    assert!(d.undo().unwrap());
    assert_eq!(d.source(), src);
}

#[test]
fn add_shape_writes_one_line_and_mints_the_next_id() {
    let mut d = Drawing::open(EMPTY).unwrap();
    let mut steps = Steps::new(&d);
    let a = d
        .add_shape(
            "rect",
            &attrs(&[("x", "10"), ("y", "10.5"), ("width", "80"), ("height", "40.125")]),
            None,
            &mut steps,
        )
        .unwrap();
    let mut steps = Steps::new(&d);
    let b = d
        .add_shape(
            "rect",
            &attrs(&[("x", "0"), ("y", "0"), ("width", "1"), ("height", "1")]),
            None,
            &mut steps,
        )
        .unwrap();
    assert_eq!((a.as_str(), b.as_str()), ("s1", "s2"));
    assert_eq!(
        d.source(),
        "<svg xmlns=\"http://www.w3.org/2000/svg\" viewBox=\"0 0 200 100\" data-diaryx-drawing=\"1\">\n  <rect x=\"10\" y=\"10.5\" width=\"80\" height=\"40.125\" data-id=\"s1\"/>\n  <rect x=\"0\" y=\"0\" width=\"1\" height=\"1\" data-id=\"s2\"/>\n</svg>\n"
    );
    assert_eq!(d.shapes().len(), 2);
    assert!(check(&d).is_empty());
    assert!(d.undo().unwrap());
    assert!(d.undo().unwrap());
    assert_eq!(d.source(), EMPTY);
}

#[test]
fn add_shape_escapes_its_text_and_opens_an_empty_root() {
    let mut d = Drawing::open("<svg viewBox=\"0 0 1 1\"></svg>").unwrap();
    let mut steps = Steps::new(&d);
    d.add_shape(
        "text",
        &attrs(&[("x", "5"), ("y", "6")]),
        Some("a < b & \"c\""),
        &mut steps,
    )
    .unwrap();
    assert_eq!(
        d.source(),
        "<svg viewBox=\"0 0 1 1\">\n  <text x=\"5\" y=\"6\" data-id=\"s1\">a &lt; b &amp; &quot;c&quot;</text>\n</svg>"
    );
    assert_eq!(d.shape("s1").unwrap().text.as_deref(), Some("a < b & \"c\""));
}

#[test]
fn a_self_closed_root_has_nowhere_to_add_to() {
    let mut d = Drawing::open("<svg viewBox=\"0 0 1 1\"/>").unwrap();
    let mut steps = Steps::new(&d);
    assert!(matches!(
        d.add_shape("rect", &attrs(&[("x", "1")]), None, &mut steps),
        Err(DrawingError::Edit(twig::Error::NotEditable))
    ));
    assert_eq!(d.source(), "<svg viewBox=\"0 0 1 1\"/>");
}

#[test]
fn the_pen_dashes_a_stroked_shape_and_brings_the_rules_in_one_step() {
    let old = "<svg viewBox=\"0 0 200 100\">\n  <style>\n    rect { fill: none; stroke: #222 }\n  </style>\n</svg>\n";
    let mut d = Drawing::open(old).unwrap();
    assert_eq!(d.pen(), Pen { dash: None });
    d.set_pen(Pen {
        dash: Some(Dash::Dotted),
    });
    let mut steps = Steps::new(&d);
    let r = d
        .add_shape("rect", &attrs(&[("width", "1")]), None, &mut steps)
        .unwrap();
    let mut steps = Steps::new(&d);
    let t = d
        .add_shape("text", &attrs(&[("x", "0")]), Some("hi"), &mut steps)
        .unwrap();
    assert_eq!(d.shape(&r).unwrap().dash(), Some(Dash::Dotted));
    assert_eq!(d.shape(&t).unwrap().attr("data-dash"), None);
    assert!(d.source().contains(DASH_RULES_ADDED), "{}", d.source());
    assert!(d.undo().unwrap());
    assert!(d.undo().unwrap());
    assert_eq!(d.source(), old);
}

#[test]
fn write_attrs_replaces_in_place_appends_and_takes_off() {
    let mut d = Drawing::open(WIRED).unwrap();
    let s = d.shape("s1").unwrap().clone();
    let updates = vec![
        ("x".to_string(), Some("11".to_string())),
        ("width".to_string(), None),
        ("data-dash".to_string(), Some("dashed".to_string())),
    ];
    let mut steps = Steps::new(&d);
    d.write_attrs(s.node, &s.attrs, &updates, &mut steps).unwrap();
    assert!(
        d.source().contains(
            "<rect x=\"11\" y=\"10\" height=\"20\" data-id=\"s1\" data-dash=\"dashed\"/>"
        ),
        "{}",
        d.source()
    );
    assert!(d.undo().unwrap());
    assert_eq!(d.source(), WIRED);
}

#[test]
fn write_interior_rewords_a_label_and_opens_a_self_closed_one() {
    let src = "<svg viewBox=\"0 0 9 9\">\n  <text x=\"1\" y=\"1\" data-id=\"t\">old</text>\n  <text x=\"2\" y=\"2\" data-id=\"u\"/>\n</svg>\n";
    let mut d = Drawing::open(src).unwrap();
    let t = d.shape("t").unwrap().node;
    let mut steps = Steps::new(&d);
    d.write_interior(t, "new &amp; words", &mut steps).unwrap();
    let u = d.shape("u").unwrap().node;
    d.write_interior(u, "more", &mut steps).unwrap();
    assert_eq!(
        d.source(),
        "<svg viewBox=\"0 0 9 9\">\n  <text x=\"1\" y=\"1\" data-id=\"t\">new &amp; words</text>\n  <text x=\"2\" y=\"2\" data-id=\"u\">more</text>\n</svg>\n"
    );
    assert_eq!(d.shape("t").unwrap().text.as_deref(), Some("new & words"));
    assert!(d.undo().unwrap(), "two edits, one step");
    assert_eq!(d.source(), src);
}

#[test]
fn retag_rewrites_an_element_and_keeps_its_interior() {
    let src = "<svg viewBox=\"0 0 9 9\">\n  <line x1=\"0\" y1=\"0\" x2=\"1\" y2=\"1\" data-id=\"l\"/>\n  <g data-id=\"g\"><rect width=\"1\" data-id=\"r\"/></g>\n</svg>\n";
    let mut d = Drawing::open(src).unwrap();
    let l = d.shape("l").unwrap().clone();
    let path_attrs = vec![
        ("d".to_string(), Some("M0 0 Q1 0 1 1".to_string())),
        ("data-id".to_string(), Some("l".to_string())),
    ];
    let mut steps = Steps::new(&d);
    d.retag(l.node, "path", &path_attrs, &mut steps).unwrap();
    let g = d.shape("g").unwrap().clone();
    d.retag(g.node, "g", &g.attrs, &mut steps).unwrap();
    assert_eq!(
        d.source(),
        "<svg viewBox=\"0 0 9 9\">\n  <path d=\"M0 0 Q1 0 1 1\" data-id=\"l\"/>\n  <g data-id=\"g\"><rect width=\"1\" data-id=\"r\"/></g>\n</svg>\n"
    );
    assert_eq!(d.shape("l").unwrap().kind, ShapeKind::Path);
    assert!(d.undo().unwrap());
    assert_eq!(d.source(), src);
}

#[test]
fn style_paths_widens_an_older_stylesheet_once() {
    let src = "<svg viewBox=\"0 0 9 9\">\n  <style>line { stroke: red }</style>\n</svg>\n";
    let mut d = Drawing::open(src).unwrap();
    let mut steps = Steps::new(&d);
    d.style_paths(&mut steps).unwrap();
    let widened = thorn_svg_core::style::widened_for_paths("line { stroke: red }").unwrap();
    assert_eq!(
        d.source(),
        format!("<svg viewBox=\"0 0 9 9\">\n  <style>{widened}</style>\n</svg>\n")
    );
    let mut again = Steps::new(&d);
    d.style_paths(&mut again).unwrap();
    assert!(!again.wrote(), "a stylesheet that styles a path is left alone");
    assert!(d.undo().unwrap());
    assert_eq!(d.source(), src);
}

#[test]
fn a_group_id_is_past_every_s_id_in_the_file() {
    let mut d = Drawing::open("<svg viewBox=\"0 0 9 9\"><rect data-id=\"s7\"/><rect data-id=\"x\"/><rect data-id=\"s+2\"/></svg>").unwrap();
    assert_eq!(d.group(&["x", "s7"]).unwrap(), "s8");
}

#[test]
fn a_note_is_its_frame_and_its_label() {
    let src = "<svg viewBox=\"0 0 99 99\">\n  <g data-role=\"note\" data-id=\"n\">\n    <rect x=\"0\" y=\"0\" width=\"60\" height=\"40\" data-id=\"f\"/>\n    <text x=\"8\" y=\"24\" data-id=\"t\">hi</text>\n  </g>\n</svg>\n";
    let mut d = Drawing::open(src).unwrap();
    let note = d.note("n").unwrap();
    assert_eq!((note.frame.as_str(), note.label.as_str()), ("f", "t"));
    assert!(d.note("f").is_none());
    assert_eq!(
        d.members("n").iter().map(|s| s.id.clone().unwrap()).collect::<Vec<_>>(),
        ["f", "t"]
    );
    assert_eq!(d.outermost("t").and_then(|s| s.id.as_deref()), Some("n"));
    // A note's dash is its frame's.
    d.set_dash("n", Some(Dash::Dashed)).unwrap();
    assert_eq!(d.shape("f").unwrap().dash(), Some(Dash::Dashed));
    assert_eq!(d.shape("n").unwrap().attr("data-dash"), None);
}

#[test]
fn set_heads_all_takes_the_connectors_and_skips_the_rest_in_one_step() {
    let mut d = Drawing::open(WIRED).unwrap();
    d.set_heads_all(&["s1", "s3", "s2"], Some(Heads::Both))
        .unwrap();
    assert_eq!(d.shape("s3").unwrap().heads(), Some(Heads::Both));
    d.undo().unwrap();
    assert_eq!(d.source(), WIRED);
    assert!(matches!(
        d.set_heads_all(&["s3", "nope"], None),
        Err(DrawingError::NoSuchShape(_))
    ));
}

#[test]
fn a_label_is_measured_under_its_sheets_and_groups_without_transforms() {
    let source = r#"<svg xmlns="http://www.w3.org/2000/svg" data-diaryx-drawing="1" viewBox="0 0 100 100" width="100" height="100" class="x">
  <style>text { font-size: 20px }</style>
  <defs><marker id="m"/></defs>
  <g data-id="s1" transform="translate(5 5)">
    <text data-id="s2" x="1" y="2" transform="rotate(3)">Hi</text>
  </g>
</svg>"#;
    let d = Drawing::open(source).unwrap();
    let label = d.shape("s2").unwrap().clone();
    assert_eq!(
        d.label_document(&label, "x"),
        "<svg xmlns=\"http://www.w3.org/2000/svg\" width=\"1\" height=\"1\" data-diaryx-drawing=\"1\" class=\"x\"><style>text { font-size: 20px }</style><defs><marker id=\"m\"/></defs><g data-id=\"s1\"><text data-id=\"s2\" x=\"1\" y=\"2\">x</text></g></svg>"
    );
}

fn string_pairs(list: &[(&str, &str)]) -> Vec<(String, String)> {
    list.iter()
        .map(|(k, v)| (k.to_string(), v.to_string()))
        .collect()
}

#[test]
fn a_note_is_a_group_of_a_box_with_the_pens_words_and_a_trimmed_label() {
    let markup = thorn_svg_core::drawing::note_markup(
        "s1",
        "s2",
        "s3",
        &string_pairs(&[("x", "1"), ("y", "2"), ("width", "30"), ("height", "40")]),
        &string_pairs(&[("data-dash", "dashed")]),
        &string_pairs(&[("x", "9"), ("y", "22"), ("data-width", "14")]),
        "  hi & bye ",
    );
    assert_eq!(
        markup,
        "<g data-role=\"note\" data-id=\"s1\">\n    <rect x=\"1\" y=\"2\" width=\"30\" height=\"40\" data-id=\"s2\" data-dash=\"dashed\"/>\n    <text x=\"9\" y=\"22\" data-width=\"14\" data-id=\"s3\">hi &amp; bye</text>\n  </g>"
    );
}

#[test]
fn an_element_is_written_with_its_id_after_its_attributes_and_before_the_words() {
    let markup = thorn_svg_core::drawing::element_markup(
        "text",
        &string_pairs(&[("x", "1"), ("title", "a\"b")]),
        "s7",
        &string_pairs(&[("data-color", "red")]),
        Some("<hi>"),
    );
    assert_eq!(
        markup,
        "<text x=\"1\" title=\"a&quot;b\" data-id=\"s7\" data-color=\"red\">&lt;hi&gt;</text>"
    );
}

#[test]
fn a_selection_that_already_says_it_writes_nothing_and_is_not_an_undo_step() {
    let mut d = Drawing::open(SCENE).unwrap();
    d.set_dash_all(&[], Some(Dash::Dashed)).unwrap();
    d.set_heads_all(&["s1", "s2"], None).unwrap();
    assert_eq!(d.source(), SCENE);
    assert!(!d.undo().unwrap(), "nothing was written");
    assert!(!d.redo().unwrap());
}
