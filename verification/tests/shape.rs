use thorn_svg_core::tree::NodeId;
use thorn_svg_core::{Dash, Handle, Heads, Hue, Shape, ShapeKind, Weight};

fn shape(kind: ShapeKind, attrs: &[(&str, &str)]) -> Shape {
    Shape {
        node: NodeId(0),
        kind,
        id: None,
        group: None,
        depth: 0,
        attrs: attrs
            .iter()
            .map(|(k, v)| (k.to_string(), Some(v.to_string())))
            .collect(),
        text: None,
    }
}

#[test]
fn every_word_reads_back_as_itself() {
    for h in [Heads::End, Heads::Start, Heads::Both] {
        assert_eq!(Heads::from_value(h.value()), Some(h));
    }
    for d in [Dash::Dashed, Dash::Dotted] {
        assert_eq!(Dash::from_value(d.value()), Some(d));
    }
    for w in [Weight::Thin, Weight::Bold] {
        assert_eq!(Weight::from_value(w.value()), Some(w));
    }
    for c in Hue::all() {
        assert_eq!(Hue::from_value(c.value()), Some(c));
    }
    for k in [
        ShapeKind::Rect,
        ShapeKind::Ellipse,
        ShapeKind::Circle,
        ShapeKind::Line,
        ShapeKind::Polyline,
        ShapeKind::Polygon,
        ShapeKind::Path,
        ShapeKind::Text,
        ShapeKind::Group,
        ShapeKind::Image,
    ] {
        assert_eq!(ShapeKind::from_tag(k.tag()), Some(k));
    }
    assert_eq!(ShapeKind::from_tag("defs"), None);
    assert_eq!(Dash::from_value(" dotted "), Some(Dash::Dotted));
    assert_eq!(Dash::from_value("wavy"), None);
}

#[test]
fn a_stroke_is_what_is_drawn_as_one() {
    assert!(shape(ShapeKind::Rect, &[]).is_stroked());
    assert!(shape(ShapeKind::Path, &[("d", "M0 0 L1 1")]).is_stroked());
    assert!(!shape(ShapeKind::Path, &[("data-ink", "monoline")]).is_stroked());
    assert!(!shape(ShapeKind::Text, &[]).is_stroked());
    assert_eq!(
        shape(ShapeKind::Line, &[("marker-start", "url(#a)")]).heads(),
        Some(Heads::Start)
    );
    assert_eq!(
        shape(ShapeKind::Rect, &[("data-dash", "dashed")]).dash(),
        Some(Dash::Dashed)
    );
}

#[test]
fn the_handles_go_round_from_the_top_left() {
    let all = Handle::all();
    assert_eq!(all[0], Handle::TopLeft);
    assert_eq!(all[3], Handle::Right);
    assert_eq!(all[7], Handle::Left);
}

#[test]
fn the_geometry_of_each_kind_is_named() {
    assert_eq!(ShapeKind::Circle.geometry_attrs(), ["cx", "cy", "r"]);
    assert!(ShapeKind::Group.geometry_attrs().is_empty());
}
