use thorn_svg_core::connector::is_connector;
use thorn_svg_core::tree::NodeId;
use thorn_svg_core::{End, Shape, ShapeKind};

fn shape(kind: ShapeKind, attrs: &[(&str, &str)]) -> Shape {
    Shape {
        node: NodeId(0),
        kind,
        id: None,
        group: None,
        depth: 0,
        attrs: attrs
            .iter()
            .map(|(k, v)| (k.to_string(), Some(v.to_string())))
            .collect(),
        text: None,
    }
}

#[test]
fn what_is_not_a_connector() {
    let two = shape(ShapeKind::Path, &[("d", "M0 0 L5 5 L10 0")]);
    assert!(!is_connector(&two), "two segments");
    let cubic = shape(ShapeKind::Path, &[("d", "M0 0 C1 1 2 2 3 3")]);
    assert!(!is_connector(&cubic), "a cubic");
    let closed = shape(ShapeKind::Path, &[("d", "M0 0 L10 0 Z")]);
    assert!(!is_connector(&closed), "closed");
    let ink = shape(
        ShapeKind::Path,
        &[("d", "M0 0 L10 0"), ("data-ink", "monoline")],
    );
    assert!(!is_connector(&ink), "ink");
    let rect = shape(ShapeKind::Rect, &[("x", "0")]);
    assert!(!is_connector(&rect));
}

#[test]
fn a_line_and_a_one_segment_path_in_any_spelling_are_connectors() {
    assert!(is_connector(&shape(ShapeKind::Line, &[("x1", "0")])));
    assert!(is_connector(&shape(
        ShapeKind::Path,
        &[("d", "M 0 0 Q 5 8, 10 0")]
    )));
    assert!(is_connector(&shape(ShapeKind::Path, &[("d", "m1 1 h9")])));
    assert!(!is_connector(&shape(ShapeKind::Path, &[("d", "not a path")])));
}

#[test]
fn each_end_has_its_binding_and_the_other_end() {
    assert_eq!(End::From.binding(), "data-from");
    assert_eq!(End::To.binding(), "data-to");
    assert_eq!(End::From.other(), End::To);
    assert_eq!(End::To.other(), End::From);
}

fn pairs(attrs: &[(&str, &str)]) -> Vec<(String, Option<String>)> {
    attrs
        .iter()
        .map(|(k, v)| (k.to_string(), Some(v.to_string())))
        .collect()
}

#[test]
fn a_bent_line_keeps_its_other_attributes_and_takes_d_where_x1_was() {
    let line = pairs(&[
        ("data-id", "s3"),
        ("x1", "0"),
        ("y1", "0"),
        ("x2", "10"),
        ("y2", "0"),
        ("data-to", "s1"),
    ]);
    let bent = thorn_svg_core::connector::bent_attrs(&line, "M0 0 Q5 5 10 0".to_string());
    assert_eq!(
        bent,
        pairs(&[("data-id", "s3"), ("d", "M0 0 Q5 5 10 0"), ("data-to", "s1")])
    );
}

#[test]
fn a_line_with_no_ends_takes_d_first() {
    let line = pairs(&[("data-id", "s3")]);
    let bent = thorn_svg_core::connector::bent_attrs(&line, "M0 0 Q5 5 10 0".to_string());
    assert_eq!(bent, pairs(&[("d", "M0 0 Q5 5 10 0"), ("data-id", "s3")]));
}

#[test]
fn a_straightened_path_takes_its_ends_where_d_was() {
    let path = pairs(&[("data-id", "s3"), ("d", "M0 0 Q5 5 10 0"), ("data-to", "s1")]);
    let ends: Vec<(String, String)> = [("x1", "0"), ("y1", "0"), ("x2", "10"), ("y2", "0")]
        .iter()
        .map(|(k, v)| (k.to_string(), v.to_string()))
        .collect();
    let straight = thorn_svg_core::connector::straightened_attrs(&path, &ends);
    assert_eq!(
        straight,
        pairs(&[
            ("data-id", "s3"),
            ("x1", "0"),
            ("y1", "0"),
            ("x2", "10"),
            ("y2", "0"),
            ("data-to", "s1"),
        ])
    );
}

#[test]
fn straightening_what_a_bend_made_gives_the_line_back() {
    let line = pairs(&[
        ("data-id", "s3"),
        ("x1", "0"),
        ("y1", "0"),
        ("x2", "10"),
        ("y2", "0"),
        ("data-to", "s1"),
    ]);
    let bent = thorn_svg_core::connector::bent_attrs(&line, "M0 0 Q5 5 10 0".to_string());
    let ends: Vec<(String, String)> = [("x1", "1"), ("y1", "2"), ("x2", "3"), ("y2", "4")]
        .iter()
        .map(|(k, v)| (k.to_string(), v.to_string()))
        .collect();
    assert_eq!(
        thorn_svg_core::connector::straightened_attrs(&bent, &ends),
        pairs(&[
            ("data-id", "s3"),
            ("x1", "1"),
            ("y1", "2"),
            ("x2", "3"),
            ("y2", "4"),
            ("data-to", "s1"),
        ])
    );
}
