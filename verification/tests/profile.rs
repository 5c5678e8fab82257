use thorn_svg_core::profile::{check, Rule};
use thorn_svg_core::Drawing;

fn rules(src: &str) -> Vec<Rule> {
    let mut rules = check(&Drawing::open(src).unwrap())
        .into_iter()
        .map(|f| f.rule)
        .collect::<Vec<_>>();
    rules.dedup();
    rules
}

#[test]
fn a_conforming_file_has_no_findings() {
    assert_eq!(
        rules(
            "<svg viewBox=\"0 0 9 9\" data-diaryx-drawing=\"1\"><rect x=\"1\" y=\"1.5\" width=\"2\" height=\"2\" data-id=\"a\"/><text x=\"1\" y=\"1\" data-id=\"b\">hi</text></svg>"
        ),
        []
    );
}

/// Elements the profile does not name are neither shapes nor findings:
/// they are what the editor preserves.
#[test]
fn noise_is_preserved_not_judged() {
    assert_eq!(
        rules(
            "<svg viewBox=\"0 0 1 1\" data-diaryx-drawing=\"1\"><defs><marker id=\"m\"/></defs><style>.a{}</style><title>t</title></svg>"
        ),
        []
    );
}

#[test]
fn each_rule_is_reported_once_per_breach_in_its_words() {
    assert_eq!(rules("<svg/>"), [Rule::Marker, Rule::ViewBox]);
    assert_eq!(
        rules("<svg viewBox=\"0 0 1 1\" data-diaryx-drawing=\"2\"/>"),
        [Rule::Marker]
    );
    assert_eq!(
        rules(
            "<svg viewBox=\"0 0 1 1\" data-diaryx-drawing=\"1\"><rect x=\"1\"/><circle cx=\"1\" data-id=\"a\"/><circle cx=\"2\" data-id=\"a\"/></svg>"
        ),
        [Rule::ShapeId, Rule::UniqueId]
    );
    let findings = check(&Drawing::open("<svg viewBox=\"0 0 1 1\" data-diaryx-drawing=\"1\"><rect x=\"1.0\" y=\"1.2345\" width=\"2\" height=\"2\" data-id=\"a\"/></svg>").unwrap());
    assert_eq!(findings.len(), 2);
    assert!(
        findings
            .iter()
            .all(|f| f.rule == Rule::NumberFormat && f.shape.as_deref() == Some("a"))
    );
    assert_eq!(
        findings[1].message,
        "<rect> y=\"1.2345\" is not in the profile's number format"
    );
}

#[test]
fn the_messages_say_where_and_what() {
    let findings = check(
        &Drawing::open(
            "<svg data-diaryx-drawing=\"2\"><rect/><circle data-id=\"a\"/><circle data-id=\"a\"/><line data-id=\"a\"/></svg>",
        )
        .unwrap(),
    );
    let messages: Vec<&str> = findings.iter().map(|f| f.message.as_str()).collect();
    assert_eq!(
        messages,
        [
            "data-diaryx-drawing is \"2\"; this profile is version \"1\"",
            "<svg> has no viewBox attribute",
            "<rect> (shape 0) has no data-id",
            "<circle> (shape 2) repeats data-id=\"a\" of shape 1",
            "<line> (shape 3) repeats data-id=\"a\" of shape 2",
        ]
    );
    assert_eq!(findings[3].shape.as_deref(), Some("a"));
    assert_eq!(findings[2].shape, None);
    let bare = check(&Drawing::open("<svg viewBox=\"0 0 1 1\"/>").unwrap());
    assert_eq!(bare[0].message, "<svg> has no data-diaryx-drawing attribute");
}

#[test]
fn every_rule_says_what_it_is() {
    assert_eq!(Rule::ViewBox.about(), "<svg> carries viewBox");
    assert_eq!(Rule::UniqueId.about(), "no two shapes share a data-id");
}
