use thorn_svg_core::settle::arrows_reached;
use thorn_svg_core::Drawing;

const NESTED: &str = r#"<svg xmlns="http://www.w3.org/2000/svg" data-diaryx-drawing="1" viewBox="0 0 200 200">
  <g data-id="s1">
    <g data-id="s2">
      <rect data-id="s3" x="0" y="0" width="10" height="10"/>
    </g>
  </g>
  <rect data-id="s4" x="100" y="0" width="10" height="10"/>
  <line data-id="s5" x1="10" y1="5" x2="100" y2="5" data-from="s3" data-to="s4"/>
  <line data-id="s6" x1="0" y1="50" x2="100" y2="50"/>
  <path data-id="s7" d="M0 60 Q50 90 100 60" data-to="s4"/>
  <line x1="0" y1="70" x2="100" y2="70" data-from="s3"/>
</svg>"#;

#[test]
fn moving_an_outer_group_settles_the_arrows_bound_deep_inside_it() {
    let d = Drawing::open(NESTED).unwrap();
    assert_eq!(arrows_reached(d.shapes(), &["s1"]), vec!["s5".to_string()]);
}

#[test]
fn moving_a_target_settles_every_arrow_bound_to_it_in_paint_order() {
    let d = Drawing::open(NESTED).unwrap();
    assert_eq!(
        arrows_reached(d.shapes(), &["s4"]),
        vec!["s5".to_string(), "s7".to_string()]
    );
}

#[test]
fn an_unbound_line_is_never_settled_and_a_bound_one_settles_when_it_moves() {
    let d = Drawing::open(NESTED).unwrap();
    assert!(arrows_reached(d.shapes(), &["s6"]).is_empty());
    assert_eq!(arrows_reached(d.shapes(), &["s7"]), vec!["s7".to_string()]);
}

#[test]
fn a_shape_that_no_arrow_touches_disturbs_nothing() {
    let d = Drawing::open(NESTED).unwrap();
    assert!(arrows_reached(d.shapes(), &["s9"]).is_empty());
    assert!(arrows_reached(d.shapes(), &[]).is_empty());
}
