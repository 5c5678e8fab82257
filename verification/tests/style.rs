use thorn_svg_core::style::{dark_rules, dash_rules, rules, widened_for_paths, with_rules};

const OLD: &str = "\n    rect, ellipse, polygon { fill: none; stroke: #222; stroke-width: 2 }\n    line { stroke: #222; stroke-width: 2 }\n    line[data-arrow=\"end\"], line[data-arrow=\"both\"] { marker-end: url(#arrow) }\n    line[data-arrow=\"start\"], line[data-arrow=\"both\"] { marker-start: url(#arrow) }\n    path[data-ink] { fill: #222; stroke: none }\n    text { font: 16px sans-serif }\n  ";

fn text_of(cs: &[char], start: usize, end: usize) -> String {
    cs[start..end].iter().collect()
}

#[test]
fn the_rules_are_found_and_at_rules_and_comments_skipped() {
    let css = "@media (prefers-color-scheme: dark) { svg { color: #eee } }\n/* a { b: c } */ line { stroke: red } text{}";
    let cs: Vec<char> = css.chars().collect();
    let found: Vec<(String, String)> = rules(&cs)
        .iter()
        .map(|r| {
            (
                text_of(&cs, r.selectors.start, r.selectors.end),
                text_of(&cs, r.declarations.start, r.declarations.end),
            )
        })
        .collect();
    assert_eq!(
        found,
        vec![
            (" line ".to_string(), " stroke: red ".to_string()),
            (" text".to_string(), "".to_string())
        ],
        "{found:?}"
    );
}

#[test]
fn the_old_template_is_widened_to_the_new_one() {
    let widened = widened_for_paths(OLD).unwrap();
    assert_eq!(
        widened,
        "\n    rect, ellipse, polygon { fill: none; stroke: #222; stroke-width: 2 }\n    line, path { fill: none; stroke: #222; stroke-width: 2 }\n    line[data-arrow=\"end\"], line[data-arrow=\"both\"], path[data-arrow=\"end\"], path[data-arrow=\"both\"] { marker-end: url(#arrow) }\n    line[data-arrow=\"start\"], line[data-arrow=\"both\"], path[data-arrow=\"start\"], path[data-arrow=\"both\"] { marker-start: url(#arrow) }\n    marker path { fill: #222; stroke: none }\n    path[data-ink] { fill: #222; stroke: none }\n    text { font: 16px sans-serif }\n  "
    );
    assert_eq!(widened_for_paths(&widened), None, "done once");
}

#[test]
fn a_stylesheet_that_already_styles_a_path_or_no_line_is_left_alone() {
    assert_eq!(
        widened_for_paths("line { stroke: red }\npath { stroke: blue }"),
        None
    );
    assert_eq!(widened_for_paths("rect { fill: none }"), None);
    assert_eq!(widened_for_paths(""), None);
}

#[test]
fn rules_for_a_word_are_added_once_in_the_last_rules_indentation() {
    let css = "\n    rect { fill: none }\n    text { font: 16px sans-serif }\n  ";
    let added = with_rules(css, "[data-dash", &dash_rules()).unwrap();
    assert_eq!(
        added,
        "\n    rect { fill: none }\n    text { font: 16px sans-serif }\n    [data-dash=\"dashed\"] { stroke-dasharray: 8 6 }\n    [data-dash=\"dotted\"] { stroke-dasharray: 1 5; stroke-linecap: round }\n  "
    );
    assert_eq!(with_rules(&added, "[data-dash", &dash_rules()), None, "once");
    assert_eq!(
        with_rules(
            "line.x[data-dash] { stroke: red }",
            "[data-dash",
            &dash_rules()
        ),
        None,
        "the author has said what the word means"
    );
    assert_eq!(
        with_rules("", "[data-dash", &vec!["a { b: c }".to_string()]).unwrap(),
        "\na { b: c }\n"
    );
}

#[test]
fn a_dark_block_is_hoisted_and_a_rule_of_several_lines_is_indented() {
    let css = "\n    @media (prefers-color-scheme: dark) { svg { color: #eee } }\n    rect { fill: none }\n    @media print { rect { fill: red } }\n  ";
    assert_eq!(dark_rules(css), "svg { color: #eee }\n");
    assert_eq!(dark_rules("rect { fill: none }"), "");
    let added = with_rules(
        css,
        "[data-color",
        &vec![
            "a { b: c }".to_string(),
            "@media (prefers-color-scheme: dark) {\n  a { b: d }\n}".to_string(),
        ],
    )
    .unwrap();
    assert_eq!(
        added,
        "\n    @media (prefers-color-scheme: dark) { svg { color: #eee } }\n    rect { fill: none }\n    @media print { rect { fill: red } }\n    a { b: c }\n    @media (prefers-color-scheme: dark) {\n      a { b: d }\n    }\n  "
    );
    assert_eq!(dark_rules(&added), "svg { color: #eee }\na { b: d }\n");
}

#[test]
fn a_qualified_line_selector_gets_its_twin_and_fill_only_where_it_strokes() {
    assert_eq!(
        widened_for_paths("line.thick { stroke-width: 4 }\nline { fill: red; stroke: red }")
            .unwrap(),
        "line.thick, path.thick { stroke-width: 4 }\nline, path { fill: red; stroke: red }\nmarker path { fill: red; stroke: none }"
    );
    assert_eq!(
        widened_for_paths("linear { stroke: red }"),
        None,
        "`linear` is not `line`"
    );
}

#[test]
fn the_palette_rules_name_every_hue_once() {
    let rules = thorn_svg_core::style::color_rules();
    for hue in thorn_svg_core::Hue::all() {
        let selector = format!("[data-color=\"{}\"]", hue.value());
        assert_eq!(
            rules.iter().filter(|r| r.starts_with(&selector)).count(),
            1,
            "{selector}"
        );
    }
}
