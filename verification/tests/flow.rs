use thorn_svg_core::flow::{paragraphs, Flow};

fn words(list: &[&[&str]]) -> Vec<Vec<String>> {
    list.iter()
        .map(|p| p.iter().map(|w| w.to_string()).collect())
        .collect()
}

#[test]
fn a_text_is_paragraphs_of_words_with_blank_lines_dropped() {
    assert_eq!(
        paragraphs("  one two \n\n three\r\n"),
        words(&[&["one", "two"], &["three"]])
    );
    assert_eq!(paragraphs(""), words(&[]));
    assert_eq!(paragraphs(" \t \n "), words(&[]));
    assert_eq!(paragraphs("a\u{3000}b"), words(&[&["a", "b"]]));
}

#[test]
fn a_word_that_does_not_fit_begins_the_next_line() {
    let mut flow = Flow::new();
    flow.begin();
    assert_eq!(flow.candidate("aa"), "aa");
    flow.take("aa", false);
    assert_eq!(flow.candidate("bb"), "aa bb");
    flow.take("bb", false);
    assert_eq!(flow.candidate("cc"), "bb cc");
    flow.take("cc", true);
    flow.end();
    assert_eq!(
        flow.markup("5", "1.2"),
        "<tspan x=\"5\">aa</tspan><tspan x=\"5\" dy=\"1.2em\">bb cc</tspan>"
    );
}

#[test]
fn a_paragraph_after_the_first_starts_with_a_hard_break() {
    let mut flow = Flow::new();
    for paragraph in paragraphs("one\ntwo <three>") {
        flow.begin();
        for word in &paragraph {
            let fits = true;
            flow.take(word, fits);
        }
        flow.end();
    }
    assert_eq!(
        flow.markup("0", "1.2"),
        "<tspan x=\"0\">one</tspan><tspan x=\"0\" dy=\"1.2em\" data-break=\"hard\">two &lt;three&gt;</tspan>"
    );
}
