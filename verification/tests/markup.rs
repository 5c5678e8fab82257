use thorn_svg_core::markup::escape;

#[test]
fn escaped_text_has_no_bare_markup_and_every_ampersand_starts_an_entity() {
    let e = escape("a < b & \"c\" 'd' &amp;");
    assert_eq!(e, "a &lt; b &amp; &quot;c&quot; &apos;d&apos; &amp;amp;");
    assert!(!e.contains('<') && !e.contains('>') && !e.contains('"') && !e.contains('\''));
    let back = e
        .replace("&lt;", "<")
        .replace("&gt;", ">")
        .replace("&quot;", "\"")
        .replace("&apos;", "'")
        .replace("&amp;", "&");
    assert_eq!(back, "a < b & \"c\" 'd' &amp;");
}
