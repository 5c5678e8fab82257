//! Writing markup: text escaped, attributes spelled.

use vstd::prelude::*;

use crate::shape::attrs_view;
use crate::text::{contains, push_char, push_str, to_chars};

verus! {

/// What one character is written as in text or in a quoted value: the
/// five characters XML reserves as entities, every other as itself.
pub open spec fn escaped_char(c: char) -> Seq<char> {
    if c == '&' {
        "&amp;"@
    } else if c == '<' {
        "&lt;"@
    } else if c == '>' {
        "&gt;"@
    } else if c == '"' {
        "&quot;"@
    } else if c == '\'' {
        "&apos;"@
    } else {
        seq![c]
    }
}

/// `s` with the five characters XML reserves as entities.
pub open spec fn escaped(s: Seq<char>) -> Seq<char>
    decreases s.len(),
{
    if s.len() == 0 {
        Seq::empty()
    } else {
        escaped(s.drop_last()) + escaped_char(s.last())
    }
}

/// Whether `s` ends with `w`.
pub open spec fn ends_with(s: Seq<char>, w: Seq<char>) -> bool {
    w.len() <= s.len() && s.subrange(s.len() - w.len(), s.len() as int) == w
}

/// Whether `c` is one of the five characters XML reserves.
pub open spec fn reserved(c: char) -> bool {
    c == '&' || c == '<' || c == '>' || c == '"' || c == '\''
}

/// Escaped text read back: each entity of the five, from the end, as its
/// character, every other character as itself.
pub open spec fn unescaped(e: Seq<char>) -> Seq<char>
    decreases e.len(),
{
    if e.len() == 0 {
        Seq::empty()
    } else if ends_with(e, seq!['&', 'a', 'm', 'p', ';']) {
        unescaped(e.subrange(0, e.len() - 5)).push('&')
    } else if ends_with(e, seq!['&', 'l', 't', ';']) {
        unescaped(e.subrange(0, e.len() - 4)).push('<')
    } else if ends_with(e, seq!['&', 'g', 't', ';']) {
        unescaped(e.subrange(0, e.len() - 4)).push('>')
    } else if ends_with(e, seq!['&', 'q', 'u', 'o', 't', ';']) {
        unescaped(e.subrange(0, e.len() - 6)).push('"')
    } else if ends_with(e, seq!['&', 'a', 'p', 'o', 's', ';']) {
        unescaped(e.subrange(0, e.len() - 6)).push('\'')
    } else {
        unescaped(e.drop_last()).push(e.last())
    }
}

proof fn lemma_entities()
    ensures
        "&amp;"@ == seq!['&', 'a', 'm', 'p', ';'],
        "&lt;"@ == seq!['&', 'l', 't', ';'],
        "&gt;"@ == seq!['&', 'g', 't', ';'],
        "&quot;"@ == seq!['&', 'q', 'u', 'o', 't', ';'],
        "&apos;"@ == seq!['&', 'a', 'p', 'o', 's', ';'],
{
    reveal_strlit("&amp;");
    reveal_strlit("&lt;");
    reveal_strlit("&gt;");
    reveal_strlit("&quot;");
    reveal_strlit("&apos;");
}

/// Escaped text never ends inside an entity: not with an `&` and what
/// follows it short of the `;`.
proof fn lemma_no_open_entity(x: Seq<char>, w: Seq<char>)
    requires
        w.len() > 0,
        w[0] == '&',
        forall|i: int| 0 <= i < w.len() ==> w[i] != ';',
    ensures
        !ends_with(escaped(x), w),
    decreases w.len(),
{
    lemma_entities();
    if x.len() > 0 {
        let e = escaped(x);
        let c = x.last();
        assert(e == escaped(x.drop_last()) + escaped_char(c));
        if reserved(c) {
            assert(e.last() == ';');
            if ends_with(e, w) {
                assert(e[e.len() - 1] == w[w.len() - 1]);
            }
        } else {
            assert(escaped_char(c) == seq![c]);
            assert(e == escaped(x.drop_last()).push(c));
            if ends_with(e, w) {
                if w.len() == 1 {
                    assert(e.last() == w[0]);
                } else {
                    lemma_no_open_entity(x.drop_last(), w.drop_last());
                    assert(escaped(x.drop_last()).subrange(
                        escaped(x.drop_last()).len() - w.drop_last().len(),
                        escaped(x.drop_last()).len() as int,
                    ) =~= w.drop_last()) by {
                        assert(e.subrange(e.len() - w.len(), e.len() as int) == w);
                    }
                }
            }
        }
    }
}

/// Whether one of the five entities begins at `i` in `e`.
pub open spec fn entity_at(e: Seq<char>, i: int) -> bool {
    ||| crate::text::occurs_at(e, seq!['&', 'a', 'm', 'p', ';'], i)
    ||| crate::text::occurs_at(e, seq!['&', 'l', 't', ';'], i)
    ||| crate::text::occurs_at(e, seq!['&', 'g', 't', ';'], i)
    ||| crate::text::occurs_at(e, seq!['&', 'q', 'u', 'o', 't', ';'], i)
    ||| crate::text::occurs_at(e, seq!['&', 'a', 'p', 'o', 's', ';'], i)
}

/// Every `&` that escaping writes begins one of the five entities.
pub proof fn lemma_escape_entities(s: Seq<char>)
    ensures
        forall|i: int| 0 <= i < escaped(s).len() && #[trigger] escaped(s)[i] == '&' ==> entity_at(
            escaped(s),
            i,
        ),
    decreases s.len(),
{
    lemma_entities();
    if s.len() > 0 {
        let x = s.drop_last();
        let c = s.last();
        lemma_escape_entities(x);
        let ex = escaped(x);
        let tail = escaped_char(c);
        let e = escaped(s);
        assert(e == ex + tail);
        assert forall|i: int| 0 <= i < e.len() && #[trigger] e[i] == '&' implies entity_at(e, i) by {
            if i < ex.len() {
                assert(e[i] == ex[i]);
                assert(entity_at(ex, i));
                assert forall|w: Seq<char>, k: int|
                    #![trigger crate::text::occurs_at(ex, w, k)]
                    crate::text::occurs_at(ex, w, k) implies crate::text::occurs_at(e, w, k) by {
                    assert(e.subrange(k, k + w.len()) =~= ex.subrange(k, k + w.len()));
                }
            } else {
                assert(e[i] == tail[i - ex.len()]);
                assert(i == ex.len());
                assert(e.subrange(i, i + tail.len()) =~= tail);
            }
        }
    }
}

/// Escaping keeps none of the five characters but `&`, and every `&` it
/// writes begins an entity: escaped text reads back as the text.
pub proof fn lemma_escape_reads_back(s: Seq<char>)
    ensures
        forall|i: int|
            0 <= i < escaped(s).len() ==> {
                let c = #[trigger] escaped(s)[i];
                c != '<' && c != '>' && c != '"' && c != '\''
            },
        unescaped(escaped(s)) == s,
    decreases s.len(),
{
    lemma_entities();
    if s.len() > 0 {
        let x = s.drop_last();
        let c = s.last();
        lemma_escape_reads_back(x);
        let ex = escaped(x);
        let e = escaped(s);
        assert(e == ex + escaped_char(c));
        assert forall|i: int| 0 <= i < e.len() implies {
            let d = #[trigger] e[i];
            d != '<' && d != '>' && d != '"' && d != '\''
        } by {
            if i >= ex.len() {
                assert(e[i] == escaped_char(c)[i - ex.len()]);
            } else {
                assert(e[i] == ex[i]);
            }
        }
        if c == '&' {
            assert(e.subrange(e.len() - 5, e.len() as int) =~= "&amp;"@);
            assert(ends_with(e, "&amp;"@));
            assert(e.subrange(0, e.len() - 5) =~= ex);
        } else if c == '<' {
            assert(!ends_with(e, "&amp;"@));
            assert(e.subrange(e.len() - 4, e.len() as int) =~= "&lt;"@);
            assert(ends_with(e, "&lt;"@));
            assert(e.subrange(0, e.len() - 4) =~= ex);
        } else if c == '>' {
            assert(!ends_with(e, "&amp;"@));
            assert(!ends_with(e, "&lt;"@));
            assert(e.subrange(e.len() - 4, e.len() as int) =~= "&gt;"@);
            assert(ends_with(e, "&gt;"@));
            assert(e.subrange(0, e.len() - 4) =~= ex);
        } else if c == '"' {
            assert(!ends_with(e, "&amp;"@));
            assert(!ends_with(e, "&lt;"@));
            assert(!ends_with(e, "&gt;"@));
            assert(e.subrange(e.len() - 6, e.len() as int) =~= "&quot;"@);
            assert(ends_with(e, "&quot;"@));
            assert(e.subrange(0, e.len() - 6) =~= ex);
        } else if c == '\'' {
            assert(!ends_with(e, "&amp;"@));
            assert(!ends_with(e, "&lt;"@));
            assert(!ends_with(e, "&gt;"@));
            assert(!ends_with(e, "&quot;"@));
            assert(e.subrange(e.len() - 6, e.len() as int) =~= "&apos;"@);
            assert(ends_with(e, "&apos;"@));
            assert(e.subrange(0, e.len() - 6) =~= ex);
        } else {
            assert(e == ex.push(c));
            if c == ';' {
                lemma_no_open_entity(x, seq!['&', 'a', 'm', 'p']);
                lemma_no_open_entity(x, seq!['&', 'l', 't']);
                lemma_no_open_entity(x, seq!['&', 'g', 't']);
                lemma_no_open_entity(x, seq!['&', 'q', 'u', 'o', 't']);
                lemma_no_open_entity(x, seq!['&', 'a', 'p', 'o', 's']);
                assert(!ends_with(e, "&amp;"@)) by {
                    if ends_with(e, "&amp;"@) {
                        assert(ex.subrange(ex.len() - 4, ex.len() as int) =~= seq!['&', 'a', 'm', 'p']) by {
                            assert(e.subrange(e.len() - 5, e.len() as int) == "&amp;"@);
                        }
                    }
                }
                assert(!ends_with(e, "&lt;"@)) by {
                    if ends_with(e, "&lt;"@) {
                        assert(ex.subrange(ex.len() - 3, ex.len() as int) =~= seq!['&', 'l', 't']) by {
                            assert(e.subrange(e.len() - 4, e.len() as int) == "&lt;"@);
                        }
                    }
                }
                assert(!ends_with(e, "&gt;"@)) by {
                    if ends_with(e, "&gt;"@) {
                        assert(ex.subrange(ex.len() - 3, ex.len() as int) =~= seq!['&', 'g', 't']) by {
                            assert(e.subrange(e.len() - 4, e.len() as int) == "&gt;"@);
                        }
                    }
                }
                assert(!ends_with(e, "&quot;"@)) by {
                    if ends_with(e, "&quot;"@) {
                        assert(ex.subrange(ex.len() - 5, ex.len() as int) =~= seq!['&', 'q', 'u', 'o', 't'])
                            by {
                            assert(e.subrange(e.len() - 6, e.len() as int) == "&quot;"@);
                        }
                    }
                }
                assert(!ends_with(e, "&apos;"@)) by {
                    if ends_with(e, "&apos;"@) {
                        assert(ex.subrange(ex.len() - 5, ex.len() as int) =~= seq!['&', 'a', 'p', 'o', 's'])
                            by {
                            assert(e.subrange(e.len() - 6, e.len() as int) == "&apos;"@);
                        }
                    }
                }
            } else {
                assert(!ends_with(e, "&amp;"@)) by {
                    if ends_with(e, "&amp;"@) {
                        assert(e.last() == "&amp;"@.last());
                    }
                }
                assert(!ends_with(e, "&lt;"@)) by {
                    if ends_with(e, "&lt;"@) {
                        assert(e.last() == "&lt;"@.last());
                    }
                }
                assert(!ends_with(e, "&gt;"@)) by {
                    if ends_with(e, "&gt;"@) {
                        assert(e.last() == "&gt;"@.last());
                    }
                }
                assert(!ends_with(e, "&quot;"@)) by {
                    if ends_with(e, "&quot;"@) {
                        assert(e.last() == "&quot;"@.last());
                    }
                }
                assert(!ends_with(e, "&apos;"@)) by {
                    if ends_with(e, "&apos;"@) {
                        assert(e.last() == "&apos;"@.last());
                    }
                }
            }
            assert(e.drop_last() =~= ex);
        }
        assert(s.drop_last().push(c) =~= s);
    }
}

/// The five characters XML reserves, as entities.
pub fn escape(text: &str) -> (r: String)
    ensures
        r@ == escaped(text@),
{
    let v = to_chars(text);
    let mut out = String::new();
    let mut i: usize = 0;
    assert(v@.take(0) =~= Seq::<char>::empty());
    while i < v.len()
        invariant
            i <= v@.len(),
            v@ == text@,
            out@ == escaped(v@.take(i as int)),
        decreases v@.len() - i,
    {
        assert(v@.take(i + 1).drop_last() =~= v@.take(i as int));
        assert(v@.take(i + 1).last() == v@[i as int]);
        let c = v[i];
        if c == '&' {
            push_str(&mut out, "&amp;");
        } else if c == '<' {
            push_str(&mut out, "&lt;");
        } else if c == '>' {
            push_str(&mut out, "&gt;");
        } else if c == '"' {
            push_str(&mut out, "&quot;");
        } else if c == '\'' {
            push_str(&mut out, "&apos;");
        } else {
            push_char(&mut out, c);
        }
        i += 1;
    }
    assert(v@.take(v@.len() as int) =~= v@);
    out
}

/// One attribute as markup: ` name="value"`, or with single quotes when
/// the value holds a double one, or a bare ` name`.
pub open spec fn attr_markup(name: Seq<char>, value: Option<Seq<char>>) -> Seq<char> {
    match value {
        Some(v) => if contains(v, "\""@) {
            " "@ + name + "='"@ + v + "'"@
        } else {
            " "@ + name + "=\""@ + v + "\""@
        },
        None => " "@ + name,
    }
}

/// Attributes as markup, those named in `skip` left out.
pub open spec fn attrs_markup(
    attrs: Seq<(Seq<char>, Option<Seq<char>>)>,
    skip: Seq<Seq<char>>,
) -> Seq<char>
    decreases attrs.len(),
{
    if attrs.len() == 0 {
        Seq::empty()
    } else {
        attrs_markup(attrs.drop_last(), skip) + if skip.contains(attrs.last().0) {
            Seq::empty()
        } else {
            attr_markup(attrs.last().0, attrs.last().1)
        }
    }
}

/// Whether `name` is one of `skip`.
fn skipped(skip: &[&str], name: &str) -> (r: bool)
    ensures
        r == crate::shape::views(skip@).contains(name@),
{
    let mut i: usize = 0;
    while i < skip.len()
        invariant
            i <= skip@.len(),
            forall|k: int| 0 <= k < i ==> skip@[k]@ != name@,
        decreases skip@.len() - i,
    {
        if crate::text::str_eq(skip[i], name) {
            assert(crate::shape::views(skip@)[i as int] == name@);
            return true;
        }
        i += 1;
    }
    assert forall|k: int| 0 <= k < crate::shape::views(skip@).len() implies crate::shape::views(
        skip@,
    )[k] != name@ by {
        assert(crate::shape::views(skip@)[k] == skip@[k]@);
    }
    false
}

/// Write attributes as markup, `skip` left out. Values are quoted as they
/// came, since twig hands them over as the bytes in the file.
pub fn write_attributes(out: &mut String, attrs: &[(String, Option<String>)], skip: &[&str])
    ensures
        final(out)@ == old(out)@ + attrs_markup(attrs_view(attrs@), crate::shape::views(skip@)),
{
    let ghost start = out@;
    let ghost av = attrs_view(attrs@);
    let quote = ['"'];
    proof {
        reveal_strlit("\"");
    }
    assert(quote@ =~= "\""@);
    let mut i: usize = 0;
    assert(av.take(0) =~= Seq::<(Seq<char>, Option<Seq<char>>)>::empty());
    while i < attrs.len()
        invariant
            i <= attrs@.len(),
            av == attrs_view(attrs@),
            quote@ == "\""@,
            out@ == start + attrs_markup(av.take(i as int), crate::shape::views(skip@)),
        decreases attrs@.len() - i,
    {
        assert(av.take(i + 1).drop_last() =~= av.take(i as int));
        assert(av.take(i + 1).last() == av[i as int]);
        let name = attrs[i].0.as_str();
        if !skipped(skip, name) {
            push_char(out, ' ');
            push_str(out, name);
            match &attrs[i].1 {
                Some(v) => {
                    let vv = to_chars(v.as_str());
                    proof {
                        crate::text::lemma_find_from(vv@, "\""@, 0);
                        crate::style::lemma_find_from_complete(vv@, "\""@, 0);
                    }
                    if crate::text::find(vv.as_slice(), &quote, 0).is_some() {
                        push_str(out, "='");
                        push_str(out, v.as_str());
                        push_char(out, '\'');
                    } else {
                        push_str(out, "=\"");
                        push_str(out, v.as_str());
                        push_char(out, '"');
                    }
                },
                None => {},
            }
            proof {
                reveal_strlit(" ");
                reveal_strlit("'");
                reveal_strlit("\"");
            }
            assert(out@ =~= start + attrs_markup(av.take(i + 1), crate::shape::views(skip@)));
        } else {
            assert(out@ =~= start + attrs_markup(av.take(i + 1), crate::shape::views(skip@)));
        }
        i += 1;
    }
    assert(av.take(attrs@.len() as int) =~= av);
}

} // verus!
