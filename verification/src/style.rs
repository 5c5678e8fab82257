//! The drawing's `<style>`, read just far enough to know what it strokes.
//!
//! A bent connector is a `<path>`, and how it looks is the drawing's own
//! stylesheet's to say. A drawing made before the template styled `path`
//! says nothing about one, and SVG's defaults turn a bent arrow into a
//! silhouette. [`widened_for_paths`] is the repair: each rule that selects
//! a `line` comes to select the `path` twin too, and a rule that strokes
//! gains `fill: none` so the path is an outline. A stylesheet that already
//! has a rule for a bare `path` is left alone: its author has said what a
//! path is.
//!
//! This is not a CSS parser. It walks top-level `selector { declarations }`
//! blocks, skips comments and any `@`-rule block whole, and never reads
//! inside a declaration beyond asking whether a property is named. Offsets
//! count characters.

use vstd::prelude::*;

use crate::shape::{hue_order, hue_stroke, hue_tint, hue_value, Hue};
use crate::text::{
    lemma_find_char, lemma_find_from,
    contains,
    push_char, push_chars, push_str, to_chars, trim_end,
    all_ws, find, find_ch, find_char, find_from, is_ws, occurs_at, skip_ws, starts_with, trim, trim_start,
};

verus! {

/// A run of characters, `start..end`.
#[derive(Clone, Copy, Debug, PartialEq, Eq, Structural)]
pub struct Span {
    pub start: usize,
    pub end: usize,
}

/// A top-level rule: where its selector list and its declarations are in
/// the stylesheet text.
#[derive(Clone, Copy, Debug, PartialEq, Eq, Structural)]
pub struct CssRule {
    pub selectors: Span,
    pub declarations: Span,
}

/// Where a comment opening at `i` ends: past its `*/`, or the end of the
/// text when it never closes.
pub open spec fn comment_end(css: Seq<char>, i: int) -> int {
    match find_from(css, "*/"@, i + 2) {
        Some(p) => p + 2,
        None => css.len() as int,
    }
}

/// The index of the `}` that closes the block whose nesting is `depth`
/// before index `j`; the end of the text when it never closes.
pub open spec fn close_from(css: Seq<char>, j: int, depth: int) -> int
    decreases css.len() - j,
{
    if j < 0 || j >= css.len() {
        css.len() as int
    } else if css[j] == '{' {
        close_from(css, j + 1, depth + 1)
    } else if css[j] == '}' {
        if depth - 1 == 0 {
            j
        } else {
            close_from(css, j + 1, depth - 1)
        }
    } else {
        close_from(css, j + 1, depth)
    }
}

/// Whether the prelude `css[ps..i]` opens an at-rule: its first character
/// that is not whitespace is `@`.
pub open spec fn at_rule(css: Seq<char>, ps: int, i: int) -> bool {
    let t = trim_start(css.subrange(ps, i));
    t.len() > 0 && t[0] == '@'
}

/// The top-level rules of `css` from index `i`, the current selector list
/// having started at `ps`. An at-rule block is skipped whole, comments are
/// skipped (one before a selector list is not part of it), and a rule that
/// never closes ends the scan.
pub open spec fn scan(css: Seq<char>, i: int, ps: int) -> Seq<CssRule>
    decreases css.len() - i,
{
    if i < 0 || i >= css.len() {
        Seq::empty()
    } else if css[i] == '/' && i + 1 < css.len() && css[i + 1] == '*' {
        let next = comment_end(css, i);
        if next <= i || next > css.len() {
            Seq::empty()
        } else {
            let leading = all_ws(css.subrange(ps, i));
            scan(css, next, if leading { next } else { ps })
        }
    } else if css[i] == '{' {
        if at_rule(css, ps, i) {
            let j = close_from(css, i, 0);
            if j >= css.len() || j < i {
                Seq::empty()
            } else {
                scan(css, j + 1, j + 1)
            }
        } else {
            match find_char(css, '}', i) {
                None => Seq::empty(),
                Some(c) => if c < i || c >= css.len() {
                    Seq::empty()
                } else {
                    seq![
                        CssRule {
                            selectors: Span { start: ps as usize, end: i as usize },
                            declarations: Span { start: (i + 1) as usize, end: c as usize },
                        },
                    ] + scan(css, c + 1, c + 1)
                },
            }
        }
    } else {
        scan(css, i + 1, ps)
    }
}

/// The top-level rules of a stylesheet, in order.
pub open spec fn css_rules(css: Seq<char>) -> Seq<CssRule> {
    scan(css, 0, 0)
}

/// A rule found in `css`: its selector list before its `{`, its
/// declarations between that `{` and the `}` at their end.
pub open spec fn rule_in(css: Seq<char>, r: CssRule) -> bool {
    &&& r.selectors.start <= r.selectors.end
    &&& r.declarations.start == r.selectors.end + 1
    &&& r.declarations.start <= r.declarations.end < css.len()
    &&& css[r.selectors.end as int] == '{'
    &&& css[r.declarations.end as int] == '}'
}

/// The rules of a scan lie in order in the text, each at or after `lo`.
pub open spec fn rules_in(css: Seq<char>, rs: Seq<CssRule>, lo: int) -> bool {
    &&& forall|k: int| 0 <= k < rs.len() ==> rule_in(css, #[trigger] rs[k])
    &&& forall|k: int| 0 <= k < rs.len() ==> lo <= (#[trigger] rs[k]).selectors.start
    &&& forall|k: int, l: int|
        0 <= k < l < rs.len() ==> (#[trigger] rs[k]).declarations.end < (#[trigger] rs[l]).selectors.start
}

proof fn lemma_close_from(css: Seq<char>, j: int, depth: int)
    requires
        0 <= j <= css.len(),
    ensures
        close_from(css, j, depth) >= j,
        close_from(css, j, depth) < css.len() ==> css[close_from(css, j, depth)] == '}',
    decreases css.len() - j,
{
    if j < css.len() {
        if css[j] == '{' {
            lemma_close_from(css, j + 1, depth + 1);
        } else if css[j] == '}' {
            if depth - 1 != 0 {
                lemma_close_from(css, j + 1, depth - 1);
            }
        } else {
            lemma_close_from(css, j + 1, depth);
        }
    }
}

/// Every rule a scan finds lies in the text, in order.
pub proof fn lemma_scan_in(css: Seq<char>, i: int, ps: int)
    requires
        0 <= ps <= i,
        css.len() <= usize::MAX,
    ensures
        rules_in(css, scan(css, i, ps), ps),
    decreases css.len() - i,
{
    let rs = scan(css, i, ps);
    if i < 0 || i >= css.len() {
    } else if css[i] == '/' && i + 1 < css.len() && css[i + 1] == '*' {
        let next = comment_end(css, i);
        lemma_find_from(css, "*/"@, i + 2);
        if next > i && next <= css.len() {
            let leading = all_ws(css.subrange(ps, i));
            lemma_scan_in(css, next, if leading { next } else { ps });
        }
    } else if css[i] == '{' {
        if at_rule(css, ps, i) {
            let j = close_from(css, i, 0);
            if !(j >= css.len() || j < i) {
                lemma_scan_in(css, j + 1, j + 1);
            }
        } else {
            lemma_find_char(css, '}', i);
            match find_char(css, '}', i) {
                None => {},
                Some(c) => {
                    if c >= i && c < css.len() {
                        lemma_scan_in(css, c + 1, c + 1);
                        let rest = scan(css, c + 1, c + 1);
                        let head = CssRule {
                            selectors: Span { start: ps as usize, end: i as usize },
                            declarations: Span { start: (i + 1) as usize, end: c as usize },
                        };
                        assert(rs == seq![head] + rest);
                        assert forall|k: int| 0 <= k < rs.len() implies rule_in(
                            css,
                            #[trigger] rs[k],
                        ) by {
                            if k > 0 {
                                assert(rs[k] == rest[k - 1]);
                            }
                        }
                        assert forall|k: int| 0 <= k < rs.len() implies ps <= (
                        #[trigger] rs[k]).selectors.start by {
                            if k > 0 {
                                assert(rs[k] == rest[k - 1]);
                            }
                        }
                        assert forall|k: int, l: int| 0 <= k < l < rs.len() implies (
                        #[trigger] rs[k]).declarations.end < (#[trigger] rs[l]).selectors.start by {
                            assert(rs[l] == rest[l - 1]);
                            if k > 0 {
                                assert(rs[k] == rest[k - 1]);
                            }
                        }
                    }
                },
            }
        }
    } else {
        lemma_scan_in(css, i + 1, ps);
    }
}

/// The index of the `}` closing the block opened at `i`, nesting
/// counted; `n` when it never closes.
fn block_close(css: &[char], i: usize) -> (j: usize)
    requires
        i < css@.len(),
        css@[i as int] == '{',
    ensures
        j as int == close_from(css@, i as int, 0),
        i <= j <= css@.len(),
{
    let n = css.len();
    let mut depth: usize = 0;
    let mut j = i;
    proof {
        lemma_close_from(css@, i as int, 0);
    }
    while j < n
        invariant
            n == css@.len(),
            i <= j <= n,
            close_from(css@, i as int, 0) == close_from(css@, j as int, depth as int),
            j > i ==> depth >= 1,
            j == i ==> depth == 0,
            depth <= j - i,
            css@[i as int] == '{',
        decreases n - j,
    {
        if css[j] == '{' {
            depth += 1;
        } else if css[j] == '}' {
            if depth == 1 {
                return j;
            }
            depth -= 1;
        }
        j += 1;
    }
    j
}

/// The top-level rules of `css`, in order. An `@media` (or any at-rule)
/// block is skipped whole, comments are skipped, and text that never
/// closes is dropped.
pub fn rules(css: &[char]) -> (rs: Vec<CssRule>)
    ensures
        rs@ == css_rules(css@),
        rules_in(css@, rs@, 0),
{
    let n = css.len();
    let mut rs: Vec<CssRule> = Vec::new();
    let mut i: usize = 0;
    let mut ps: usize = 0;
    let star_slash = ['*', '/'];
    assert(star_slash@ =~= "*/"@) by {
        reveal_strlit("*/");
    }
    while i < n
        invariant
            n == css@.len(),
            ps <= i,
            star_slash@ == "*/"@,
            rs@ + scan(css@, i as int, ps as int) == css_rules(css@),
        decreases n - i,
    {
        let c = css[i];
        let ghost (i0, ps0) = (i as int, ps as int);
        if c == '/' && i + 1 < n && css[i + 1] == '*' {
            let k = skip_ws(css, ps, i);
            let leading = k == i;
            proof {
                assert(css@.subrange(ps as int, i as int).subrange(k - ps, i - ps) =~= css@.subrange(
                    k as int,
                    i as int,
                ));
                assert(css@.subrange(ps as int, i as int).subrange(0, k - ps) =~= css@.subrange(
                    ps as int,
                    k as int,
                ));
                lemma_all_ws_trim(css@.subrange(ps as int, i as int), k - ps);
                assert(css@.subrange(k as int, i as int).len() == 0 ==> css@.subrange(
                    ps as int,
                    i as int,
                ) =~= css@.subrange(ps as int, k as int));
                lemma_find_from(css@, "*/"@, i + 2);
            }
            let next = match find(css, &star_slash, i + 2) {
                Some(p) => p + 2,
                None => n,
            };
            if leading {
                ps = next;
            }
            i = next;
            assert(scan(css@, i0, ps0) == scan(css@, i as int, ps as int));
        } else if c == '{' {
            let k = skip_ws(css, ps, i);
            let at = k < i && css[k] == '@';
            assert(k < i ==> css@.subrange(k as int, i as int)[0] == css@[k as int]);
            assert(at == at_rule(css@, ps as int, i as int));
            if at {
                let j = block_close(css, i);
                if j >= n {
                    i = n;
                    ps = n;
                    assert(rs@ + Seq::<CssRule>::empty() =~= rs@);
                } else {
                    i = j + 1;
                    ps = i;
                }
                assert(scan(css@, i0, ps0) == scan(css@, i as int, ps as int));
            } else {
                proof {
                    lemma_find_char(css@, '}', i as int);
                }
                match find_ch(css, '}', i) {
                    None => {
                        i = n;
                        ps = n;
                        assert(rs@ + Seq::<CssRule>::empty() =~= rs@);
                    },
                    Some(close) => {
                        let r = CssRule {
                            selectors: Span { start: ps, end: i },
                            declarations: Span { start: i + 1, end: close },
                        };
                        let ghost before = rs@;
                        rs.push(r);
                        assert(before + (seq![r] + scan(css@, close + 1, close + 1)) =~= rs@
                            + scan(css@, close + 1, close + 1));
                        i = close + 1;
                        ps = i;
                        assert(scan(css@, i0, ps0) == seq![r] + scan(css@, i as int, ps as int));
                    },
                }
            }
        } else {
            i += 1;
        }
    }
    assert(rs@ + Seq::<CssRule>::empty() =~= rs@);
    proof {
        lemma_scan_in(css@, 0, 0);
    }
    rs
}

/// What `all_ws` of a text says through where its trim starts.
proof fn lemma_all_ws_trim(s: Seq<char>, k: int)
    requires
        0 <= k <= s.len(),
        trim_start(s) == s.subrange(k, s.len() as int),
        all_ws(s.subrange(0, k)),
    ensures
        all_ws(s) <==> k == s.len(),
        k < s.len() ==> trim_start(s)[0] == s[k] && !is_ws(s[k]),
    decreases s.len(),
{
    lemma_trim_start_stops(s);
    if k < s.len() {
        assert(trim_start(s)[0] == s[k]);
    } else {
        assert(s.subrange(0, k) =~= s);
    }
}

/// A trimmed start is empty or does not start with whitespace.
pub proof fn lemma_trim_start_stops(s: Seq<char>)
    ensures
        trim_start(s).len() > 0 ==> !is_ws(trim_start(s)[0]),
    decreases s.len(),
{
    if s.len() > 0 && is_ws(s[0]) {
        lemma_trim_start_stops(s.drop_first());
    }
}


/// The trimmed, non-empty text of `s[a..b]`, as a list of at most one.
pub open spec fn piece(s: Seq<char>, a: int, b: int) -> Seq<Seq<char>> {
    let t = trim(s.subrange(a, b));
    if t.len() > 0 {
        seq![t]
    } else {
        Seq::empty()
    }
}

/// The selectors of a list from index `a`: split on `,`, each trimmed,
/// empty ones dropped.
pub open spec fn sels_from(s: Seq<char>, a: int) -> Seq<Seq<char>>
    decreases s.len() + 1 - a,
{
    if a < 0 || a > s.len() {
        Seq::empty()
    } else {
        match find_char(s, ',', a) {
            Some(k) => if k < a || k >= s.len() {
                Seq::empty()
            } else {
                piece(s, a, k) + sels_from(s, k + 1)
            },
            None => piece(s, a, s.len() as int),
        }
    }
}

/// The selectors of a selector list, trimmed, in order.
pub open spec fn selector_list(s: Seq<char>) -> Seq<Seq<char>> {
    sels_from(s, 0)
}

/// The texts `spans` pick out of `s`.
pub open spec fn span_texts(s: Seq<char>, spans: Seq<Span>) -> Seq<Seq<char>> {
    spans.map_values(|sp: Span| s.subrange(sp.start as int, sp.end as int))
}

/// Spans that lie within `s`.
pub open spec fn spans_in(s: Seq<char>, spans: Seq<Span>) -> bool {
    forall|k: int|
        0 <= k < spans.len() ==> (#[trigger] spans[k]).start <= spans[k].end <= s.len()
}

/// The selectors of a list, as the spans of their trimmed text.
pub fn selectors(list: &[char]) -> (r: Vec<Span>)
    ensures
        spans_in(list@, r@),
        span_texts(list@, r@) == selector_list(list@),
{
    let n = list.len();
    let mut out: Vec<Span> = Vec::new();
    let mut a: usize = 0;
    loop
        invariant
            n == list@.len(),
            a <= n,
            spans_in(list@, out@),
            span_texts(list@, out@) + sels_from(list@, a as int) == selector_list(list@),
        decreases n - a,
    {
        proof {
            lemma_find_char(list@, ',', a as int);
        }
        let (e, more) = match find_ch(list, ',', a) {
            Some(k) => (k, true),
            None => (n, false),
        };
        let (x, y) = crate::text::trim_range(list, a, e);
        let ghost before = out@;
        if x < y {
            out.push(Span { start: x, end: y });
            assert(span_texts(list@, out@) =~= span_texts(list@, before) + piece(
                list@,
                a as int,
                e as int,
            ));
        } else {
            assert(piece(list@, a as int, e as int) =~= Seq::<Seq<char>>::empty());
            assert(span_texts(list@, before) + piece(list@, a as int, e as int) =~= span_texts(
                list@,
                out@,
            ));
        }
        if !more {
            assert(sels_from(list@, a as int) == piece(list@, a as int, e as int));
            assert(span_texts(list@, out@) + Seq::<Seq<char>>::empty() =~= span_texts(
                list@,
                out@,
            ));
            assert(span_texts(list@, out@) =~= selector_list(list@));
            return out;
        }
        assert(sels_from(list@, a as int) == piece(list@, a as int, e as int) + sels_from(
            list@,
            e + 1,
        ));
        assert(span_texts(list@, before) + (piece(list@, a as int, e as int) + sels_from(
            list@,
            e + 1,
        )) =~= span_texts(list@, out@) + sels_from(list@, e + 1));
        a = e + 1;
    }
}

/// Whether a selector is a `line` type selector, alone or qualified —
/// `line`, `line[data-arrow="end"]`, `line.thick`, `line:first-child`.
pub open spec fn selects_line(sel: Seq<char>) -> bool {
    &&& starts_with(sel, "line"@)
    &&& sel.len() == 4 || sel[4] == '[' || sel[4] == '.' || sel[4] == ':' || sel[4] == '#'
}

/// Whether the selector `s[sp]` is a `line` type selector.
pub fn span_selects_line(s: &[char], sp: Span) -> (r: bool)
    requires
        sp.start <= sp.end <= s@.len(),
    ensures
        r == selects_line(s@.subrange(sp.start as int, sp.end as int)),
{
    proof {
        reveal_strlit("line");
    }
    let ghost t = s@.subrange(sp.start as int, sp.end as int);
    if sp.end - sp.start < 4 {
        return false;
    }
    let head = s[sp.start] == 'l' && s[sp.start + 1] == 'i' && s[sp.start + 2] == 'n' && s[sp.start
        + 3] == 'e';
    proof {
        let h = t.subrange(0, 4);
        assert(h[0] == s@[sp.start as int] && h[1] == s@[sp.start + 1] && h[2] == s@[sp.start + 2]
            && h[3] == s@[sp.start + 3]);
        if head {
            assert(h =~= "line"@);
        }
        if h == "line"@ {
            assert(h[0] == 'l' && h[1] == 'i' && h[2] == 'n' && h[3] == 'e');
        }
    }
    if !head {
        return false;
    }
    if sp.end - sp.start == 4 {
        return true;
    }
    let c = s[sp.start + 4];
    c == '[' || c == '.' || c == ':' || c == '#'
}

/// The value the declarations `s[a..]` give `prop`: the first piece
/// between semicolons whose name, before its first `:`, is `prop` once
/// trimmed; its value after the `:`, trimmed.
pub open spec fn decl_from(s: Seq<char>, a: int, prop: Seq<char>) -> Option<Seq<char>>
    decreases s.len() + 1 - a,
{
    if a < 0 || a > s.len() {
        None
    } else {
        let e = match find_char(s, ';', a) {
            Some(k) => k,
            None => s.len() as int,
        };
        let found = match find_char(s, ':', a) {
            Some(m) => if m < e && trim(s.subrange(a, m)) == prop {
                Some(trim(s.subrange(m + 1, e)))
            } else {
                None
            },
            None => None,
        };
        if found is Some {
            found
        } else if a <= e < s.len() {
            decl_from(s, e + 1, prop)
        } else {
            None
        }
    }
}

/// The value a declaration block gives `prop`, trimmed, if it names it.
pub open spec fn declared(s: Seq<char>, prop: Seq<char>) -> Option<Seq<char>> {
    decl_from(s, 0, prop)
}

/// The value the declarations `s[from..to]` give `prop`, as the span of
/// its trimmed text in `s`.
pub fn declared_in(s: &[char], from: usize, to: usize, prop: &[char]) -> (r: Option<Span>)
    requires
        from <= to <= s@.len(),
    ensures
        r matches Some(sp) ==> from <= sp.start <= sp.end <= to,
        (match r {
            Some(sp) => Some(s@.subrange(sp.start as int, sp.end as int)),
            None => None,
        }) == declared(s@.subrange(from as int, to as int), prop@),
{
    let v = crate::text::slice_vec(s, from, to);
    let n = v.len();
    let mut a: usize = 0;
    loop
        invariant
            n == v@.len(),
            v@ == s@.subrange(from as int, to as int),
            from <= to <= s@.len(),
            a <= n,
            decl_from(v@, a as int, prop@) == declared(v@, prop@),
        decreases n - a,
    {
        proof {
            lemma_find_char(v@, ';', a as int);
            lemma_find_char(v@, ':', a as int);
        }
        let e = match find_ch(v.as_slice(), ';', a) {
            Some(k) => k,
            None => n,
        };
        let colon = find_ch(v.as_slice(), ':', a);
        if let Some(m) = colon {
            if m < e {
                let (x, y) = crate::text::trim_range(v.as_slice(), a, m);
                if y - x == prop.len() && crate::text::matches_at(v.as_slice(), x, prop) {
                    assert(v@.subrange(x as int, y as int) =~= prop@);
                    let (p, q) = crate::text::trim_range(v.as_slice(), m + 1, e);
                    assert(v@.subrange(p as int, q as int) =~= s@.subrange(
                        from + p,
                        from + q,
                    ));
                    return Some(Span { start: from + p, end: from + q });
                }
                assert(trim(v@.subrange(a as int, m as int)) != prop@);
            }
        }
        if e >= n {
            return None;
        }
        a = e + 1;
    }
}

/// Whether a declaration block names `prop`.
pub open spec fn declares(s: Seq<char>, prop: Seq<char>) -> bool {
    declared(s, prop) is Some
}


/// The `path` twin of each `line` selector, in order.
pub open spec fn line_twins(sels: Seq<Seq<char>>) -> Seq<Seq<char>>
    decreases sels.len(),
{
    if sels.len() == 0 {
        Seq::empty()
    } else {
        let rest = line_twins(sels.drop_last());
        let s = sels.last();
        if selects_line(s) {
            rest.push("path"@ + s.subrange(4, s.len() as int))
        } else {
            rest
        }
    }
}

/// Each twin after `, `.
pub open spec fn joined_twins(tw: Seq<Seq<char>>) -> Seq<char>
    decreases tw.len(),
{
    if tw.len() == 0 {
        Seq::empty()
    } else {
        joined_twins(tw.drop_last()) + ", "@ + tw.last()
    }
}

/// A rule's selector list.
pub open spec fn rule_list(css: Seq<char>, r: CssRule) -> Seq<char> {
    css.subrange(r.selectors.start as int, r.selectors.end as int)
}

/// A rule's declarations.
pub open spec fn rule_decls(css: Seq<char>, r: CssRule) -> Seq<char> {
    css.subrange(r.declarations.start as int, r.declarations.end as int)
}

/// Declarations that stroke and say nothing of fill, with `fill: none; `
/// after their leading whitespace; others as they are.
pub open spec fn widened_decls(d: Seq<char>) -> Seq<char> {
    if declares(d, "stroke"@) && !declares(d, "fill"@) {
        let lead = d.len() - trim_start(d).len();
        d.subrange(0, lead) + "fill: none; "@ + d.subrange(lead, d.len() as int)
    } else {
        d
    }
}

/// The rule that keeps an arrowhead a filled triangle once a bare `path`
/// is stroked.
pub open spec fn marker_rule_text(fill: Seq<char>) -> Seq<char> {
    "marker path { fill: "@ + fill + "; stroke: none }"@
}

/// The widening of the first `k` rules: the text written so far, where in
/// `css` it has got to, the first `stroke` a widened rule declares, and
/// whether any rule was widened.
pub open spec fn widen_rules(css: Seq<char>, rs: Seq<CssRule>, k: int) -> (
    Seq<char>,
    int,
    Option<Seq<char>>,
    bool,
)
    decreases k,
{
    if k <= 0 {
        (Seq::empty(), 0, None, false)
    } else {
        let (out, at, stroke, changed) = widen_rules(css, rs, k - 1);
        let r = rs[k - 1];
        let list = rule_list(css, r);
        let tw = line_twins(selector_list(list));
        if tw.len() == 0 {
            (out, at, stroke, changed)
        } else {
            let tl = trim_end(list).len() as int;
            let d = rule_decls(css, r);
            (
                out + css.subrange(at, r.selectors.start + tl) + joined_twins(tw) + list.subrange(
                    tl,
                    list.len() as int,
                ) + "{"@ + widened_decls(d),
                r.declarations.end as int,
                if stroke is None {
                    declared(d, "stroke"@)
                } else {
                    stroke
                },
                true,
            )
        }
    }
}

/// Whether some rule's selector list holds `sel` as a selector of its own.
pub open spec fn styles_bare(css: Seq<char>, rs: Seq<CssRule>, sel: Seq<char>) -> bool {
    exists|k: int| 0 <= k < rs.len() && selector_list(rule_list(css, #[trigger] rs[k])).contains(sel)
}

/// The index of the last of the first `k` rules that selects a `line`.
pub open spec fn last_line_rule(css: Seq<char>, rs: Seq<CssRule>, k: int) -> int
    decreases k,
{
    if k <= 0 {
        0
    } else if line_twins(selector_list(rule_list(css, rs[k - 1]))).len() > 0 {
        k - 1
    } else {
        last_line_rule(css, rs, k - 1)
    }
}

/// `css` with every rule that selects a `line` selecting its `path` twin
/// too, `fill: none` on each such rule that strokes and says nothing of
/// fill, and, unless the stylesheet has one, the rule that keeps an
/// arrowhead filled, after the last rule widened and in its indentation.
/// `None` when nothing changes: no rule selects a `line`, or a rule
/// already selects a bare `path`.
pub open spec fn widened(css: Seq<char>) -> Option<Seq<char>> {
    let rs = css_rules(css);
    if styles_bare(css, rs, "path"@) {
        None
    } else {
        let (out, at, stroke, changed) = widen_rules(css, rs, rs.len() as int);
        if !changed {
            None
        } else {
            let marker = if styles_bare(css, rs, "marker path"@) {
                Seq::empty()
            } else {
                let list = rule_list(css, rs[last_line_rule(css, rs, rs.len() as int)]);
                list.subrange(0, list.len() - trim_start(list).len()) + marker_rule_text(
                    match stroke {
                        Some(s) => s,
                        None => "currentColor"@,
                    },
                )
            };
            Some(out + css.subrange(at, at + 1) + marker + css.subrange(at + 1, css.len() as int))
        }
    }
}

/// Whether some rule's selector list holds a `line` selector.
pub open spec fn selects_a_line(css: Seq<char>, rs: Seq<CssRule>) -> bool {
    exists|k: int|
        0 <= k < rs.len() && line_twins(selector_list(rule_list(css, #[trigger] rs[k]))).len() > 0
}

/// The widening of the first `k` rules changes something exactly when
/// one of them selects a `line`.
proof fn lemma_widen_rules_changed(css: Seq<char>, rs: Seq<CssRule>, k: int)
    requires
        0 <= k <= rs.len(),
    ensures
        widen_rules(css, rs, k).3 <==> selects_a_line(css, rs.take(k)),
    decreases k,
{
    if k > 0 {
        lemma_widen_rules_changed(css, rs, k - 1);
        let pre = rs.take(k - 1);
        let cur = rs.take(k);
        assert forall|j: int| 0 <= j < pre.len() implies pre[j] == cur[j] by {}
        if selects_a_line(css, cur) {
            let j = choose|j: int|
                0 <= j < cur.len() && line_twins(selector_list(rule_list(css, #[trigger] cur[j]))).len() > 0;
            if j < k - 1 {
                assert(pre[j] == cur[j]);
            } else {
                assert(cur[j] == rs[k - 1]);
            }
        }
        if selects_a_line(css, pre) {
            let j = choose|j: int|
                0 <= j < pre.len() && line_twins(selector_list(rule_list(css, #[trigger] pre[j]))).len() > 0;
            assert(cur[j] == pre[j]);
        }
        if line_twins(selector_list(rule_list(css, rs[k - 1]))).len() > 0 {
            assert(cur[k - 1] == rs[k - 1]);
        }
    }
}

/// What the widening leaves alone, as its documentation says: a
/// stylesheet with no rule selecting a `line`, or one with a rule that
/// already selects a bare `path`.
pub proof fn lemma_widened_refuses_exactly(css: Seq<char>)
    ensures
        widened(css) is None <==> (styles_bare(css, css_rules(css), "path"@) || !selects_a_line(
            css,
            css_rules(css),
        )),
{
    let rs = css_rules(css);
    lemma_widen_rules_changed(css, rs, rs.len() as int);
    assert(rs.take(rs.len() as int) =~= rs);
}

/// The last block ends inside the stylesheet.
proof fn lemma_block_end_within(css: Seq<char>, i: int, depth: int, end: Option<int>)
    requires
        end matches Some(e) ==> 0 < e <= css.len(),
    ensures
        block_end_from(css, i, depth, end) matches Some(e) ==> 0 < e <= css.len(),
    decreases css.len() - i,
{
    if 0 <= i < css.len() {
        if css[i] == '/' && i + 1 < css.len() && css[i + 1] == '*' {
            let next = comment_end(css, i);
            if !(next <= i || next > css.len()) {
                lemma_block_end_within(css, next, depth, end);
            }
        } else if css[i] == '{' {
            lemma_block_end_within(css, i + 1, depth + 1, end);
        } else if css[i] == '}' {
            let d = if depth > 0 {
                depth - 1
            } else {
                0
            };
            lemma_block_end_within(css, i + 1, d, if d == 0 { Some(i + 1) } else { end });
        } else {
            lemma_block_end_within(css, i + 1, depth, end);
        }
    }
}

/// What adding rules for a word refuses, as its documentation says: a
/// stylesheet in which some rule's selector list already mentions the
/// word, and nothing else.
pub proof fn lemma_with_rules_refuses_exactly(css: Seq<char>, word: Seq<char>, rules: Seq<Seq<char>>)
    ensures
        with_rules_text(css, word, rules) is None <==> exists|k: int|
            0 <= k < css_rules(css).len() && contains(
                rule_list(css, #[trigger] css_rules(css)[k]),
                word,
            ),
        with_rules_text(css, word, rules) matches Some(out) ==> match last_end(css) {
            Some(end) => out.subrange(0, end) == css.subrange(0, end) && out.subrange(
                out.len() - (css.len() - end),
                out.len() as int,
            ) == css.subrange(end, css.len() as int),
            None => out.subrange(0, trim_end(css).len() as int) == trim_end(css),
        },
{
    lemma_block_end_within(css, 0, 0, None);
    if let Some(out) = with_rules_text(css, word, rules) {
        match last_end(css) {
            Some(end) => {
                let text = css.subrange(line_start(css, end), end);
                let indent = text.subrange(0, text.len() - trim_start(text).len());
                let mid = appended(rules, indent);
                assert(out == css.subrange(0, end) + mid + css.subrange(end, css.len() as int));
                assert(out.subrange(0, end) =~= css.subrange(0, end));
                assert(out.subrange(out.len() - (css.len() - end), out.len() as int) =~= css.subrange(
                    end,
                    css.len() as int,
                ));
            },
            None => {
                assert(out.subrange(0, trim_end(css).len() as int) =~= trim_end(css));
            },
        }
    }
}

/// Whether the selector list of `rule` holds `sel` as a selector of its
/// own.
fn rule_selects(css: &[char], rule: CssRule, sel: &[char]) -> (r: bool)
    requires
        rule_in(css@, rule),
    ensures
        r == selector_list(rule_list(css@, rule)).contains(sel@),
{
    let list = crate::text::slice_vec(css, rule.selectors.start, rule.selectors.end);
    let spans = selectors(list.as_slice());
    let ghost texts = span_texts(list@, spans@);
    let mut j: usize = 0;
    while j < spans.len()
        invariant
            spans_in(list@, spans@),
            texts == span_texts(list@, spans@),
            texts == selector_list(rule_list(css@, rule)),
            j <= spans@.len(),
            forall|i: int| 0 <= i < j ==> texts[i] != sel@,
        decreases spans@.len() - j,
    {
        let sp = spans[j];
        if sp.end - sp.start == sel.len() && crate::text::matches_at(list.as_slice(), sp.start, sel) {
            assert(texts[j as int] =~= sel@);
            return true;
        }
        assert(texts[j as int] != sel@);
        j += 1;
    }
    false
}

/// Whether any rule of `rs` holds `sel` as a selector of its own.
fn any_selects(css: &[char], rs: &Vec<CssRule>, sel: &[char]) -> (r: bool)
    requires
        rules_in(css@, rs@, 0),
    ensures
        r == styles_bare(css@, rs@, sel@),
{
    let mut k: usize = 0;
    while k < rs.len()
        invariant
            rules_in(css@, rs@, 0),
            k <= rs@.len(),
            forall|i: int| 0 <= i < k ==> !selector_list(rule_list(css@, #[trigger] rs@[i])).contains(sel@),
        decreases rs@.len() - k,
    {
        if rule_selects(css, rs[k], sel) {
            return true;
        }
        k += 1;
    }
    false
}

/// The rule that keeps an arrowhead a filled triangle once a bare `path`
/// is stroked, in `fill`: what the template says with `currentColor`,
/// and what widening adds in the line's own stroke.
pub fn marker_rule(fill: &[char]) -> (r: String)
    ensures
        r@ == marker_rule_text(fill@),
{
    let mut r = String::new();
    push_str(&mut r, "marker path { fill: ");
    push_chars(&mut r, fill, 0, fill.len());
    push_str(&mut r, "; stroke: none }");
    assert(fill@.subrange(0, fill@.len() as int) =~= fill@);
    r
}


/// Whether some selector among `spans` of `list` is a `line` one.
fn has_line(list: &[char], spans: &Vec<Span>) -> (r: bool)
    requires
        spans_in(list@, spans@),
    ensures
        r == (line_twins(span_texts(list@, spans@)).len() > 0),
{
    let ghost texts = span_texts(list@, spans@);
    let mut j: usize = 0;
    while j < spans.len()
        invariant
            spans_in(list@, spans@),
            texts == span_texts(list@, spans@),
            j <= spans@.len(),
            line_twins(texts.take(j as int)).len() == 0,
        decreases spans@.len() - j,
    {
        assert(texts.take(j + 1).drop_last() =~= texts.take(j as int));
        assert(texts[j as int] == list@.subrange(spans@[j as int].start as int, spans@[j as int].end as int));
        assert(texts.take(j + 1).last() == texts[j as int]);
        if span_selects_line(list, spans[j]) {
            proof {
                lemma_line_twins_grow(texts, j as int + 1, texts.len() as int);
                assert(texts.take(texts.len() as int) =~= texts);
            }
            return true;
        }
        j += 1;
    }
    assert(texts.take(spans@.len() as int) =~= texts);
    false
}

/// More selectors never mean fewer twins.
proof fn lemma_line_twins_grow(texts: Seq<Seq<char>>, a: int, b: int)
    requires
        0 <= a <= b <= texts.len(),
    ensures
        line_twins(texts.take(a)).len() <= line_twins(texts.take(b)).len(),
    decreases b - a,
{
    if a < b {
        lemma_line_twins_grow(texts, a, b - 1);
        assert(texts.take(b).drop_last() =~= texts.take(b - 1));
    }
}

/// Append each `line` selector's `path` twin after `, `.
fn write_twins(out: &mut String, list: &[char], spans: &Vec<Span>)
    requires
        spans_in(list@, spans@),
    ensures
        final(out)@ == old(out)@ + joined_twins(line_twins(span_texts(list@, spans@))),
{
    let ghost texts = span_texts(list@, spans@);
    let ghost start = out@;
    let mut j: usize = 0;
    proof {
        reveal_strlit(", ");
        reveal_strlit("path");
        reveal_strlit(", path");
    }
    assert(start + joined_twins(line_twins(texts.take(0))) =~= start);
    while j < spans.len()
        invariant
            spans_in(list@, spans@),
            texts == span_texts(list@, spans@),
            j <= spans@.len(),
            out@ == start + joined_twins(line_twins(texts.take(j as int))),
        decreases spans@.len() - j,
    {
        assert(texts.take(j + 1).drop_last() =~= texts.take(j as int));
        let sp = spans[j];
        assert(texts[j as int] == list@.subrange(sp.start as int, sp.end as int));
        assert(texts.take(j + 1).last() == texts[j as int]);
        if span_selects_line(list, sp) {
            let ghost t = texts[j as int];
            proof {
                reveal_strlit("line");
            }
            assert(t.len() >= 4);
            let ghost before = out@;
            push_str(out, ", path");
            push_chars(out, list, sp.start + 4, sp.end);
            assert(t.subrange(4, t.len() as int) =~= list@.subrange(sp.start + 4, sp.end as int));
            proof {
                reveal_strlit(", path");
                reveal_strlit(", ");
                reveal_strlit("path");
                assert(", path"@ =~= ", "@ + "path"@);
                let tw = line_twins(texts.take(j as int));
                assert(line_twins(texts.take(j + 1)) == tw.push("path"@ + t.subrange(4, t.len() as int)));
                assert(tw.push("path"@ + t.subrange(4, t.len() as int)).drop_last() =~= tw);
                assert(out@ =~= before + ", "@ + ("path"@ + t.subrange(4, t.len() as int)));
            }
        } else {
            assert(line_twins(texts.take(j + 1)) == line_twins(texts.take(j as int)));
        }
        j += 1;
    }
    assert(texts.take(spans@.len() as int) =~= texts);
}

/// Append the declarations `v[a..b]`, widened.
fn write_decls(out: &mut String, v: &[char], a: usize, b: usize)
    requires
        a <= b <= v@.len(),
    ensures
        final(out)@ == old(out)@ + widened_decls(v@.subrange(a as int, b as int)),
{
    let stroke: [char; 6] = ['s', 't', 'r', 'o', 'k', 'e'];
    let fill: [char; 4] = ['f', 'i', 'l', 'l'];
    proof {
        reveal_strlit("stroke");
        reveal_strlit("fill");
    }
    assert(stroke@ =~= "stroke"@);
    assert(fill@ =~= "fill"@);
    let strokes = declared_in(v, a, b, &stroke).is_some();
    let fills = declared_in(v, a, b, &fill).is_some();
    let ghost d = v@.subrange(a as int, b as int);
    if strokes && !fills {
        let lead = skip_ws(v, a, b);
        assert(d.subrange(0, lead - a) =~= v@.subrange(a as int, lead as int));
        assert(d.subrange(lead - a, d.len() as int) =~= v@.subrange(lead as int, b as int));
        push_chars(out, v, a, lead);
        push_str(out, "fill: none; ");
        push_chars(out, v, lead, b);
    } else {
        push_chars(out, v, a, b);
    }
}

/// `css` with every rule that selects a `line` selecting its `path` twin
/// too, and `fill: none` on each such rule that strokes and says nothing
/// of fill. `None` when nothing changes: no rule selects a `line`, or a
/// rule already selects a bare `path`.
pub fn widened_for_paths(css: &str) -> (r: Option<String>)
    ensures
        crate::shape::opt_view(r) == widened(css@),
{
    let v = to_chars(css);
    let n = v.len();
    let rs = rules(v.as_slice());
    let path: [char; 4] = ['p', 'a', 't', 'h'];
    proof {
        reveal_strlit("path");
    }
    assert(path@ =~= "path"@);
    if any_selects(v.as_slice(), &rs, &path) {
        return None;
    }
    let mut out = String::new();
    let mut at: usize = 0;
    let mut changed = false;
    let mut stroke: Option<Span> = None;
    let mut last: usize = 0;
    let mut k: usize = 0;
    let stroke_word: [char; 6] = ['s', 't', 'r', 'o', 'k', 'e'];
    proof {
        reveal_strlit("stroke");
    }
    assert(stroke_word@ =~= "stroke"@);
    while k < rs.len()
        invariant
            n == v@.len(),
            v@ == css@,
            rs@ == css_rules(v@),
            rules_in(v@, rs@, 0),
            stroke_word@ == "stroke"@,
            k <= rs@.len(),
            ({
                let (o, t, st, ch) = widen_rules(v@, rs@, k as int);
                &&& o == out@
                &&& t == at as int
                &&& st == (match stroke {
                    Some(sp) => Some(v@.subrange(sp.start as int, sp.end as int)),
                    None => None,
                })
                &&& ch == changed
            }),
            stroke matches Some(sp) ==> sp.start <= sp.end <= n,
            k < rs@.len() ==> at <= rs@[k as int].selectors.start,
            changed ==> at < n && last < k && last as int == last_line_rule(v@, rs@, k as int),
            !changed ==> at == 0,
        decreases rs@.len() - k,
    {
        let r = rs[k];
        assert(rule_in(v@, rs@[k as int]));
        let list = crate::text::slice_vec(v.as_slice(), r.selectors.start, r.selectors.end);
        let spans = selectors(list.as_slice());
        if has_line(list.as_slice(), &spans) {
            let tl = crate::text::back_ws(list.as_slice(), 0, list.len());
            proof {
                assert(list@.subrange(0, list@.len() as int) =~= list@);
                crate::text::lemma_trim_end_prefix(list@);
                assert(v@.subrange(at as int, r.selectors.start + tl) =~= v@.subrange(
                    at as int,
                    r.selectors.start as int,
                ) + list@.subrange(0, tl as int));
            }
            push_chars(&mut out, v.as_slice(), at, r.selectors.start + tl);
            write_twins(&mut out, list.as_slice(), &spans);
            push_chars(&mut out, list.as_slice(), tl, list.len());
            push_char(&mut out, '{');
            write_decls(&mut out, v.as_slice(), r.declarations.start, r.declarations.end);
            if stroke.is_none() {
                stroke = declared_in(v.as_slice(), r.declarations.start, r.declarations.end, &stroke_word);
            }
            at = r.declarations.end;
            changed = true;
            last = k;
            proof {
                reveal_strlit("{");
            }
        }
        proof {
            if k + 1 < rs@.len() {
                assert(rs@[k as int].declarations.end < rs@[k + 1].selectors.start);
            }
        }
        k += 1;
    }
    if !changed {
        return None;
    }
    assert(rule_in(v@, rs@[last as int]));
    push_chars(&mut out, v.as_slice(), at, at + 1);
    let marker: [char; 11] = ['m', 'a', 'r', 'k', 'e', 'r', ' ', 'p', 'a', 't', 'h'];
    proof {
        reveal_strlit("marker path");
    }
    assert(marker@ =~= "marker path"@);
    if !any_selects(v.as_slice(), &rs, &marker) {
        let r = rs[last];
        let list = crate::text::slice_vec(v.as_slice(), r.selectors.start, r.selectors.end);
        let lead = skip_ws(list.as_slice(), 0, list.len());
        assert(list@.subrange(0, list@.len() as int) =~= list@);
        push_chars(&mut out, list.as_slice(), 0, lead);
        let rule = match stroke {
            Some(sp) => marker_rule(crate::text::slice_vec(v.as_slice(), sp.start, sp.end).as_slice()),
            None => {
                let cc = crate::text::to_chars("currentColor");
                marker_rule(cc.as_slice())
            },
        };
        push_str(&mut out, rule.as_str());
    }
    push_chars(&mut out, v.as_slice(), at + 1, n);
    Some(out)
}


/// One past the last top-level `}` from index `i`, at-rule blocks
/// included: `depth` is the nesting before `i` (never below zero), `end`
/// the answer so far. Comments are skipped.
pub open spec fn block_end_from(css: Seq<char>, i: int, depth: int, end: Option<int>) -> Option<int>
    decreases css.len() - i,
{
    if i < 0 || i >= css.len() {
        end
    } else if css[i] == '/' && i + 1 < css.len() && css[i + 1] == '*' {
        let next = comment_end(css, i);
        if next <= i || next > css.len() {
            end
        } else {
            block_end_from(css, next, depth, end)
        }
    } else if css[i] == '{' {
        block_end_from(css, i + 1, depth + 1, end)
    } else if css[i] == '}' {
        let d = if depth > 0 {
            depth - 1
        } else {
            0
        };
        block_end_from(css, i + 1, d, if d == 0 { Some(i + 1) } else { end })
    } else {
        block_end_from(css, i + 1, depth, end)
    }
}

/// One past the last top-level `}` in `css`; `None` when there is no
/// block at all.
pub open spec fn last_end(css: Seq<char>) -> Option<int> {
    block_end_from(css, 0, 0, None)
}

/// One past the last top-level `}` in `css`, at-rule blocks included;
/// `None` when there is no block at all.
pub fn last_block_end(css: &[char]) -> (r: Option<usize>)
    ensures
        (match r {
            Some(e) => Some(e as int),
            None => None,
        }) == last_end(css@),
        r matches Some(e) ==> 0 < e <= css@.len(),
{
    let n = css.len();
    let mut depth: usize = 0;
    let mut end: Option<usize> = None;
    let mut i: usize = 0;
    let star_slash = ['*', '/'];
    assert(star_slash@ =~= "*/"@) by {
        reveal_strlit("*/");
    }
    while i < n
        invariant
            n == css@.len(),
            i <= n,
            depth <= i,
            star_slash@ == "*/"@,
            end matches Some(e) ==> 0 < e <= i,
            block_end_from(css@, i as int, depth as int, match end {
                Some(e) => Some(e as int),
                None => None,
            }) == last_end(css@),
        decreases n - i,
    {
        if css[i] == '/' && i + 1 < n && css[i + 1] == '*' {
            proof {
                lemma_find_from(css@, "*/"@, i + 2);
            }
            i = match find(css, &star_slash, i + 2) {
                Some(p) => p + 2,
                None => n,
            };
        } else {
            if css[i] == '{' {
                depth += 1;
            } else if css[i] == '}' {
                if depth > 0 {
                    depth -= 1;
                }
                if depth == 0 {
                    end = Some(i + 1);
                }
            }
            i += 1;
        }
    }
    end
}

/// The index just past the last newline in `css[..end]`; 0 when there is
/// none.
pub open spec fn line_start(css: Seq<char>, end: int) -> int
    decreases end,
{
    if end <= 0 {
        0
    } else if css[end - 1] == '\n' {
        end
    } else {
        line_start(css, end - 1)
    }
}

/// `r` with each newline followed by `indent`.
pub open spec fn indented(r: Seq<char>, indent: Seq<char>) -> Seq<char>
    decreases r.len(),
{
    if r.len() == 0 {
        Seq::empty()
    } else {
        indented(r.drop_last(), indent) + if r.last() == '\n' {
            seq!['\n'] + indent
        } else {
            seq![r.last()]
        }
    }
}

/// Each rule on a line of its own, at `indent`, its own lines indented
/// with it.
pub open spec fn appended(rules: Seq<Seq<char>>, indent: Seq<char>) -> Seq<char>
    decreases rules.len(),
{
    if rules.len() == 0 {
        Seq::empty()
    } else {
        appended(rules.drop_last(), indent) + seq!['\n'] + indent + indented(rules.last(), indent)
    }
}

/// The views of a list of strings.
pub open spec fn strings_view(v: Seq<String>) -> Seq<Seq<char>> {
    v.map_values(|s: String| s@)
}

/// `css` with `rules` appended after its last block, in the indentation of
/// the line that block ends on, unless a rule's selector list already
/// mentions `word`. A stylesheet with no block at all takes them on lines
/// of their own.
pub open spec fn with_rules_text(css: Seq<char>, word: Seq<char>, rules: Seq<Seq<char>>) -> Option<
    Seq<char>,
> {
    let rs = css_rules(css);
    if exists|k: int| 0 <= k < rs.len() && contains(rule_list(css, #[trigger] rs[k]), word) {
        None
    } else {
        match last_end(css) {
            Some(end) => {
                let text = css.subrange(line_start(css, end), end);
                let indent = text.subrange(0, text.len() - trim_start(text).len());
                Some(css.subrange(0, end) + appended(rules, indent) + css.subrange(
                    end,
                    css.len() as int,
                ))
            },
            None => Some(trim_end(css) + appended(rules, Seq::empty()) + seq!['\n']),
        }
    }
}

/// Append `r`, each newline followed by `indent`.
fn push_indented(out: &mut String, r: &str, indent: &[char])
    ensures
        final(out)@ == old(out)@ + indented(r@, indent@),
{
    let v = to_chars(r);
    let ghost start = out@;
    let mut j: usize = 0;
    assert(v@.take(0) =~= Seq::<char>::empty());
    while j < v.len()
        invariant
            v@ == r@,
            j <= v@.len(),
            out@ == start + indented(v@.take(j as int), indent@),
        decreases v@.len() - j,
    {
        assert(v@.take(j + 1).drop_last() =~= v@.take(j as int));
        assert(v@.take(j + 1).last() == v@[j as int]);
        let ghost before = out@;
        if v[j] == '\n' {
            push_char(out, '\n');
            push_chars(out, indent, 0, indent.len());
            assert(indent@.subrange(0, indent@.len() as int) =~= indent@);
            assert(out@ =~= before + (seq!['\n'] + indent@));
        } else {
            push_char(out, v[j]);
            assert(out@ =~= before + seq![v@[j as int]]);
        }
        j += 1;
    }
    assert(v@.take(v@.len() as int) =~= v@);
}

/// Whether some rule's selector list mentions `word`.
fn any_mentions(css: &[char], rs: &Vec<CssRule>, word: &[char]) -> (r: bool)
    requires
        rules_in(css@, rs@, 0),
    ensures
        r == exists|k: int| 0 <= k < rs@.len() && contains(rule_list(css@, #[trigger] rs@[k]), word@),
{
    let mut k: usize = 0;
    while k < rs.len()
        invariant
            rules_in(css@, rs@, 0),
            k <= rs@.len(),
            forall|i: int| 0 <= i < k ==> !contains(rule_list(css@, #[trigger] rs@[i]), word@),
        decreases rs@.len() - k,
    {
        let r = rs[k];
        assert(rule_in(css@, rs@[k as int]));
        let list = crate::text::slice_vec(css, r.selectors.start, r.selectors.end);
        proof {
            lemma_find_from(list@, word@, 0);
            lemma_find_from_complete(list@, word@, 0);
        }
        if find(list.as_slice(), word, 0).is_some() {
            return true;
        }
        k += 1;
    }
    false
}

/// A search from `from` misses nothing at or after it.
pub proof fn lemma_find_from_complete(s: Seq<char>, p: Seq<char>, from: int)
    requires
        from >= 0,
    ensures
        find_from(s, p, from) is None ==> forall|i: int| i >= from ==> !occurs_at(s, p, i),
        find_from(s, p, from) matches Some(k) ==> forall|i: int| from <= i < k ==> !occurs_at(s, p, i),
    decreases s.len() + 1 - from,
{
    if !(from + p.len() > s.len()) && !occurs_at(s, p, from) {
        lemma_find_from_complete(s, p, from + 1);
    }
}

/// `css` with `rules` appended after its last rule, in that rule's
/// indentation (a rule of several lines has each indented), unless a
/// selector already mentions `word` — in which case its author has said
/// what the word means, and `None`. A stylesheet with no rules at all
/// takes them on lines of their own.
pub fn with_rules(css: &str, word: &str, rules: &Vec<String>) -> (r: Option<String>)
    ensures
        crate::shape::opt_view(r) == with_rules_text(css@, word@, strings_view(rules@)),
{
    let v = to_chars(css);
    let w = to_chars(word);
    let n = v.len();
    let found = self::rules(v.as_slice());
    if any_mentions(v.as_slice(), &found, w.as_slice()) {
        return None;
    }
    let mut out = String::new();
    let (indent, tail) = match last_block_end(v.as_slice()) {
        Some(end) => {
            let line = line_start_of(v.as_slice(), end);
            let k = skip_ws(v.as_slice(), line, end);
            let ghost text = v@.subrange(line as int, end as int);
            assert(text.subrange(0, k - line) =~= v@.subrange(line as int, k as int));
            push_chars(&mut out, v.as_slice(), 0, end);
            (crate::text::slice_vec(v.as_slice(), line, k), crate::text::slice_vec(v.as_slice(), end, n))
        },
        None => {
            let b = crate::text::back_ws(v.as_slice(), 0, n);
            assert(v@.subrange(0, n as int) =~= v@);
            push_chars(&mut out, v.as_slice(), 0, b);
            (Vec::new(), vec!['\n'])
        },
    };
    let ghost head = out@;
    let mut j: usize = 0;
    assert(rules@.take(0) =~= Seq::<String>::empty());
    assert(strings_view(rules@.take(0)) =~= Seq::<Seq<char>>::empty());
    while j < rules.len()
        invariant
            j <= rules@.len(),
            out@ == head + appended(strings_view(rules@.take(j as int)), indent@),
        decreases rules@.len() - j,
    {
        assert(strings_view(rules@.take(j + 1)).drop_last() =~= strings_view(rules@.take(j as int)));
        assert(strings_view(rules@.take(j + 1)).last() == rules@[j as int]@);
        let ghost before = out@;
        push_char(&mut out, '\n');
        push_chars(&mut out, indent.as_slice(), 0, indent.len());
        assert(indent@.subrange(0, indent@.len() as int) =~= indent@);
        push_indented(&mut out, rules[j].as_str(), indent.as_slice());
        assert(out@ =~= before + seq!['\n'] + indent@ + indented(rules@[j as int]@, indent@));
        j += 1;
    }
    assert(rules@.take(rules@.len() as int) =~= rules@);
    push_chars(&mut out, tail.as_slice(), 0, tail.len());
    assert(tail@.subrange(0, tail@.len() as int) =~= tail@);
    Some(out)
}

/// The index just past the last newline in `css[..end]`; 0 when there is
/// none.
fn line_start_of(css: &[char], end: usize) -> (r: usize)
    requires
        end <= css@.len(),
    ensures
        r as int == line_start(css@, end as int),
        r <= end,
{
    let mut e = end;
    while e > 0
        invariant
            e <= end <= css@.len(),
            line_start(css@, e as int) == line_start(css@, end as int),
        decreases e,
    {
        if css[e - 1] == '\n' {
            return e;
        }
        e -= 1;
    }
    0
}


/// `s` with its whitespace taken out.
pub open spec fn without_ws(s: Seq<char>) -> Seq<char>
    decreases s.len(),
{
    if s.len() == 0 {
        Seq::empty()
    } else {
        without_ws(s.drop_last()) + if is_ws(s.last()) {
            Seq::empty()
        } else {
            seq![s.last()]
        }
    }
}

/// The bodies of the `@media (prefers-color-scheme: dark)` blocks from
/// index `at` on, each trimmed and on a line of its own; the search stops
/// at a block that never opens or never closes.
pub open spec fn dark_from(css: Seq<char>, at: int) -> Seq<char>
    decreases css.len() + 1 - at,
{
    if at < 0 || at > css.len() {
        Seq::empty()
    } else {
        match find_from(css, "@media"@, at) {
            None => Seq::empty(),
            Some(start) => match find_char(css, '{', start) {
                None => Seq::empty(),
                Some(brace) => {
                    let close = close_from(css, brace, 0);
                    if close >= css.len() || close < at || brace < start + 6 {
                        Seq::empty()
                    } else {
                        (if without_ws(css.subrange(start + 6, brace))
                            == "(prefers-color-scheme:dark)"@ {
                            trim(css.subrange(brace + 1, close)) + seq!['\n']
                        } else {
                            Seq::empty()
                        }) + dark_from(css, close + 1)
                    }
                },
            },
        }
    }
}

/// `css[a..b]` with its whitespace taken out.
fn strip_ws(css: &[char], a: usize, b: usize) -> (r: Vec<char>)
    requires
        a <= b <= css@.len(),
    ensures
        r@ == without_ws(css@.subrange(a as int, b as int)),
{
    let mut r: Vec<char> = Vec::new();
    let mut i = a;
    while i < b
        invariant
            a <= i <= b <= css@.len(),
            r@ == without_ws(css@.subrange(a as int, i as int)),
        decreases b - i,
    {
        assert(css@.subrange(a as int, i + 1).drop_last() =~= css@.subrange(a as int, i as int));
        if !crate::text::is_whitespace(css[i]) {
            r.push(css[i]);
        }
        assert(r@ =~= without_ws(css@.subrange(a as int, i + 1)));
        i += 1;
    }
    r
}

/// The rules a drawing keeps for a darker page — the body of every
/// `@media (prefers-color-scheme: dark)` block in `css`, joined — so an
/// editor drawing the file in dark mode can apply them itself: resvg does
/// not read `@media`. Empty when the stylesheet has none.
pub fn dark_rules(css: &str) -> (r: String)
    ensures
        r@ == dark_from(css@, 0),
{
    let v = to_chars(css);
    let n = v.len();
    let media = to_chars("@media");
    let dark = to_chars("(prefers-color-scheme:dark)");
    proof {
        reveal_strlit("@media");
    }
    let mut out = String::new();
    let mut at: usize = 0;
    loop
        invariant
            n == v@.len(),
            media@ == "@media"@,
            dark@ == "(prefers-color-scheme:dark)"@,
            at <= n,
            v@ == css@,
            out@ + dark_from(v@, at as int) == dark_from(v@, 0),
        decreases n - at,
    {
        proof {
            lemma_find_from(v@, "@media"@, at as int);
        }
        let start = match find(v.as_slice(), media.as_slice(), at) {
            Some(s) => s,
            None => {
                assert(dark_from(v@, at as int) == Seq::<char>::empty());
                assert(out@ + Seq::<char>::empty() =~= out@);
                return out;
            },
        };
        proof {
            lemma_find_char(v@, '{', start as int);
            reveal_strlit("@media");
        }
        let brace = match find_ch(v.as_slice(), '{', start) {
            Some(b) => b,
            None => {
                assert(out@ + Seq::<char>::empty() =~= out@);
                return out;
            },
        };
        assert(v@.subrange(start as int, start + 6) == "@media"@) by {
            reveal_strlit("@media");
        }
        assert(brace >= start + 6) by {
            if brace < start + 6 {
                assert(v@.subrange(start as int, start + 6)[brace - start] == v@[brace as int]);
            }
        }
        let close = block_close(v.as_slice(), brace);
        proof {
            lemma_close_from(v@, brace + 1, 1);
        }
        if close >= n {
            assert(out@ + Seq::<char>::empty() =~= out@);
            return out;
        }
        let pre = strip_ws(v.as_slice(), start + 6, brace);
        let ghost before = out@;
        if pre.len() == dark.len() && crate::text::matches_at(pre.as_slice(), 0, dark.as_slice()) {
            assert(pre@.subrange(0, dark@.len() as int) =~= pre@);
            let (x, y) = crate::text::trim_range(v.as_slice(), brace + 1, close);
            push_chars(&mut out, v.as_slice(), x, y);
            push_char(&mut out, '\n');
        } else {
            assert(pre@.subrange(0, pre@.len() as int) =~= pre@);
            assert(pre@ != dark@);
        }
        assert(dark_from(v@, at as int) == (out@.subrange(before.len() as int, out@.len() as int))
            + dark_from(v@, close + 1)) by {
            assert(out@ =~= before + out@.subrange(before.len() as int, out@.len() as int));
        }
        assert(before + (out@.subrange(before.len() as int, out@.len() as int) + dark_from(
            v@,
            close + 1,
        )) =~= out@ + dark_from(v@, close + 1));
        at = close + 1;
    }
}

/// The template's rules for `data-dash`.
pub open spec fn dash_rules_v() -> Seq<Seq<char>> {
    seq![
        "[data-dash=\"dashed\"] { stroke-dasharray: 8 6 }"@,
        "[data-dash=\"dotted\"] { stroke-dasharray: 1 5; stroke-linecap: round }"@,
    ]
}

/// The rules the template draws a `data-dash` by: what a drawing made
/// before the word gains when a shape first takes it.
pub fn dash_rules() -> (r: Vec<String>)
    ensures
        strings_view(r@) == dash_rules_v(),
        strings_view(r@) == seq![
            "[data-dash=\"dashed\"] { stroke-dasharray: 8 6 }"@,
            "[data-dash=\"dotted\"] { stroke-dasharray: 1 5; stroke-linecap: round }"@,
        ],
{
    let mut r: Vec<String> = Vec::new();
    r.push(crate::text::owned("[data-dash=\"dashed\"] { stroke-dasharray: 8 6 }"));
    r.push(crate::text::owned("[data-dash=\"dotted\"] { stroke-dasharray: 1 5; stroke-linecap: round }"));
    assert(strings_view(r@) =~= seq![
        "[data-dash=\"dashed\"] { stroke-dasharray: 8 6 }"@,
        "[data-dash=\"dotted\"] { stroke-dasharray: 1 5; stroke-linecap: round }"@,
    ]);
    r
}

/// A hue's colour rule: the `color` its `data-color` sets, on the shape
/// and on the arrowhead marker that hue has.
pub open spec fn color_rule(name: Seq<char>, color: Seq<char>) -> Seq<char> {
    "[data-color=\""@ + name + "\"], #arrow-"@ + name + " { color: "@ + color + " }"@
}

/// A hue's fill rule: the tint its `data-fill` is.
pub open spec fn fill_rule(name: Seq<char>, tint: Seq<char>) -> Seq<char> {
    "[data-fill=\""@ + name + "\"] { fill: "@ + tint + " }"@
}

/// Which marker a coloured arrow's end takes, at the end or the start.
pub open spec fn marker_end_rule(name: Seq<char>) -> Seq<char> {
    "[data-arrow=\"end\"][data-color=\""@ + name + "\"], [data-arrow=\"both\"][data-color=\""@
        + name + "\"] { marker-end: url(#arrow-"@ + name + ") }"@
}

pub open spec fn marker_start_rule(name: Seq<char>) -> Seq<char> {
    "[data-arrow=\"start\"][data-color=\""@ + name + "\"], [data-arrow=\"both\"][data-color=\""@
        + name + "\"] { marker-start: url(#arrow-"@ + name + ") }"@
}

/// The light-page rules of the first `k` hues, four each.
pub open spec fn light_rules(k: int) -> Seq<Seq<char>>
    decreases k,
{
    if k <= 0 {
        Seq::empty()
    } else {
        let h = hue_order()[k - 1];
        let name = hue_value(h);
        light_rules(k - 1) + seq![
            color_rule(name, hue_stroke(h, false)),
            fill_rule(name, hue_tint(h, false)),
            marker_end_rule(name),
            marker_start_rule(name),
        ]
    }
}

/// The dark-page variants of the first `k` hues, each on an indented line.
pub open spec fn dark_lines(k: int) -> Seq<char>
    decreases k,
{
    if k <= 0 {
        Seq::empty()
    } else {
        let h = hue_order()[k - 1];
        let name = hue_value(h);
        dark_lines(k - 1) + "\n  "@ + color_rule(name, hue_stroke(h, true)) + "\n  "@ + fill_rule(
            name,
            hue_tint(h, true),
        )
    }
}

/// The rules the template draws a `data-color` and a `data-fill` by, one
/// block per hue and then the darker page's variants in one `@media`
/// block.
pub open spec fn palette_rules() -> Seq<Seq<char>> {
    light_rules(8).push("@media (prefers-color-scheme: dark) {"@ + dark_lines(8) + "\n}"@)
}

fn push_color_rule(out: &mut String, name: &str, color: &str)
    ensures
        final(out)@ == old(out)@ + color_rule(name@, color@),
{
    push_str(out, "[data-color=\"");
    push_str(out, name);
    push_str(out, "\"], #arrow-");
    push_str(out, name);
    push_str(out, " { color: ");
    push_str(out, color);
    push_str(out, " }");
}

fn push_fill_rule(out: &mut String, name: &str, tint: &str)
    ensures
        final(out)@ == old(out)@ + fill_rule(name@, tint@),
{
    push_str(out, "[data-fill=\"");
    push_str(out, name);
    push_str(out, "\"] { fill: ");
    push_str(out, tint);
    push_str(out, " }");
}

fn push_marker_rule(out: &mut String, name: &str, start: bool)
    ensures
        final(out)@ == old(out)@ + if start {
            marker_start_rule(name@)
        } else {
            marker_end_rule(name@)
        },
{
    if start {
        push_str(out, "[data-arrow=\"start\"][data-color=\"");
    } else {
        push_str(out, "[data-arrow=\"end\"][data-color=\"");
    }
    push_str(out, name);
    push_str(out, "\"], [data-arrow=\"both\"][data-color=\"");
    push_str(out, name);
    if start {
        push_str(out, "\"] { marker-start: url(#arrow-");
    } else {
        push_str(out, "\"] { marker-end: url(#arrow-");
    }
    push_str(out, name);
    push_str(out, ") }");
}

/// The rules the template draws a `data-color` and a `data-fill` by, one
/// block per hue — the `color` the word sets, on the shape and on the
/// arrowhead marker that hue has; the tint a fill is; and which marker a
/// coloured arrow's ends take — and then the darker page's variants, in
/// one `@media` block. What a drawing made before the palette gains when
/// a shape first takes a hue.
pub fn color_rules() -> (r: Vec<String>)
    ensures
        strings_view(r@) == palette_rules(),
{
    let hues = Hue::all();
    let mut out: Vec<String> = Vec::new();
    let mut k: usize = 0;
    while k < 8
        invariant
            k <= 8,
            hues@ == hue_order(),
            strings_view(out@) == light_rules(k as int),
        decreases 8 - k,
    {
        let h = hues[k];
        let name = h.value();
        let mut a = String::new();
        push_color_rule(&mut a, name, h.stroke(false));
        let mut b = String::new();
        push_fill_rule(&mut b, name, h.tint(false));
        let mut c = String::new();
        push_marker_rule(&mut c, name, false);
        let mut d = String::new();
        push_marker_rule(&mut d, name, true);
        let ghost before = out@;
        out.push(a);
        out.push(b);
        out.push(c);
        out.push(d);
        assert(strings_view(out@) =~= strings_view(before) + seq![
            color_rule(hue_value(h), hue_stroke(h, false)),
            fill_rule(hue_value(h), hue_tint(h, false)),
            marker_end_rule(hue_value(h)),
            marker_start_rule(hue_value(h)),
        ]);
        k += 1;
    }
    let mut dark = String::new();
    push_str(&mut dark, "@media (prefers-color-scheme: dark) {");
    let ghost head = dark@;
    let mut k: usize = 0;
    while k < 8
        invariant
            k <= 8,
            hues@ == hue_order(),
            dark@ == head + dark_lines(k as int),
        decreases 8 - k,
    {
        let h = hues[k];
        let name = h.value();
        push_str(&mut dark, "\n  ");
        push_color_rule(&mut dark, name, h.stroke(true));
        push_str(&mut dark, "\n  ");
        push_fill_rule(&mut dark, name, h.tint(true));
        k += 1;
    }
    push_str(&mut dark, "\n}");
    let ghost before = out@;
    out.push(dark);
    assert(strings_view(out@) =~= strings_view(before).push(dark@));
    out
}

/// The `<marker>` an arrow of `hue` takes its head from: the template's
/// `#arrow` under another id, coloured by the rule that names it. The
/// inner line is indented one step past `indent`.
pub fn marker_markup(hue: Hue, indent: &str) -> (r: String)
    ensures
        r@ == "<marker id=\"arrow-"@ + hue_value(hue)
            + "\" viewBox=\"0 0 10 10\" refX=\"9\" refY=\"5\" markerWidth=\"8\" markerHeight=\"8\" orient=\"auto-start-reverse\">\n"@
            + indent@ + "  <path d=\"M 0 0 L 10 5 L 0 10 z\"/>\n"@ + indent@ + "</marker>"@,
{
    let mut r = String::new();
    push_str(&mut r, "<marker id=\"arrow-");
    push_str(&mut r, hue.value());
    push_str(
        &mut r,
        "\" viewBox=\"0 0 10 10\" refX=\"9\" refY=\"5\" markerWidth=\"8\" markerHeight=\"8\" orient=\"auto-start-reverse\">\n",
    );
    push_str(&mut r, indent);
    push_str(&mut r, "  <path d=\"M 0 0 L 10 5 L 0 10 z\"/>\n");
    push_str(&mut r, indent);
    push_str(&mut r, "</marker>");
    r
}

} // verus!
