//! A label's text laid into lines. A `\n` breaks a paragraph; with a
//! `data-width`, each paragraph's words are flowed greedily into that
//! width, the longest word a line of its own when nothing shorter fits.
//! Whether a line fits is the host's to say — it is text layout, in
//! floats — so the flow is a machine here: it offers each candidate line,
//! is told whether it fits, and decides what to keep. The lines come out
//! as one `<tspan>` each, at the anchor's `x`, each after the first a line
//! down, one that starts a paragraph marked `data-break="hard"` so that it
//! reads back as a break.

use vstd::prelude::*;

use crate::markup::{escape, escaped};
use crate::text::{is_whitespace, is_ws, push_char, push_str};
use crate::tree::{lines_of, words_of};

verus! {

/// The lines as word lists, those without a word dropped.
pub open spec fn worded(lines: Seq<Seq<char>>) -> Seq<Seq<Seq<char>>>
    decreases lines.len(),
{
    if lines.len() == 0 {
        Seq::empty()
    } else {
        let rest = worded(lines.drop_last());
        let w = words_of(lines.last());
        if w.len() > 0 {
            rest.push(w)
        } else {
            rest
        }
    }
}

/// A label's text as paragraphs of words: each line split at whitespace,
/// lines with no word dropped.
pub open spec fn paragraphs_of(text: Seq<char>) -> Seq<Seq<Seq<char>>> {
    worded(lines_of(text))
}

/// Strings by their views.
pub open spec fn strings(v: Seq<String>) -> Seq<Seq<char>> {
    v.map_values(|s: String| s@)
}

/// Lists of strings by their views.
pub open spec fn string_lists(v: Seq<Vec<String>>) -> Seq<Seq<Seq<char>>> {
    v.map_values(|w: Vec<String>| strings(w@))
}

/// The words of `line[from..to]`.
fn words(line: &[char], from: usize, to: usize) -> (r: Vec<String>)
    requires
        from <= to <= line@.len(),
    ensures
        strings(r@) == words_of(line@.subrange(from as int, to as int)),
{
    let mut done: Vec<String> = Vec::new();
    let mut cur = String::new();
    let mut i = from;
    assert(line@.subrange(from as int, from as int) =~= Seq::<char>::empty());
    while i < to
        invariant
            from <= i <= to <= line@.len(),
            words_of(line@.subrange(from as int, i as int)) == strings(done@) + if cur@.len() > 0 {
                seq![cur@]
            } else {
                Seq::<Seq<char>>::empty()
            },
            cur@.len() > 0 ==> i > from && !is_ws(line@[i - 1]),
            cur@.len() == 0 && i > from ==> is_ws(line@[i - 1]),
        decreases to - i,
    {
        let c = line[i];
        let ghost seg = line@.subrange(from as int, i + 1);
        let ghost rest = words_of(line@.subrange(from as int, i as int));
        assert(seg.drop_last() =~= line@.subrange(from as int, i as int));
        assert(seg.last() == c);
        if i > from {
            assert(seg[seg.len() - 2] == line@[i - 1]);
        }
        if is_whitespace(c) {
            if !cur.as_str().is_empty() {
                let ghost before = done@;
                let mut fresh = String::new();
                core::mem::swap(&mut cur, &mut fresh);
                done.push(fresh);
                assert(strings(done@) =~= strings(before).push(done@.last()@));
            } else {
                assert(strings(done@) + Seq::<Seq<char>>::empty() =~= strings(done@));
            }
        } else {
            let ghost old_cur = cur@;
            push_char(&mut cur, c);
            proof {
                if old_cur.len() > 0 {
                    assert(rest == strings(done@).push(old_cur));
                    assert(rest.update(rest.len() - 1, rest.last().push(c)) =~= strings(done@)
                        + seq![cur@]);
                } else {
                    assert(rest =~= strings(done@));
                    assert(old_cur =~= Seq::<char>::empty());
                    assert(cur@ =~= seq![c]);
                    assert(rest.push(seq![c]) =~= strings(done@) + seq![cur@]);
                }
            }
        }
        i += 1;
    }
    if !cur.as_str().is_empty() {
        let ghost before = done@;
        done.push(cur);
        assert(strings(done@) =~= strings(before).push(done@.last()@));
    } else {
        assert(strings(done@) + Seq::<Seq<char>>::empty() =~= strings(done@));
    }
    done
}

/// A label's text as paragraphs of words: each line split at whitespace,
/// lines with no word dropped.
pub fn paragraphs(text: &str) -> (r: Vec<Vec<String>>)
    ensures
        string_lists(r@) == paragraphs_of(text@),
{
    let raw = crate::text::to_chars(text);
    let n = raw.len();
    let mut out: Vec<Vec<String>> = Vec::new();
    let mut a: usize = 0;
    let ghost mut done: Seq<Seq<char>> = Seq::empty();
    assert(raw@.take(0) =~= Seq::<char>::empty());
    loop
        invariant
            a <= n,
            n == raw@.len(),
            raw@ == text@,
            lines_of(raw@.take(a as int)) == done.push(Seq::empty()),
            string_lists(out@) == worded(done),
        decreases n - a,
    {
        proof {
            crate::text::lemma_find_char(raw@, '\n', a as int);
        }
        let (e, more) = match crate::text::find_ch(raw.as_slice(), '\n', a) {
            Some(e) => (e, true),
            None => (n, false),
        };
        let w = words(raw.as_slice(), a, e);
        let ghost seg = raw@.subrange(a as int, e as int);
        proof {
            assert(raw@.take(e as int) =~= raw@.take(a as int) + seg);
            assert forall|k: int| 0 <= k < seg.len() implies seg[k] != '\n' by {
                assert(seg[k] == raw@[a + k]);
            }
            crate::tree::lemma_lines_extend(raw@.take(a as int), seg);
            assert(done.push(Seq::empty()).update(done.len() as int, Seq::<char>::empty() + seg)
                =~= done.push(seg));
            assert(done.push(seg).drop_last() =~= done);
        }
        let ghost before = out@;
        if w.len() > 0 {
            out.push(w);
            assert(string_lists(out@) =~= string_lists(before).push(strings(out@.last()@)));
        }
        proof {
            done = done.push(seg);
        }
        if !more {
            assert(raw@.take(n as int) =~= raw@);
            return out;
        }
        proof {
            assert(raw@.take(e + 1) =~= raw@.take(e as int).push('\n'));
            assert(raw@.take(e + 1).drop_last() =~= raw@.take(e as int));
        }
        a = e + 1;
    }
}

/// Lines laid so far, by their views: each line's text and whether it
/// starts a paragraph.
pub open spec fn lines_view(v: Seq<(String, bool)>) -> Seq<(Seq<char>, bool)> {
    v.map_values(|l: (String, bool)| (l.0@, l.1))
}

/// A flow by its views.
pub struct FlowView {
    /// The lines laid, and whether each starts a paragraph.
    pub lines: Seq<(Seq<char>, bool)>,
    /// The line being filled.
    pub line: Seq<char>,
    /// Where the paragraph being laid began among the lines.
    pub first: nat,
}

/// The lines of a label's text, laid one word at a time.
pub struct Flow {
    lines: Vec<(String, bool)>,
    line: String,
    first: usize,
}

impl View for Flow {
    type V = FlowView;

    closed spec fn view(&self) -> FlowView {
        FlowView { lines: lines_view(self.lines@), line: self.line@, first: self.first as nat }
    }
}

/// The line the flow offers for `word`: the word alone on an empty line,
/// else the line, a space and the word.
pub open spec fn candidate_of(f: FlowView, word: Seq<char>) -> Seq<char> {
    if f.line.len() == 0 {
        word
    } else {
        f.line + " "@ + word
    }
}

/// The flow after `word`, told whether its candidate fits: the candidate
/// kept when it fits or the line was empty; otherwise the line laid and
/// the word beginning the next.
pub open spec fn took(f: FlowView, word: Seq<char>, fits: bool) -> FlowView {
    if f.line.len() == 0 || fits {
        FlowView { line: candidate_of(f, word), ..f }
    } else {
        FlowView { lines: f.lines.push((f.line, false)), line: word, ..f }
    }
}

/// The flow at a paragraph's end: its last line laid, and the first line
/// of the paragraph, if it has one, marked as starting it.
pub open spec fn ended(f: FlowView) -> FlowView {
    let laid = if f.line.len() > 0 {
        f.lines.push((f.line, false))
    } else {
        f.lines
    };
    FlowView {
        lines: if f.first < laid.len() {
            laid.update(f.first as int, (laid[f.first as int].0, true))
        } else {
            laid
        },
        line: Seq::empty(),
        first: f.first,
    }
}

/// The text of laid lines, each followed by a space.
pub open spec fn laid_text(lines: Seq<(Seq<char>, bool)>) -> Seq<char>
    decreases lines.len(),
{
    if lines.len() == 0 {
        Seq::empty()
    } else {
        laid_text(lines.drop_last()) + lines.last().0 + " "@
    }
}

/// All the text a flow holds, in order: the laid lines, then the line being
/// filled.
pub open spec fn flow_text(f: FlowView) -> Seq<char> {
    laid_text(f.lines) + f.line
}

/// Taking a word loses nothing and reorders nothing: the flow's text grows
/// by the word — after a space, unless the line was empty — whether or not
/// its candidate fits, which only decides where the line breaks. Ending a
/// paragraph keeps the text too, the last line's space aside.
pub proof fn lemma_flow_keeps_text(f: FlowView, word: Seq<char>, fits: bool)
    ensures
        flow_text(took(f, word, fits)) == flow_text(f) + (if f.line.len() == 0 {
            word
        } else {
            " "@ + word
        }),
        flow_text(ended(f)) == flow_text(f) + (if f.line.len() > 0 {
            " "@
        } else {
            Seq::empty()
        }),
{
    let g = took(f, word, fits);
    if f.line.len() == 0 || fits {
        assert(flow_text(g) =~= flow_text(f) + (if f.line.len() == 0 {
            word
        } else {
            " "@ + word
        }));
    } else {
        assert(f.lines.push((f.line, false)).drop_last() =~= f.lines);
        assert(flow_text(g) =~= flow_text(f) + (" "@ + word));
    }
    let laid = if f.line.len() > 0 {
        f.lines.push((f.line, false))
    } else {
        f.lines
    };
    if f.line.len() > 0 {
        assert(f.lines.push((f.line, false)).drop_last() =~= f.lines);
    }
    assert(laid_text(laid) =~= flow_text(f) + (if f.line.len() > 0 {
        " "@
    } else {
        Seq::empty()
    }));
    lemma_marks_keep_text(laid, f.first as int);
    assert(flow_text(ended(f)) =~= laid_text(ended(f).lines));
}

/// Marking a line as starting a paragraph leaves the text as it is.
proof fn lemma_marks_keep_text(lines: Seq<(Seq<char>, bool)>, k: int)
    ensures
        0 <= k < lines.len() ==> laid_text(lines.update(k, (lines[k].0, true))) == laid_text(lines),
    decreases lines.len(),
{
    if 0 <= k < lines.len() {
        let m = lines.update(k, (lines[k].0, true));
        if k < lines.len() - 1 {
            lemma_marks_keep_text(lines.drop_last(), k);
            assert(m.drop_last() =~= lines.drop_last().update(k, (lines[k].0, true)));
        } else {
            assert(m.drop_last() =~= lines.drop_last());
        }
    }
}

/// The `<tspan>` of line `i`: at `x`, a line down after the first, marked
/// as a break when it starts a paragraph after the first.
pub open spec fn tspan_of(i: int, l: (Seq<char>, bool), x: Seq<char>, dy: Seq<char>) -> Seq<char> {
    "<tspan x=\""@ + x + "\""@ + (if i == 0 {
        Seq::empty()
    } else {
        " dy=\""@ + dy + "em\""@
    }) + (if l.1 && i > 0 {
        " data-break=\"hard\""@
    } else {
        Seq::empty()
    }) + ">"@ + escaped(l.0) + "</tspan>"@
}

/// The `<tspan>`s of the first `n` lines.
pub open spec fn tspans_of(lines: Seq<(Seq<char>, bool)>, x: Seq<char>, dy: Seq<char>, n: nat) -> Seq<char>
    decreases n,
{
    if n == 0 || n > lines.len() {
        Seq::empty()
    } else {
        tspans_of(lines, x, dy, (n - 1) as nat) + tspan_of(n - 1, lines[n - 1], x, dy)
    }
}

/// Each line after the first is moved a line down, and marked as a break
/// exactly when it starts a paragraph: the markup of line `i` — what the
/// `<tspan>`s of `i + 1` lines add to those of `i` — opens, for every
/// `i > 0`, with `<tspan x="x" dy="dyem"`, then ` data-break="hard">` when
/// the line starts a paragraph and `>` when it does not; line 0 opens with
/// `<tspan x="x">`, with neither.
pub proof fn lemma_lines_move_down(lines: Seq<(Seq<char>, bool)>, x: Seq<char>, dy: Seq<char>, i: nat)
    requires
        i < lines.len(),
    ensures
        i > 0 && lines[i as int].1 ==> exists|rest: Seq<char>|
            tspans_of(lines, x, dy, i + 1) == tspans_of(lines, x, dy, i) + #[trigger] ("<tspan x=\""@
                + x + "\" dy=\""@ + dy + "em\" data-break=\"hard\">"@ + rest),
        i > 0 && !lines[i as int].1 ==> exists|rest: Seq<char>|
            tspans_of(lines, x, dy, i + 1) == tspans_of(lines, x, dy, i) + #[trigger] ("<tspan x=\""@
                + x + "\" dy=\""@ + dy + "em\">"@ + rest),
        i == 0 ==> exists|rest: Seq<char>|
            tspans_of(lines, x, dy, i + 1) == #[trigger] ("<tspan x=\""@ + x + "\">"@ + rest),
{
    reveal_strlit("\"");
    reveal_strlit(" dy=\"");
    reveal_strlit("\" dy=\"");
    reveal_strlit("em\"");
    reveal_strlit("em\">");
    reveal_strlit("em\" data-break=\"hard\">");
    reveal_strlit(" data-break=\"hard\"");
    reveal_strlit("\">");
    reveal_strlit(">");
    let l = lines[i as int];
    let rest = escaped(l.0) + "</tspan>"@;
    assert(tspans_of(lines, x, dy, i + 1) == tspans_of(lines, x, dy, i) + tspan_of(i as int, l, x, dy));
    if i > 0 && l.1 {
        let open = "<tspan x=\""@ + x + "\" dy=\""@ + dy + "em\" data-break=\"hard\">"@;
        assert(tspan_of(i as int, l, x, dy) =~= open + rest);
        assert(tspans_of(lines, x, dy, i + 1) == tspans_of(lines, x, dy, i) + (open + rest));
    } else if i > 0 {
        let open = "<tspan x=\""@ + x + "\" dy=\""@ + dy + "em\">"@;
        assert(tspan_of(i as int, l, x, dy) =~= open + rest);
        assert(tspans_of(lines, x, dy, i + 1) == tspans_of(lines, x, dy, i) + (open + rest));
    } else {
        assert(tspans_of(lines, x, dy, i) =~= Seq::<char>::empty());
        assert(tspan_of(i as int, l, x, dy) =~= "<tspan x=\""@ + x + "\">"@ + rest);
        assert(tspans_of(lines, x, dy, i + 1) == "<tspan x=\""@ + x + "\">"@ + rest);
    }
}

impl Flow {
    /// A flow with nothing laid.
    pub fn new() -> (r: Flow)
        ensures
            r@ == (FlowView { lines: Seq::empty(), line: Seq::empty(), first: 0 }),
    {
        let f = Flow { lines: Vec::new(), line: String::new(), first: 0 };
        assert(lines_view(f.lines@) =~= Seq::<(Seq<char>, bool)>::empty());
        f
    }

    /// Begin a paragraph: it starts at the next line laid.
    pub fn begin(&mut self)
        ensures
            final(self)@ == (FlowView { first: old(self)@.lines.len(), ..old(self)@ }),
    {
        self.first = self.lines.len();
    }

    /// The line the flow offers for `word`, for the host to measure.
    pub fn candidate(&self, word: &str) -> (r: String)
        ensures
            r@ == candidate_of(self@, word@),
    {
        if self.line.as_str().is_empty() {
            crate::text::owned(word)
        } else {
            let mut c = crate::text::owned(self.line.as_str());
            push_str(&mut c, " ");
            push_str(&mut c, word);
            c
        }
    }

    /// Take `word`, told whether its candidate line fits.
    pub fn take(&mut self, word: &str, fits: bool)
        ensures
            final(self)@ == took(old(self)@, word@, fits),
    {
        if self.line.as_str().is_empty() || fits {
            self.line = self.candidate(word);
        } else {
            let ghost before = self.lines@;
            let mut laid = crate::text::owned(word);
            core::mem::swap(&mut self.line, &mut laid);
            self.lines.push((laid, false));
            assert(lines_view(self.lines@) =~= lines_view(before).push((laid@, false)));
        }
    }

    /// End the paragraph: lay its last line, and mark its first as
    /// starting it.
    pub fn end(&mut self)
        ensures
            final(self)@ == ended(old(self)@),
    {
        let ghost start = self@;
        if !self.line.as_str().is_empty() {
            let ghost before = self.lines@;
            let mut laid = String::new();
            core::mem::swap(&mut self.line, &mut laid);
            self.lines.push((laid, false));
            assert(lines_view(self.lines@) =~= lines_view(before).push((laid@, false)));
        }
        let ghost laid = lines_view(self.lines@);
        if self.first < self.lines.len() {
            let text = self.lines[self.first].0.clone();
            let ghost before = self.lines@;
            self.lines.set(self.first, (text, true));
            assert(lines_view(self.lines@) =~= laid.update(self.first as int, (laid[self.first as int].0, true)));
        }
        self.line = String::new();
        assert(self@ == ended(start));
    }

    /// The lines as `<tspan>`s, each at `x`, each after the first `dy` ems
    /// down, each that starts a paragraph after the first marked
    /// `data-break="hard"`.
    pub fn markup(&self, x: &str, dy: &str) -> (r: String)
        ensures
            r@ == tspans_of(self@.lines, x@, dy@, self@.lines.len()),
    {
        let ghost lv = self@.lines;
        let mut out = String::new();
        let mut i: usize = 0;
        while i < self.lines.len()
            invariant
                i <= self.lines@.len(),
                lv == lines_view(self.lines@),
                out@ == tspans_of(lv, x@, dy@, i as nat),
            decreases self.lines@.len() - i,
        {
            let ghost before = out@;
            push_str(&mut out, "<tspan x=\"");
            push_str(&mut out, x);
            push_str(&mut out, "\"");
            let ghost head = out@;
            if i > 0 {
                push_str(&mut out, " dy=\"");
                push_str(&mut out, dy);
                push_str(&mut out, "em\"");
            }
            let ghost moved = out@;
            if self.lines[i].1 && i > 0 {
                push_str(&mut out, " data-break=\"hard\"");
            }
            let ghost marked = out@;
            push_str(&mut out, ">");
            let e = escape(self.lines[i].0.as_str());
            push_str(&mut out, e.as_str());
            push_str(&mut out, "</tspan>");
            proof {
                let l = lv[i as int];
                assert(l == (self.lines@[i as int].0@, self.lines@[i as int].1));
                if i == 0 {
                    assert(moved =~= head + Seq::<char>::empty());
                } else {
                    assert(moved =~= head + (" dy=\""@ + dy@ + "em\""@));
                }
                if l.1 && i > 0 {
                    assert(marked =~= moved + " data-break=\"hard\""@);
                } else {
                    assert(marked =~= moved + Seq::<char>::empty());
                }
                assert(out@ =~= before + tspan_of(i as int, l, x@, dy@));
            }
            i += 1;
        }
        out
    }
}

} // verus!
