//! twig's flat node list, as plain values, and the walks over it: a node's
//! children, the shapes in paint order, a label's characters.
//!
//! twig hands the tree over as a list whose nodes link to their parent,
//! first child and next sibling. Every walk here follows those links for
//! at most as many steps as the list has nodes, which is as far as a
//! sibling chain of distinct nodes can go.

use vstd::prelude::*;

use crate::shape::{attr_value, attrs_view, kind_of_tag, opt_view, Shape, ShapeKind};
use crate::style::Span;
use crate::text::{is_ws, push_char, push_str, str_eq};

verus! {

/// A node of the tree: its index in the flat list twig hands over.
#[derive(Clone, Copy, Debug, PartialEq, Eq, Hash, Structural)]
pub struct NodeId(pub u32);

/// What a node is, as far as the editor reads it.
#[derive(Clone, Copy, Debug, PartialEq, Eq, Structural)]
pub enum NodeKind {
    /// The document node, above the root element.
    Doc,
    /// An element.
    Container,
    /// A run of character data.
    Str,
    /// Anything else: a comment, a processing instruction, a doctype.
    Other,
}

/// One node of twig's flat tree, as plain values.
#[derive(Debug)]
pub struct Node {
    pub id: u32,
    pub parent: Option<u32>,
    pub first_child: Option<u32>,
    pub next_sibling: Option<u32>,
    /// The node's bytes in the source.
    pub span: Span,
    /// The bytes between an element's tags; `None` for a self-closed one.
    pub content_span: Option<Span>,
    pub kind: NodeKind,
    /// An element's tag.
    pub name: Option<String>,
    /// A character run's text.
    pub text: Option<String>,
    /// An element's attributes, in source order, bare ones as `None`.
    pub attrs: Vec<(String, Option<String>)>,
}

/// The index of the first node carrying `id`.
pub open spec fn find_node(nodes: Seq<Node>, id: u32) -> Option<int>
    decreases nodes.len(),
{
    if nodes.len() == 0 {
        None
    } else {
        match find_node(nodes.drop_last(), id) {
            Some(i) => Some(i),
            None => if nodes.last().id == id {
                Some(nodes.len() - 1)
            } else {
                None
            },
        }
    }
}

pub proof fn lemma_find_node(nodes: Seq<Node>, id: u32)
    ensures
        find_node(nodes, id) matches Some(i) ==> 0 <= i < nodes.len() && nodes[i].id == id,
        find_node(nodes, id) is None ==> forall|j: int| 0 <= j < nodes.len() ==> nodes[j].id != id,
    decreases nodes.len(),
{
    if nodes.len() > 0 {
        lemma_find_node(nodes.drop_last(), id);
        assert forall|j: int| 0 <= j < nodes.len() - 1 implies nodes[j] == nodes.drop_last()[j] by {}
    }
}

proof fn lemma_find_node_prefix(nodes: Seq<Node>, id: u32, i: int)
    requires
        0 <= i < nodes.len(),
        nodes[i].id == id,
        find_node(nodes.subrange(0, i), id) is None,
    ensures
        find_node(nodes, id) == Some(i),
    decreases nodes.len(),
{
    if i < nodes.len() - 1 {
        assert(nodes.drop_last().subrange(0, i) =~= nodes.subrange(0, i));
        lemma_find_node_prefix(nodes.drop_last(), id, i);
    } else {
        assert(nodes.drop_last() =~= nodes.subrange(0, i));
    }
}

/// The index of the node carrying `id`.
pub fn node_index(nodes: &Vec<Node>, id: u32) -> (r: Option<usize>)
    ensures
        (match r {
            Some(i) => Some(i as int),
            None => None,
        }) == find_node(nodes@, id),
        r matches Some(i) ==> i < nodes@.len() && nodes@[i as int].id == id,
{
    let mut i: usize = 0;
    while i < nodes.len()
        invariant
            i <= nodes@.len(),
            find_node(nodes@.subrange(0, i as int), id) is None,
        decreases nodes@.len() - i,
    {
        assert(nodes@.subrange(0, i + 1).drop_last() =~= nodes@.subrange(0, i as int));
        if nodes[i].id == id {
            proof {
                lemma_find_node_prefix(nodes@, id, i as int);
            }
            return Some(i);
        }
        i += 1;
    }
    assert(nodes@.subrange(0, nodes@.len() as int) =~= nodes@);
    None
}

/// The ids along a sibling chain from `next`, for at most `fuel` steps,
/// stopping at an id no node carries.
pub open spec fn chain(nodes: Seq<Node>, next: Option<u32>, fuel: nat) -> Seq<u32>
    decreases fuel,
{
    if fuel == 0 {
        Seq::empty()
    } else {
        match next {
            None => Seq::empty(),
            Some(id) => match find_node(nodes, id) {
                None => Seq::empty(),
                Some(i) => seq![id] + chain(nodes, nodes[i].next_sibling, (fuel - 1) as nat),
            },
        }
    }
}

/// The children of node `parent`, in source order.
pub open spec fn children(nodes: Seq<Node>, parent: u32) -> Seq<u32> {
    match find_node(nodes, parent) {
        None => Seq::empty(),
        Some(i) => chain(nodes, nodes[i].first_child, nodes.len()),
    }
}

/// Every id along a chain names a node.
pub proof fn lemma_chain_found(nodes: Seq<Node>, next: Option<u32>, fuel: nat)
    ensures
        forall|k: int|
            0 <= k < chain(nodes, next, fuel).len() ==> find_node(
                nodes,
                #[trigger] chain(nodes, next, fuel)[k],
            ) is Some,
    decreases fuel,
{
    if fuel > 0 {
        if let Some(id) = next {
            if let Some(i) = find_node(nodes, id) {
                lemma_chain_found(nodes, nodes[i].next_sibling, (fuel - 1) as nat);
                let rest = chain(nodes, nodes[i].next_sibling, (fuel - 1) as nat);
                assert forall|k: int|
                    0 <= k < chain(nodes, next, fuel).len() implies find_node(
                    nodes,
                    #[trigger] chain(nodes, next, fuel)[k],
                ) is Some by {
                    if k > 0 {
                        assert(chain(nodes, next, fuel)[k] == rest[k - 1]);
                    }
                }
            }
        }
    }
}

/// The ids along the sibling chain from `first`.
pub fn chain_from(nodes: &Vec<Node>, first: Option<u32>) -> (r: Vec<u32>)
    ensures
        r@ == chain(nodes@, first, nodes@.len() as nat),
{
    let mut out: Vec<u32> = Vec::new();
    let mut next = first;
    let mut fuel = nodes.len();
    while fuel > 0
        invariant
            fuel <= nodes@.len(),
            out@ + chain(nodes@, next, fuel as nat) == chain(nodes@, first, nodes@.len() as nat),
        decreases fuel,
    {
        let id = match next {
            Some(id) => id,
            None => {
                assert(out@ + Seq::<u32>::empty() =~= out@);
                return out;
            },
        };
        let i = match node_index(nodes, id) {
            Some(i) => i,
            None => {
                assert(out@ + Seq::<u32>::empty() =~= out@);
                return out;
            },
        };
        let ghost before = out@;
        out.push(id);
        assert(before + (seq![id] + chain(nodes@, nodes@[i as int].next_sibling, (fuel - 1) as nat))
            =~= out@ + chain(nodes@, nodes@[i as int].next_sibling, (fuel - 1) as nat));
        next = nodes[i].next_sibling;
        fuel -= 1;
    }
    assert(out@ + Seq::<u32>::empty() =~= out@);
    out
}

/// The children of node `parent`, in source order.
pub fn children_of(nodes: &Vec<Node>, parent: u32) -> (r: Vec<u32>)
    ensures
        r@ == children(nodes@, parent),
{
    match node_index(nodes, parent) {
        Some(p) => chain_from(nodes, nodes[p].first_child),
        None => Vec::new(),
    }
}

/// The node carrying `id`; a node nothing carries reads as nothing.
pub open spec fn node_at(nodes: Seq<Node>, id: u32) -> Option<Node> {
    match find_node(nodes, id) {
        Some(i) => Some(nodes[i]),
        None => None,
    }
}

/// The shape kind of an element, by its tag.
pub open spec fn shape_kind_of(n: Node) -> Option<ShapeKind> {
    if n.kind != NodeKind::Container {
        None
    } else {
        match n.name {
            Some(s) => kind_of_tag(s@),
            None => None,
        }
    }
}

/// A shape by its views.
pub struct ShapeView {
    pub node: u32,
    pub kind: ShapeKind,
    pub id: Option<Seq<char>>,
    pub group: Option<Seq<char>>,
    pub depth: nat,
    pub attrs: Seq<(Seq<char>, Option<Seq<char>>)>,
    pub text: Option<Seq<char>>,
}

impl View for Shape {
    type V = ShapeView;

    open spec fn view(&self) -> ShapeView {
        ShapeView {
            node: self.node.0,
            kind: self.kind,
            id: opt_view(self.id),
            group: opt_view(self.group),
            depth: self.depth as nat,
            attrs: attrs_view(self.attrs@),
            text: opt_view(self.text),
        }
    }
}

/// The shapes by their views.
pub open spec fn shapes_view(s: Seq<Shape>) -> Seq<ShapeView> {
    s.map_values(|x: Shape| x@)
}

// ----- a label's characters ---------------------------------------------

/// The characters under the nodes `ids`, gathered as SVG lays a label out
/// before its whitespace is collapsed: each character run's text, and each
/// element's own characters between a space — or a newline before, when
/// the element carries `data-break` — and a space after.
pub open spec fn gathered(nodes: Seq<Node>, ids: Seq<u32>, fuel: nat) -> Seq<char>
    decreases fuel, ids.len(),
{
    if ids.len() == 0 || fuel == 0 {
        Seq::empty()
    } else {
        let head = gathered(nodes, ids.drop_last(), fuel);
        match node_at(nodes, ids.last()) {
            None => head,
            Some(n) => head + if n.kind == NodeKind::Str {
                match n.text {
                    Some(t) => t@,
                    None => Seq::empty(),
                }
            } else if n.kind == NodeKind::Container {
                seq![
                    if attr_value(attrs_view(n.attrs@), "data-break"@) is Some {
                        '\n'
                    } else {
                        ' '
                    },
                ] + gathered(nodes, children(nodes, ids.last()), (fuel - 1) as nat) + seq![' ']
            } else {
                Seq::empty()
            },
        }
    }
}

/// The words of a line: its runs between whitespace.
pub open spec fn words_of(line: Seq<char>) -> Seq<Seq<char>>
    decreases line.len(),
{
    if line.len() == 0 {
        Seq::empty()
    } else {
        let rest = words_of(line.drop_last());
        if is_ws(line.last()) {
            rest
        } else if line.len() >= 2 && !is_ws(line[line.len() - 2]) && rest.len() > 0 {
            rest.update(rest.len() - 1, rest.last().push(line.last()))
        } else {
            rest.push(seq![line.last()])
        }
    }
}

/// Strings joined by `sep`.
pub open spec fn joined(parts: Seq<Seq<char>>, sep: Seq<char>) -> Seq<char>
    decreases parts.len(),
{
    if parts.len() == 0 {
        Seq::empty()
    } else if parts.len() == 1 {
        parts[0]
    } else {
        joined(parts.drop_last(), sep) + sep + parts.last()
    }
}

/// The lines of `s`, split on `\n`.
pub open spec fn lines_of(s: Seq<char>) -> Seq<Seq<char>>
    decreases s.len(),
{
    if s.len() == 0 {
        seq![Seq::empty()]
    } else {
        let rest = lines_of(s.drop_last());
        if s.last() == '\n' {
            rest.push(Seq::empty())
        } else {
            rest.update(rest.len() - 1, rest.last().push(s.last()))
        }
    }
}

/// The non-empty strings of a list, in order.
pub open spec fn non_empty(parts: Seq<Seq<char>>) -> Seq<Seq<char>>
    decreases parts.len(),
{
    if parts.len() == 0 {
        Seq::empty()
    } else if parts.last().len() > 0 {
        non_empty(parts.drop_last()).push(parts.last())
    } else {
        non_empty(parts.drop_last())
    }
}

/// A line with its whitespace runs collapsed to one space and its ends
/// trimmed.
pub open spec fn squeezed(line: Seq<char>) -> Seq<char> {
    joined(words_of(line), " "@)
}

/// The squeezed lines of a list.
pub open spec fn squeezed_lines(lines: Seq<Seq<char>>) -> Seq<Seq<char>>
    decreases lines.len(),
{
    if lines.len() == 0 {
        Seq::empty()
    } else {
        squeezed_lines(lines.drop_last()).push(squeezed(lines.last()))
    }
}

/// Each line's words joined by one space, empty lines dropped, the lines
/// joined by `\n`: how a label's gathered characters read.
pub open spec fn collapsed(raw: Seq<char>) -> Seq<char> {
    joined(non_empty(squeezed_lines(lines_of(raw))), "\n"@)
}

proof fn lemma_joined_push(parts: Seq<Seq<char>>, sep: Seq<char>, x: Seq<char>)
    ensures
        joined(parts.push(x), sep) == if parts.len() == 0 {
            x
        } else {
            joined(parts, sep) + sep + x
        },
{
    assert(parts.push(x).drop_last() =~= parts);
    if parts.len() == 0 {
        assert(parts.push(x)[0] == x);
    }
}

proof fn lemma_joined_extend(parts: Seq<Seq<char>>, sep: Seq<char>, c: char)
    requires
        parts.len() > 0,
    ensures
        joined(parts.update(parts.len() - 1, parts.last().push(c)), sep) == joined(parts, sep).push(c),
{
    let u = parts.update(parts.len() - 1, parts.last().push(c));
    assert(u.drop_last() =~= parts.drop_last());
    if parts.len() == 1 {
        assert(u[0] == parts[0].push(c));
    } else {
        assert(joined(u, sep) == joined(parts.drop_last(), sep) + sep + parts.last().push(c));
        assert(joined(parts.drop_last(), sep) + sep + parts.last().push(c) =~= (joined(
            parts.drop_last(),
            sep,
        ) + sep + parts.last()).push(c));
    }
}

/// A line squeezed: its words, one space apart.
pub fn squeeze(line: &[char], from: usize, to: usize) -> (r: Vec<char>)
    requires
        from <= to <= line@.len(),
    ensures
        r@ == squeezed(line@.subrange(from as int, to as int)),
{
    let mut out: Vec<char> = Vec::new();
    let mut i = from;
    let ghost mut words: Seq<Seq<char>> = Seq::empty();
    proof {
        reveal_strlit(" ");
    }
    assert(line@.subrange(from as int, from as int) =~= Seq::<char>::empty());
    while i < to
        invariant
            from <= i <= to <= line@.len(),
            words == words_of(line@.subrange(from as int, i as int)),
            out@ == joined(words, " "@),
            " "@ == seq![' '],
        decreases to - i,
    {
        let c = line[i];
        let ghost seg = line@.subrange(from as int, i + 1);
        assert(seg.drop_last() =~= line@.subrange(from as int, i as int));
        assert(seg.last() == c);
        if crate::text::is_whitespace(c) {
        } else if i > from && !crate::text::is_whitespace(line[i - 1]) && out.len() > 0 {
            proof {
                assert(seg[seg.len() - 2] == line@[i - 1]);
                if words.len() == 0 {
                    assert(joined(words, " "@).len() == 0);
                }
                lemma_joined_extend(words, " "@, c);
                words = words.update(words.len() - 1, words.last().push(c));
            }
            out.push(c);
        } else {
            proof {
                lemma_words_nonempty(line@.subrange(from as int, i as int));
                if i > from && !is_ws(line@[i - 1]) {
                    assert(seg[seg.len() - 2] == line@[i - 1]);
                    assert(out@.len() == 0);
                }
                lemma_joined_push(words, " "@, seq![c]);
                words = words.push(seq![c]);
            }
            if out.len() > 0 {
                out.push(' ');
            }
            out.push(c);
            assert(out@ =~= joined(words, " "@));
        }
        i += 1;
    }
    out
}

/// A line ending in a non-whitespace character has a word, and every
/// word has a character.
proof fn lemma_words_nonempty(line: Seq<char>)
    ensures
        line.len() > 0 && !is_ws(line.last()) ==> words_of(line).len() > 0,
        forall|k: int| 0 <= k < words_of(line).len() ==> (#[trigger] words_of(line)[k]).len() > 0,
        words_of(line).len() > 0 ==> joined(words_of(line), " "@).len() > 0,
    decreases line.len(),
{
    if line.len() > 0 {
        lemma_words_nonempty(line.drop_last());
        let rest = words_of(line.drop_last());
        lemma_joined_len(words_of(line), " "@);
    }
}

proof fn lemma_joined_len(parts: Seq<Seq<char>>, sep: Seq<char>)
    requires
        forall|k: int| 0 <= k < parts.len() ==> (#[trigger] parts[k]).len() > 0,
    ensures
        parts.len() > 0 ==> joined(parts, sep).len() > 0,
    decreases parts.len(),
{
    if parts.len() > 1 {
        assert(parts.last() == parts[parts.len() - 1]);
    } else if parts.len() == 1 {
        assert(parts[0].len() > 0);
    }
}


/// Characters with no newline extend the last line.
pub proof fn lemma_lines_extend(p: Seq<char>, q: Seq<char>)
    requires
        forall|k: int| 0 <= k < q.len() ==> q[k] != '\n',
    ensures
        lines_of(p).len() > 0,
        lines_of(p + q) == lines_of(p).update(
            lines_of(p).len() - 1,
            lines_of(p).last() + q,
        ),
    decreases q.len(),
{
    lemma_lines_len(p);
    if q.len() == 0 {
        assert(p + q =~= p);
        assert(lines_of(p).last() + q =~= lines_of(p).last());
        assert(lines_of(p).update(lines_of(p).len() - 1, lines_of(p).last()) =~= lines_of(p));
    } else {
        lemma_lines_extend(p, q.drop_last());
        assert((p + q).drop_last() =~= p + q.drop_last());
        assert((p + q).last() == q.last());
        let l = lines_of(p);
        let u = l.update(l.len() - 1, l.last() + q.drop_last());
        assert(u.last() == l.last() + q.drop_last());
        assert(u.update(u.len() - 1, u.last().push(q.last())) =~= l.update(
            l.len() - 1,
            l.last() + q,
        )) by {
            assert((l.last() + q.drop_last()).push(q.last()) =~= l.last() + q);
        }
    }
}

proof fn lemma_lines_len(p: Seq<char>)
    ensures
        lines_of(p).len() > 0,
    decreases p.len(),
{
    if p.len() > 0 {
        lemma_lines_len(p.drop_last());
    }
}

/// How a label's gathered characters read: each line's words one space
/// apart, empty lines dropped, the lines joined by `\n`.
pub fn collapse(raw: &[char]) -> (r: String)
    ensures
        r@ == collapsed(raw@),
{
    let n = raw.len();
    let mut out = String::new();
    let mut a: usize = 0;
    let ghost mut done: Seq<Seq<char>> = Seq::empty();
    proof {
        reveal_strlit("\n");
        assert(raw@.take(0) =~= Seq::<char>::empty());
    }
    loop
        invariant
            a <= n,
            n == raw@.len(),
            lines_of(raw@.take(a as int)) == done.push(Seq::empty()),
            out@ == joined(non_empty(squeezed_lines(done)), "\n"@),
            "\n"@ == seq!['\n'],
        decreases n - a,
    {
        proof {
            crate::text::lemma_find_char(raw@, '\n', a as int);
        }
        let (e, more) = match crate::text::find_ch(raw, '\n', a) {
            Some(e) => (e, true),
            None => (n, false),
        };
        let sq = squeeze(raw, a, e);
        let ghost seg = raw@.subrange(a as int, e as int);
        proof {
            assert(raw@.take(e as int) =~= raw@.take(a as int) + seg);
            assert forall|k: int| 0 <= k < seg.len() implies seg[k] != '\n' by {
                assert(seg[k] == raw@[a + k]);
            }
            lemma_lines_extend(raw@.take(a as int), seg);
            assert(done.push(Seq::empty()).update(done.len() as int, Seq::<char>::empty() + seg)
                =~= done.push(seg));
            assert(squeezed_lines(done.push(seg)).drop_last() =~= squeezed_lines(done)) by {
                assert(done.push(seg).drop_last() =~= done);
            }
        }
        let ghost before = out@;
        if sq.len() > 0 {
            proof {
                let ne = non_empty(squeezed_lines(done));
                assert(squeezed_lines(done.push(seg)) == squeezed_lines(done).push(sq@)) by {
                    assert(done.push(seg).drop_last() =~= done);
                }
                assert(squeezed_lines(done).push(sq@).drop_last() =~= squeezed_lines(done));
                lemma_joined_push(ne, "\n"@, sq@);
                lemma_non_empty_all(squeezed_lines(done));
                lemma_joined_len(ne, "\n"@);
            }
            if !out.as_str().is_empty() {
                push_char(&mut out, '\n');
            }
            crate::text::push_chars(&mut out, sq.as_slice(), 0, sq.len());
            assert(sq@.subrange(0, sq@.len() as int) =~= sq@);
        } else {
            assert(squeezed_lines(done.push(seg)) == squeezed_lines(done).push(sq@)) by {
                assert(done.push(seg).drop_last() =~= done);
            }
            assert(squeezed_lines(done).push(sq@).drop_last() =~= squeezed_lines(done));
        }
        proof {
            done = done.push(seg);
        }
        if !more {
            assert(raw@.take(n as int) =~= raw@);
            assert(lines_of(raw@) == done);
            return out;
        }
        proof {
            assert(raw@.take(e + 1) =~= raw@.take(e as int).push('\n'));
            assert(raw@.take(e + 1).drop_last() =~= raw@.take(e as int));
        }
        a = e + 1;
    }
}

/// Every string `non_empty` keeps is non-empty.
proof fn lemma_non_empty_all(parts: Seq<Seq<char>>)
    ensures
        forall|k: int|
            0 <= k < non_empty(parts).len() ==> (#[trigger] non_empty(parts)[k]).len() > 0,
    decreases parts.len(),
{
    if parts.len() > 0 {
        lemma_non_empty_all(parts.drop_last());
        let rest = non_empty(parts.drop_last());
        if parts.last().len() > 0 {
            assert forall|k: int| 0 <= k < non_empty(parts).len() implies (
            #[trigger] non_empty(parts)[k]).len() > 0 by {
                if k < rest.len() {
                    assert(non_empty(parts)[k] == rest[k]);
                }
            }
        }
    }
}

/// Append the characters under the nodes `ids`, gathered as a label lays
/// them out.
pub fn gather(nodes: &Vec<Node>, ids: &Vec<u32>, fuel: usize, out: &mut Vec<char>)
    ensures
        final(out)@ == old(out)@ + gathered(nodes@, ids@, fuel as nat),
    decreases fuel,
{
    if fuel == 0 {
        assert(old(out)@ + Seq::<char>::empty() =~= old(out)@);
        assert(gathered(nodes@, ids@, fuel as nat) == Seq::<char>::empty());
        return;
    }
    let ghost start = out@;
    let mut j: usize = 0;
    assert(ids@.take(0) =~= Seq::<u32>::empty());
    assert(start + gathered(nodes@, ids@.take(0), fuel as nat) =~= start);
    while j < ids.len()
        invariant
            fuel > 0,
            j <= ids@.len(),
            out@ == start + gathered(nodes@, ids@.take(j as int), fuel as nat),
        decreases ids@.len() - j,
    {
        let id = ids[j];
        let ghost prefix = ids@.take(j + 1);
        assert(prefix.drop_last() =~= ids@.take(j as int));
        assert(prefix.last() == id);
        let ghost before = out@;
        match node_index(nodes, id) {
            None => {
                assert(out@ =~= start + gathered(nodes@, prefix, fuel as nat));
            },
            Some(i) => {
                let n = &nodes[i];
                match n.kind {
                    NodeKind::Str => {
                        match &n.text {
                            Some(t) => {
                                let tv = crate::text::to_chars(t.as_str());
                                let mut k: usize = 0;
                                while k < tv.len()
                                    invariant
                                        k <= tv@.len(),
                                        out@ == before + tv@.take(k as int),
                                    decreases tv@.len() - k,
                                {
                                    out.push(tv[k]);
                                    assert(out@ =~= before + tv@.take(k + 1));
                                    k += 1;
                                }
                                assert(tv@.take(tv@.len() as int) =~= tv@);
                            },
                            None => {},
                        }
                        assert(out@ =~= start + gathered(nodes@, prefix, fuel as nat));
                    },
                    NodeKind::Container => {
                        let brk = crate::shape::find_attr(&n.attrs, "data-break").is_some();
                        out.push(if brk { '\n' } else { ' ' });
                        let kids = children_of(nodes, id);
                        gather(nodes, &kids, fuel - 1, out);
                        out.push(' ');
                        assert(out@ =~= start + gathered(nodes@, prefix, fuel as nat));
                    },
                    _ => {
                        assert(out@ =~= start + gathered(nodes@, prefix, fuel as nat));
                    },
                }
            },
        }
        j += 1;
    }
    assert(ids@.take(ids@.len() as int) =~= ids@);
}

/// The characters under an element, whitespace runs collapsed to one
/// space and the ends trimmed, on each line a `data-break` starts.
pub open spec fn characters_of(nodes: Seq<Node>, parent: u32) -> Seq<char> {
    collapsed(gathered(nodes, children(nodes, parent), nodes.len()))
}

/// The characters under an element, as a label reads.
pub fn characters(nodes: &Vec<Node>, parent: u32) -> (r: String)
    ensures
        r@ == characters_of(nodes@, parent),
{
    let kids = children_of(nodes, parent);
    let mut raw: Vec<char> = Vec::new();
    gather(nodes, &kids, nodes.len(), &mut raw);
    assert(raw@ =~= gathered(nodes@, kids@, nodes@.len()));
    collapse(raw.as_slice())
}


// ----- the shapes ----------------------------------------------------------

/// What a label's characters read as: `None` when empty, and for every
/// kind but a label.
pub open spec fn label_text(nodes: Seq<Node>, id: u32, k: ShapeKind) -> Option<Seq<char>> {
    if k == ShapeKind::Text && characters_of(nodes, id).len() > 0 {
        Some(characters_of(nodes, id))
    } else {
        None
    }
}

/// The shapes among the nodes `ids` and inside them, in document (paint)
/// order, each group's members after it: every element whose tag names a
/// shape kind, `depth` below `<svg>`, inside the group whose `data-id` is
/// `group`. Other nodes are noise, and what is inside them is not walked.
pub open spec fn walked(
    nodes: Seq<Node>,
    ids: Seq<u32>,
    depth: nat,
    group: Option<Seq<char>>,
    fuel: nat,
) -> Seq<ShapeView>
    decreases fuel, ids.len(),
{
    if ids.len() == 0 || fuel == 0 {
        Seq::empty()
    } else {
        let head = walked(nodes, ids.drop_last(), depth, group, fuel);
        let id = ids.last();
        match node_at(nodes, id) {
            None => head,
            Some(n) => match shape_kind_of(n) {
                None => head,
                Some(k) => {
                    let sid = attr_value(attrs_view(n.attrs@), "data-id"@);
                    let sv = ShapeView {
                        node: id,
                        kind: k,
                        id: sid,
                        group,
                        depth,
                        attrs: attrs_view(n.attrs@),
                        text: label_text(nodes, id, k),
                    };
                    head.push(sv) + if k == ShapeKind::Group {
                        walked(nodes, children(nodes, id), depth + 1, sid, (fuel - 1) as nat)
                    } else {
                        Seq::empty()
                    }
                },
            },
        }
    }
}

/// Whether every shape of `s` whose group is not `g` comes after a shape
/// carrying its group's id: a member is listed after its group.
pub open spec fn groups_precede(s: Seq<ShapeView>, g: Option<Seq<char>>) -> bool {
    forall|i: int|
        0 <= i < s.len() ==> (#[trigger] s[i]).group == g || exists|j: int|
            0 <= j < i && s[j].id == s[i].group
}

/// A walk lists each group before its members.
pub proof fn lemma_walked_groups_precede(
    nodes: Seq<Node>,
    ids: Seq<u32>,
    depth: nat,
    group: Option<Seq<char>>,
    fuel: nat,
)
    ensures
        groups_precede(walked(nodes, ids, depth, group, fuel), group),
    decreases fuel, ids.len(),
{
    let w = walked(nodes, ids, depth, group, fuel);
    if ids.len() > 0 && fuel > 0 {
        let head = walked(nodes, ids.drop_last(), depth, group, fuel);
        lemma_walked_groups_precede(nodes, ids.drop_last(), depth, group, fuel);
        let id = ids.last();
        if let Some(n) = node_at(nodes, id) {
            if let Some(k) = shape_kind_of(n) {
                let sid = attr_value(attrs_view(n.attrs@), "data-id"@);
                let sub = if k == ShapeKind::Group {
                    walked(nodes, children(nodes, id), depth + 1, sid, (fuel - 1) as nat)
                } else {
                    Seq::empty()
                };
                if k == ShapeKind::Group {
                    lemma_walked_groups_precede(nodes, children(nodes, id), depth + 1, sid, (fuel - 1) as nat);
                }
                let h = head.len() as int;
                assert(w == head.push(w[h]) + sub);
                assert(w[h].id == sid && w[h].group == group);
                assert forall|i: int| 0 <= i < w.len() implies (#[trigger] w[i]).group == group || exists|j: int|
                    0 <= j < i && w[j].id == w[i].group by {
                    if i < h {
                        assert(w[i] == head[i]);
                        if head[i].group != group {
                            let j = choose|j: int| 0 <= j < i && head[j].id == head[i].group;
                            assert(w[j] == head[j]);
                        }
                    } else if i > h {
                        let k2 = i - h - 1;
                        assert(w[i] == sub[k2]);
                        if sub[k2].group == sid {
                            assert(w[h].id == w[i].group);
                        } else {
                            let j = choose|j: int| 0 <= j < k2 && sub[j].id == sub[k2].group;
                            assert(w[h + 1 + j] == sub[j]);
                        }
                    }
                }
            }
        }
    }
}

/// Each shape of a walk is read off its node: its attributes are the
/// node's, and its id the node's `data-id`.
pub proof fn lemma_walked_attrs(
    nodes: Seq<Node>,
    ids: Seq<u32>,
    depth: nat,
    group: Option<Seq<char>>,
    fuel: nat,
)
    ensures
        forall|i: int|
            0 <= i < walked(nodes, ids, depth, group, fuel).len() ==> {
                let s = #[trigger] walked(nodes, ids, depth, group, fuel)[i];
                &&& node_at(nodes, s.node) matches Some(n) && attrs_view(n.attrs@) == s.attrs
                &&& s.id == attr_value(s.attrs, "data-id"@)
            },
    decreases fuel, ids.len(),
{
    let w = walked(nodes, ids, depth, group, fuel);
    if ids.len() > 0 && fuel > 0 {
        let head = walked(nodes, ids.drop_last(), depth, group, fuel);
        lemma_walked_attrs(nodes, ids.drop_last(), depth, group, fuel);
        let id = ids.last();
        if let Some(n) = node_at(nodes, id) {
            if let Some(k) = shape_kind_of(n) {
                let sid = attr_value(attrs_view(n.attrs@), "data-id"@);
                let sub = if k == ShapeKind::Group {
                    walked(nodes, children(nodes, id), depth + 1, sid, (fuel - 1) as nat)
                } else {
                    Seq::empty()
                };
                if k == ShapeKind::Group {
                    lemma_walked_attrs(nodes, children(nodes, id), depth + 1, sid, (fuel - 1) as nat);
                }
                let h = head.len() as int;
                assert(w == head.push(w[h]) + sub);
                assert forall|i: int| 0 <= i < w.len() implies {
                    let s = #[trigger] w[i];
                    &&& node_at(nodes, s.node) matches Some(n) && attrs_view(n.attrs@) == s.attrs
                    &&& s.id == attr_value(s.attrs, "data-id"@)
                } by {
                    if i < h {
                        assert(w[i] == head[i]);
                    } else if i > h {
                        assert(w[i] == sub[i - h - 1]);
                    }
                }
            }
        }
    }
}

/// The shapes under the root element, in paint order.
pub open spec fn shapes_under(nodes: Seq<Node>, root: u32) -> Seq<ShapeView> {
    walked(nodes, children(nodes, root), 0, None, nodes.len())
}

/// A copy of an optional string.
pub fn clone_opt(o: &Option<String>) -> (r: Option<String>)
    ensures
        opt_view(r) == opt_view(*o),
{
    match o {
        Some(s) => Some(s.clone()),
        None => None,
    }
}

/// A copy of an attribute list.
pub fn clone_attrs(a: &Vec<(String, Option<String>)>) -> (r: Vec<(String, Option<String>)>)
    ensures
        attrs_view(r@) == attrs_view(a@),
{
    let mut r: Vec<(String, Option<String>)> = Vec::new();
    let mut i: usize = 0;
    while i < a.len()
        invariant
            i <= a@.len(),
            attrs_view(r@) == attrs_view(a@.take(i as int)),
        decreases a@.len() - i,
    {
        let k = a[i].0.clone();
        let v = clone_opt(&a[i].1);
        let ghost old_r = r@;
        assert(attrs_view(old_r).len() == old_r.len());
        assert(attrs_view(a@.take(i as int)).len() == i);
        r.push((k, v));
        assert(attrs_view(r@).len() == r@.len());
        assert(attrs_view(a@.take(i + 1)).len() == i + 1);
        assert forall|m: int| 0 <= m < i + 1 implies attrs_view(r@)[m] == attrs_view(
            a@.take(i + 1),
        )[m] by {
            if m < i {
                assert(r@[m] == old_r[m]);
                assert(attrs_view(old_r)[m] == attrs_view(a@.take(i as int))[m]);
                assert(a@.take(i as int)[m] == a@.take(i + 1)[m]);
            } else {
                assert(r@[m] == (k, v));
            }
        }
        assert(attrs_view(r@) =~= attrs_view(a@.take(i + 1)));
        i += 1;
    }
    assert(a@.take(a@.len() as int) =~= a@);
    r
}

/// Append the shapes among the nodes `ids` and inside them.
pub fn walk(
    nodes: &Vec<Node>,
    ids: &Vec<u32>,
    depth: usize,
    group: &Option<String>,
    fuel: usize,
    out: &mut Vec<Shape>,
)
    requires
        depth + fuel <= usize::MAX,
    ensures
        shapes_view(final(out)@) == shapes_view(old(out)@) + walked(
            nodes@,
            ids@,
            depth as nat,
            opt_view(*group),
            fuel as nat,
        ),
    decreases fuel,
{
    let ghost start = shapes_view(out@);
    if fuel == 0 {
        assert(start + Seq::<ShapeView>::empty() =~= start);
        return;
    }
    let mut j: usize = 0;
    assert(ids@.take(0) =~= Seq::<u32>::empty());
    assert(start + walked(nodes@, ids@.take(0), depth as nat, opt_view(*group), fuel as nat)
        =~= start);
    while j < ids.len()
        invariant
            fuel > 0,
            depth + fuel <= usize::MAX,
            j <= ids@.len(),
            shapes_view(out@) == start + walked(
                nodes@,
                ids@.take(j as int),
                depth as nat,
                opt_view(*group),
                fuel as nat,
            ),
        decreases ids@.len() - j,
    {
        let id = ids[j];
        let ghost prefix = ids@.take(j + 1);
        assert(prefix.drop_last() =~= ids@.take(j as int));
        assert(prefix.last() == id);
        let ghost before = shapes_view(out@);
        if let Some(i) = node_index(nodes, id) {
            let n = &nodes[i];
            let kind = match (&n.kind, &n.name) {
                (NodeKind::Container, Some(name)) => ShapeKind::from_tag(name.as_str()),
                _ => None,
            };
            if let Some(k) = kind {
                let sid = match crate::shape::find_attr(&n.attrs, "data-id") {
                    Some(v) => Some(crate::text::owned(v)),
                    None => None,
                };
                let text = if k == ShapeKind::Text {
                    let t = characters(nodes, id);
                    if t.as_str().is_empty() {
                        None
                    } else {
                        Some(t)
                    }
                } else {
                    None
                };
                let own = clone_opt(&sid);
                let shape = Shape {
                    node: NodeId(id),
                    kind: k,
                    id: sid,
                    group: clone_opt(group),
                    depth,
                    attrs: clone_attrs(&n.attrs),
                    text,
                };
                out.push(shape);
                assert(shapes_view(out@) =~= before.push(shape@));
                if k == ShapeKind::Group {
                    let kids = children_of(nodes, id);
                    walk(nodes, &kids, depth + 1, &own, fuel - 1, out);
                }
                assert(shapes_view(out@) =~= start + walked(
                    nodes@,
                    prefix,
                    depth as nat,
                    opt_view(*group),
                    fuel as nat,
                ));
            }
        }
        j += 1;
    }
    assert(ids@.take(ids@.len() as int) =~= ids@);
}

/// The shapes under the root element `root`, in paint order.
pub fn read(nodes: &Vec<Node>, root: u32) -> (r: Vec<Shape>)
    ensures
        shapes_view(r@) == shapes_under(nodes@, root),
{
    let kids = children_of(nodes, root);
    let mut out: Vec<Shape> = Vec::new();
    walk(nodes, &kids, 0, &None, nodes.len(), &mut out);
    assert(shapes_view(Seq::<Shape>::empty()) =~= Seq::<ShapeView>::empty());
    assert(Seq::<ShapeView>::empty() + shapes_under(nodes@, root) =~= shapes_under(nodes@, root));
    out
}

} // verus!
