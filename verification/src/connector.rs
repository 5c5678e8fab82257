//! A connector: the line-like shape an arrow is. A `<line>`, or a `<path>`
//! whose `d` is one segment from one end to the other — straight or bent
//! through one control point — and which is not ink. Which `<path>`s count
//! is read off the `d`, not declared.
//!
//! The geometry of a connector is arithmetic on coordinates and belongs to
//! the host; here is which shapes are connectors, the ends' names, and the
//! attribute lists a connector is rewritten with when a bend turns a
//! `<line>` into a `<path>` or straightening turns it back.

use vstd::prelude::*;

use crate::shape::{attr_index, attr_position, attrs_view, Shape, ShapeKind};
use crate::tree::ShapeView;

verus! {

/// An end of a connector: the coordinates it is at and the attribute that
/// binds it to a shape.
#[derive(Clone, Copy, Debug, PartialEq, Eq, Hash, Structural)]
pub enum End {
    /// `(x1, y1)`, or the path's `M`; bound by `data-from`.
    From,
    /// `(x2, y2)`, or the path's last point; bound by `data-to`.
    To,
}

/// The attribute that binds an end.
pub open spec fn binding_of(end: End) -> Seq<char> {
    match end {
        End::From => "data-from"@,
        End::To => "data-to"@,
    }
}

impl End {
    /// The attribute that binds this end.
    pub fn binding(self) -> (r: &'static str)
        ensures
            r@ == binding_of(self),
    {
        match self {
            End::From => "data-from",
            End::To => "data-to",
        }
    }

    /// The other end.
    pub fn other(self) -> (r: End)
        ensures
            r != self,
    {
        match self {
            End::From => End::To,
            End::To => End::From,
        }
    }
}

/// What a segment of a path's data is, once relative and shorthand
/// commands are spelled out absolutely: the shape of the path, without its
/// coordinates.
#[derive(Clone, Copy, Debug, PartialEq, Eq, Structural)]
pub enum SegKind {
    MoveTo,
    LineTo,
    CurveTo,
    Quadratic,
    ClosePath,
    /// Data that does not parse.
    Error,
}

/// The first three segments svgtypes' simplifying parser reads out of a
/// path's data.
pub uninterp spec fn path_segments(d: Seq<char>) -> Seq<SegKind>;

/// `svgtypes::SimplifyingPathParser` over `d`: the kinds of its first
/// three segments, an unparseable one as `Error`.
#[verifier::external_body]
pub fn segment_kinds(d: &str) -> (r: Vec<SegKind>)
    ensures
        r@ == path_segments(d@),
        r@.len() <= 3,
{
    svgtypes::SimplifyingPathParser::from(d).take(3).map(|s| match s {
        Ok(svgtypes::SimplePathSegment::MoveTo { .. }) => SegKind::MoveTo,
        Ok(svgtypes::SimplePathSegment::LineTo { .. }) => SegKind::LineTo,
        Ok(svgtypes::SimplePathSegment::CurveTo { .. }) => SegKind::CurveTo,
        Ok(svgtypes::SimplePathSegment::Quadratic { .. }) => SegKind::Quadratic,
        Ok(svgtypes::SimplePathSegment::ClosePath) => SegKind::ClosePath,
        Err(_) => SegKind::Error,
    }).collect()
}

/// Whether a path's data is one `M` and one `L` or `Q`.
pub open spec fn one_segment(segs: Seq<SegKind>) -> bool {
    &&& segs.len() == 2
    &&& segs[0] == SegKind::MoveTo
    &&& (segs[1] == SegKind::LineTo || segs[1] == SegKind::Quadratic)
}

/// Whether a shape is a connector: a `<line>` always; a `<path>` when it
/// is not ink and its `d` is one `M` and one `L` or `Q`, in any spelling
/// that simplifies to that.
pub open spec fn connects(s: ShapeView) -> bool {
    match s.kind {
        ShapeKind::Line => true,
        ShapeKind::Path => {
            &&& crate::shape::attr_value(s.attrs, "data-ink"@) is None
            &&& crate::shape::attr_value(s.attrs, "d"@) matches Some(d) && one_segment(
                path_segments(d),
            )
        },
        _ => false,
    }
}

/// Whether `shape` is a connector.
pub fn is_connector(shape: &Shape) -> (r: bool)
    ensures
        r == connects(shape@),
{
    match shape.kind {
        ShapeKind::Line => true,
        ShapeKind::Path => {
            if shape.attr("data-ink").is_some() {
                return false;
            }
            match shape.attr("d") {
                None => false,
                Some(d) => {
                    let segs = segment_kinds(d);
                    segs.len() == 2 && segs[0] == SegKind::MoveTo && (segs[1] == SegKind::LineTo
                        || segs[1] == SegKind::Quadratic)
                },
            }
        },
        _ => false,
    }
}


// ----- bending and straightening -----------------------------------------

/// An attribute list, by its views.
pub type AttrsView = Seq<(Seq<char>, Option<Seq<char>>)>;

/// `a` without the attributes named among `names`, in order.
pub open spec fn without(a: AttrsView, names: Seq<Seq<char>>) -> AttrsView
    decreases a.len(),
{
    if a.len() == 0 {
        Seq::empty()
    } else {
        without(a.drop_last(), names) + if names.contains(a.last().0) {
            Seq::empty()
        } else {
            seq![a.last()]
        }
    }
}

/// Where the first attribute named `name` is, or 0.
pub open spec fn index_or_start(a: AttrsView, name: Seq<char>) -> int {
    match attr_index(a, name) {
        Some(i) => i,
        None => 0,
    }
}

/// The smaller of two integers.
pub open spec fn at_most(i: int, n: int) -> int {
    if i < n {
        i
    } else {
        n
    }
}

/// A `<line>`'s attributes for the `<path>` a bend makes of it: `d` where
/// `x1` was (first, when there was none), the four ends gone, the rest as
/// they were.
pub open spec fn bent_list(a: AttrsView, d: Seq<char>) -> AttrsView {
    let w = without(a, seq!["x1"@, "y1"@, "x2"@, "y2"@]);
    w.insert(at_most(index_or_start(a, "x1"@), w.len() as int), ("d"@, Some(d)))
}

/// `w` with the first `k` of `run` inserted one after the other from
/// index `at`, each as far as the list reaches.
pub open spec fn run_inserted(w: AttrsView, at: int, run: AttrsView, k: nat) -> AttrsView
    decreases k,
{
    if k == 0 {
        w
    } else {
        let prev = run_inserted(w, at, run, (k - 1) as nat);
        prev.insert(at_most(at + k - 1, prev.len() as int), run[k - 1])
    }
}

/// A `<path>`'s attributes for the `<line>` straightening makes of it: the
/// four ends where `d` was (first, when there was none), `d` gone, the
/// rest as they were.
pub open spec fn straight_list(a: AttrsView, ends: Seq<(Seq<char>, Seq<char>)>) -> AttrsView {
    run_inserted(
        without(a, seq!["d"@]),
        index_or_start(a, "d"@),
        ends.map_values(|p: (Seq<char>, Seq<char>)| (p.0, Some(p.1))),
        ends.len(),
    )
}

/// Dropping names from two lists joined is dropping them from each.
proof fn lemma_without_join(x: AttrsView, y: AttrsView, names: Seq<Seq<char>>)
    ensures
        without(x + y, names) == without(x, names) + without(y, names),
    decreases y.len(),
{
    if y.len() == 0 {
        assert(x + y =~= x);
        assert(without(x, names) + without(y, names) =~= without(x, names));
    } else {
        assert((x + y).drop_last() =~= x + y.drop_last());
        assert((x + y).last() == y.last());
        lemma_without_join(x, y.drop_last(), names);
        let tail: AttrsView = if names.contains(y.last().0) {
            Seq::empty()
        } else {
            seq![y.last()]
        };
        assert(without(x, names) + without(y.drop_last(), names) + tail =~= without(x, names) + (
        without(y.drop_last(), names) + tail));
    }
}

/// A list with none of the names keeps them all.
proof fn lemma_without_none(x: AttrsView, names: Seq<Seq<char>>)
    requires
        forall|i: int| 0 <= i < x.len() ==> !names.contains(#[trigger] x[i].0),
    ensures
        without(x, names) == x,
    decreases x.len(),
{
    if x.len() > 0 {
        lemma_without_none(x.drop_last(), names);
        assert(!names.contains(x[x.len() - 1].0));
        assert(x.drop_last() + seq![x.last()] =~= x);
    }
}

/// The first attribute named `name` is the first at its place.
proof fn lemma_attr_index_at(a: AttrsView, name: Seq<char>, i: int)
    requires
        0 <= i < a.len(),
        a[i].0 == name,
        forall|j: int| 0 <= j < i ==> #[trigger] a[j].0 != name,
    ensures
        attr_index(a, name) == Some(i),
    decreases a.len(),
{
    if i < a.len() - 1 {
        lemma_attr_index_at(a.drop_last(), name, i);
    } else {
        lemma_attr_index_none(a.drop_last(), name);
    }
}

/// A list with no attribute named `name` has no index for it.
proof fn lemma_attr_index_none(a: AttrsView, name: Seq<char>)
    requires
        forall|j: int| 0 <= j < a.len() ==> #[trigger] a[j].0 != name,
    ensures
        attr_index(a, name) is None,
    decreases a.len(),
{
    if a.len() > 0 {
        lemma_attr_index_none(a.drop_last(), name);
        assert(a.last().0 != name);
    }
}

/// Inserting a run from the end of `p` lays it between `p` and `q`.
proof fn lemma_run_between(p: AttrsView, q: AttrsView, run: AttrsView, k: nat)
    requires
        k <= run.len(),
    ensures
        run_inserted(p + q, p.len() as int, run, k) == p + run.take(k as int) + q,
    decreases k,
{
    if k == 0 {
        assert(p + run.take(0) + q =~= p + q);
    } else {
        lemma_run_between(p, q, run, (k - 1) as nat);
        let prev = p + run.take(k - 1) + q;
        assert(at_most(p.len() + k - 1, prev.len() as int) == p.len() + k - 1);
        assert(prev.insert(p.len() + k - 1, run[k - 1]) =~= p + run.take(k as int) + q);
    }
}

/// The names a line's ends are written under.
pub open spec fn end_names() -> Seq<Seq<char>> {
    seq!["x1"@, "y1"@, "x2"@, "y2"@]
}

/// Whether none of `a`'s names is an end's or `d`.
pub open spec fn free_of_geometry(a: AttrsView) -> bool {
    forall|i: int| 0 <= i < a.len() ==> !(end_names().push("d"@)).contains(#[trigger] a[i].0)
}

/// Straightening what a bend made of a line gives the line back: a
/// `<line>` whose four ends stand together, `x1` first, and that has no
/// `d`, bent into a `<path>` and straightened again, has its other
/// attributes as they were and the new ends where the old ones stood.
pub proof fn lemma_bend_then_straighten(
    p: AttrsView,
    olds: Seq<Seq<char>>,
    q: AttrsView,
    d: Seq<char>,
    news: Seq<(Seq<char>, Seq<char>)>,
)
    requires
        free_of_geometry(p),
        free_of_geometry(q),
        olds.len() == 4,
        news.len() == 4,
    ensures
        ({
            let line = p + Seq::new(4, |i: int| (end_names()[i], Some(olds[i]))) + q;
            straight_list(bent_list(line, d), news) == p + news.map_values(
                |e: (Seq<char>, Seq<char>)| (e.0, Some(e.1)),
            ) + q
        }),
{
    let ends = Seq::new(4, |i: int| (end_names()[i], Some(olds[i])));
    let line = p + ends + q;
    let four = seq!["x1"@, "y1"@, "x2"@, "y2"@];
    let dn = seq!["d"@];
    assert forall|i: int| 0 <= i < p.len() implies !four.contains(#[trigger] p[i].0) by {
        assert(!(end_names().push("d"@)).contains(p[i].0));
        if four.contains(p[i].0) {
            let k = choose|k: int| 0 <= k < four.len() && four[k] == p[i].0;
            assert(end_names().push("d"@)[k] == p[i].0);
        }
    }
    assert forall|i: int| 0 <= i < q.len() implies !four.contains(#[trigger] q[i].0) by {
        assert(!(end_names().push("d"@)).contains(q[i].0));
        if four.contains(q[i].0) {
            let k = choose|k: int| 0 <= k < four.len() && four[k] == q[i].0;
            assert(end_names().push("d"@)[k] == q[i].0);
        }
    }
    assert forall|i: int| 0 <= i < p.len() implies !dn.contains(#[trigger] p[i].0) by {
        assert(!(end_names().push("d"@)).contains(p[i].0));
        if dn.contains(p[i].0) {
            assert(end_names().push("d"@)[4] == p[i].0);
        }
    }
    assert forall|i: int| 0 <= i < q.len() implies !dn.contains(#[trigger] q[i].0) by {
        assert(!(end_names().push("d"@)).contains(q[i].0));
        if dn.contains(q[i].0) {
            assert(end_names().push("d"@)[4] == q[i].0);
        }
    }
    // Bending: the ends dropped, `d` where `x1` was.
    lemma_without_join(p + ends, q, four);
    lemma_without_join(p, ends, four);
    lemma_without_none(p, four);
    lemma_without_none(q, four);
    assert(without(ends, four) =~= Seq::<(Seq<char>, Option<Seq<char>>)>::empty()) by {
        reveal_with_fuel(without, 5);
        assert(ends.drop_last().drop_last().drop_last().drop_last() =~= Seq::<(Seq<char>, Option<Seq<char>>)>::empty());
        assert(four.contains(ends[0].0) && four[0] == ends[0].0);
        assert(four[1] == ends[1].0);
        assert(four[2] == ends[2].0);
        assert(four[3] == ends[3].0);
    }
    assert(p + ends + q == line);
    assert(without(line, four) =~= p + q);
    assert forall|j: int| 0 <= j < p.len() implies #[trigger] line[j].0 != "x1"@ by {
        assert(line[j] == p[j]);
        assert(four[0] == "x1"@);
    }
    assert(line[p.len() as int] == ends[0]);
    lemma_attr_index_at(line, "x1"@, p.len() as int);
    let w = p + q;
    let bent = w.insert(p.len() as int, ("d"@, Some(d)));
    assert(bent_list(line, d) == bent);
    assert(bent =~= p + seq![("d"@, Some(d))] + q);
    // Straightening: `d` dropped, the new ends where it was.
    lemma_without_join(p + seq![("d"@, Some(d))], q, dn);
    lemma_without_join(p, seq![("d"@, Some(d))], dn);
    lemma_without_none(p, dn);
    lemma_without_none(q, dn);
    assert(without(seq![("d"@, Some(d))], dn) =~= Seq::<(Seq<char>, Option<Seq<char>>)>::empty()) by {
        let one = seq![("d"@, Some(d))];
        assert(one.drop_last() =~= Seq::<(Seq<char>, Option<Seq<char>>)>::empty());
        assert(one.last().0 == "d"@);
        assert(dn[0] == "d"@);
        assert(dn.contains(one.last().0));
        assert(without(one.drop_last(), dn) =~= Seq::<(Seq<char>, Option<Seq<char>>)>::empty());
    }
    assert(without(bent, dn) =~= p + q);
    assert forall|j: int| 0 <= j < p.len() implies #[trigger] bent[j].0 != "d"@ by {
        assert(bent[j] == p[j]);
        assert(dn[0] == "d"@);
    }
    assert(bent[p.len() as int] == ("d"@, Some(d)));
    lemma_attr_index_at(bent, "d"@, p.len() as int);
    let run = news.map_values(|e: (Seq<char>, Seq<char>)| (e.0, Some(e.1)));
    lemma_run_between(p, q, run, 4);
    assert(run.take(4) =~= run);
}

/// Whether `name` is one of `names`.
fn named_among(names: &Vec<&str>, name: &str) -> (r: bool)
    ensures
        r == crate::shape::views(names@).contains(name@),
{
    let ghost nv = crate::shape::views(names@);
    let mut i: usize = 0;
    while i < names.len()
        invariant
            i <= names@.len(),
            nv == crate::shape::views(names@),
            forall|k: int| 0 <= k < i ==> nv[k] != name@,
        decreases names@.len() - i,
    {
        if crate::text::str_eq(names[i], name) {
            assert(nv[i as int] == name@);
            return true;
        }
        i += 1;
    }
    assert(!nv.contains(name@));
    false
}

/// `attrs` without the attributes named among `names`.
fn dropping(attrs: &Vec<(String, Option<String>)>, names: &Vec<&str>) -> (r: Vec<(String, Option<String>)>)
    ensures
        attrs_view(r@) == without(attrs_view(attrs@), crate::shape::views(names@)),
{
    let ghost av = attrs_view(attrs@);
    let ghost nv = crate::shape::views(names@);
    let mut out: Vec<(String, Option<String>)> = Vec::new();
    let mut i: usize = 0;
    while i < attrs.len()
        invariant
            i <= attrs@.len(),
            av == attrs_view(attrs@),
            nv == crate::shape::views(names@),
            attrs_view(out@) == without(av.take(i as int), nv),
        decreases attrs@.len() - i,
    {
        assert(av.take(i + 1).drop_last() =~= av.take(i as int));
        assert(av.take(i + 1).last() == av[i as int]);
        let ghost before = out@;
        if !named_among(names, attrs[i].0.as_str()) {
            out.push((attrs[i].0.clone(), crate::tree::clone_opt(&attrs[i].1)));
            assert(attrs_view(out@) =~= attrs_view(before) + seq![av[i as int]]);
        } else {
            assert(attrs_view(out@) =~= attrs_view(before) + Seq::empty());
        }
        i += 1;
    }
    assert(av.take(attrs@.len() as int) =~= av);
    out
}

/// A `<line>`'s attributes for the `<path>` a bend makes of it: `d` where
/// `x1` was, the four ends gone, the rest as they were.
pub fn bent_attrs(attrs: &Vec<(String, Option<String>)>, d: String) -> (r: Vec<(String, Option<String>)>)
    ensures
        attrs_view(r@) == bent_list(attrs_view(attrs@), d@),
{
    let at = match attr_position(attrs, "x1") {
        Some(i) => i,
        None => 0,
    };
    let mut ends: Vec<&str> = Vec::new();
    ends.push("x1");
    ends.push("y1");
    ends.push("x2");
    ends.push("y2");
    assert(crate::shape::views(ends@) =~= seq!["x1"@, "y1"@, "x2"@, "y2"@]);
    let mut out = dropping(attrs, &ends);
    let place = if at < out.len() {
        at
    } else {
        out.len()
    };
    let ghost before = out@;
    out.insert(place, (crate::text::owned("d"), Some(d)));
    assert(attrs_view(out@) =~= attrs_view(before).insert(place as int, ("d"@, Some(d@))));
    out
}

/// A `<path>`'s attributes for the `<line>` straightening makes of it:
/// `ends`, in order, where `d` was, `d` gone, the rest as they were.
pub fn straightened_attrs(attrs: &Vec<(String, Option<String>)>, ends: &Vec<(String, String)>) -> (r: Vec<
    (String, Option<String>),
>)
    ensures
        attrs_view(r@) == straight_list(
            attrs_view(attrs@),
            ends@.map_values(|p: (String, String)| (p.0@, p.1@)),
        ),
{
    let ghost ev = ends@.map_values(|p: (String, String)| (p.0@, p.1@));
    let ghost run = ev.map_values(|p: (Seq<char>, Seq<char>)| (p.0, Some(p.1)));
    let at = match attr_position(attrs, "d") {
        Some(i) => i,
        None => 0,
    };
    let mut names: Vec<&str> = Vec::new();
    names.push("d");
    assert(crate::shape::views(names@) =~= seq!["d"@]);
    let mut out = dropping(attrs, &names);
    let ghost w = attrs_view(out@);
    let mut k: usize = 0;
    while k < ends.len()
        invariant
            k <= ends@.len(),
            at < attrs@.len() || at == 0,
            at as int == index_or_start(attrs_view(attrs@), "d"@),
            ev == ends@.map_values(|p: (String, String)| (p.0@, p.1@)),
            run == ev.map_values(|p: (Seq<char>, Seq<char>)| (p.0, Some(p.1))),
            attrs_view(out@) == run_inserted(w, at as int, run, k as nat),
        decreases ends@.len() - k,
    {
        let ghost before = out@;
        let place = if at < out.len() && k < out.len() - at {
            at + k
        } else {
            out.len()
        };
        out.insert(place, (ends[k].0.clone(), Some(ends[k].1.clone())));
        assert(run[k as int] == (ends@[k as int].0@, Some(ends@[k as int].1@)));
        assert(attrs_view(out@) =~= attrs_view(before).insert(place as int, run[k as int]));
        k += 1;
    }
    out
}

} // verus!
