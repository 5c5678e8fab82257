//! Which arrows a gesture disturbs. A shape that moves or resizes drags
//! along every shape inside it, and every connector bound to any of them —
//! or among them — has ends to put back on their targets' edges. Where
//! the edges are is arithmetic on floats and the host's; which arrows are
//! asked is decided here.

use vstd::prelude::*;

use crate::connector::{binding_of, connects, is_connector, End};
use crate::drawing::{ids_view, index_named, lemma_find_shape, shape_named};
use crate::shape::{attr_value, opt_str_view, Shape, ShapeKind};
use crate::tree::{shapes_view, ShapeView};

verus! {

/// The names a list of strings holds.
pub open spec fn names(v: Seq<String>) -> Set<Seq<char>> {
    v.map_values(|s: String| s@).to_set()
}

/// Whether the shape at `i` has an id and sits directly in a group whose
/// id is among `r`: a member that a move of `r` drags along.
pub open spec fn joins(shapes: Seq<ShapeView>, r: Set<Seq<char>>, i: int) -> bool {
    &&& shapes[i].id is Some
    &&& shapes[i].group matches Some(y) && r.contains(y) && (shape_named(shapes, y) matches Some(
        g,
    ) && g.kind == ShapeKind::Group)
}

/// `r` and the ids of every shape directly in a group among `r`.
pub open spec fn widen(shapes: Seq<ShapeView>, r: Set<Seq<char>>) -> Set<Seq<char>> {
    r.union(
        Set::new(
            |x: Seq<char>|
                exists|i: int| 0 <= i < shapes.len() && joins(shapes, r, i) && shapes[i].id == Some(x),
        ),
    )
}

/// `r` widened `rounds` times: the ids `rounds` steps of membership or
/// fewer inside `r`.
pub open spec fn reached(shapes: Seq<ShapeView>, r: Set<Seq<char>>, rounds: nat) -> Set<Seq<char>>
    decreases rounds,
{
    if rounds == 0 {
        r
    } else {
        reached(shapes, widen(shapes, r), (rounds - 1) as nat)
    }
}

/// A set that widening leaves as it is stays so.
pub proof fn lemma_reached_still(shapes: Seq<ShapeView>, r: Set<Seq<char>>, rounds: nat)
    requires
        widen(shapes, r) == r,
    ensures
        reached(shapes, r, rounds) == r,
    decreases rounds,
{
    if rounds > 0 {
        lemma_reached_still(shapes, r, (rounds - 1) as nat);
    }
}

/// The ids the shapes carry.
pub open spec fn carried(shapes: Seq<ShapeView>) -> Set<Seq<char>> {
    Set::new(|x: Seq<char>| exists|i: int| 0 <= i < shapes.len() && shapes[i].id == Some(x))
}

/// There are no more ids than shapes.
proof fn lemma_carried_len(shapes: Seq<ShapeView>)
    ensures
        carried(shapes).finite(),
        carried(shapes).len() <= shapes.len(),
{
    let s = shapes.map_values(
        |v: ShapeView|
            match v.id {
                Some(x) => x,
                None => Seq::empty(),
            },
    );
    assert forall|x: Seq<char>| carried(shapes).contains(x) implies s.to_set().contains(x) by {
        let i = choose|i: int| 0 <= i < shapes.len() && shapes[i].id == Some(x);
        assert(s[i] == x);
    }
    vstd::seq_lib::seq_to_set_is_finite(s);
    s.lemma_cardinality_of_set();
    vstd::set_lib::lemma_len_subset(carried(shapes), s.to_set());
}

/// One more round widens what the rounds before reached.
proof fn lemma_reached_step(shapes: Seq<ShapeView>, r: Set<Seq<char>>, k: nat)
    ensures
        reached(shapes, r, k + 1) == widen(shapes, reached(shapes, r, k)),
    decreases k,
{
    assert(reached(shapes, r, k + 1) == reached(shapes, widen(shapes, r), k));
    if k > 0 {
        assert(reached(shapes, r, k) == reached(shapes, widen(shapes, r), (k - 1) as nat));
        lemma_reached_step(shapes, widen(shapes, r), (k - 1) as nat);
    }
}

/// The rounds keep `r` and add only ids the shapes carry.
proof fn lemma_reached_bounds(shapes: Seq<ShapeView>, r: Set<Seq<char>>, k: nat)
    ensures
        r.subset_of(reached(shapes, r, k)),
        reached(shapes, r, k).subset_of(r.union(carried(shapes))),
    decreases k,
{
    if k > 0 {
        let w = widen(shapes, r);
        lemma_reached_bounds(shapes, w, (k - 1) as nat);
        assert forall|x: Seq<char>| w.contains(x) implies r.union(carried(shapes)).contains(x) by {
            if !r.contains(x) {
                let i = choose|i: int| 0 <= i < shapes.len() && joins(shapes, r, i) && shapes[i].id == Some(x);
                assert(carried(shapes).contains(x));
            }
        }
    }
}

/// Until the rounds come to rest, each one adds an id.
proof fn lemma_reached_counts(shapes: Seq<ShapeView>, r: Set<Seq<char>>, k: nat)
    requires
        widen(shapes, reached(shapes, r, k)) != reached(shapes, r, k),
    ensures
        reached(shapes, r, k).difference(r).finite(),
        reached(shapes, r, k).difference(r).len() >= k,
    decreases k,
{
    let rk = reached(shapes, r, k);
    lemma_carried_len(shapes);
    lemma_reached_bounds(shapes, r, k);
    vstd::set_lib::lemma_len_subset(rk.difference(r), carried(shapes));
    if k > 0 {
        let prev = reached(shapes, r, (k - 1) as nat);
        lemma_reached_step(shapes, r, (k - 1) as nat);
        if widen(shapes, prev) == prev {
            assert(rk == prev);
            assert(false);
        }
        lemma_reached_counts(shapes, r, (k - 1) as nat);
        assert(exists|e: Seq<char>| widen(shapes, prev).contains(e) && !prev.contains(e)) by {
            if !(exists|e: Seq<char>| widen(shapes, prev).contains(e) && !prev.contains(e)) {
                assert(widen(shapes, prev) =~= prev);
            }
        }
        let e = choose|e: Seq<char>| widen(shapes, prev).contains(e) && !prev.contains(e);
        lemma_reached_bounds(shapes, r, (k - 1) as nat);
        let before = prev.difference(r);
        assert forall|x: Seq<char>| before.insert(e).contains(x) implies rk.difference(r).contains(x) by {
            assert(widen(shapes, prev).contains(x));
        }
        vstd::set::axiom_set_insert_len(before, e);
        vstd::set_lib::lemma_len_subset(before.insert(e), rk.difference(r));
    }
}

/// The rounds are enough: as many rounds as there are shapes reach every
/// shape inside the affected ones, at any depth, so that one more round
/// adds nothing.
pub proof fn lemma_reached_closed(shapes: Seq<ShapeView>, r: Set<Seq<char>>)
    ensures
        widen(shapes, reached(shapes, r, shapes.len())) == reached(shapes, r, shapes.len()),
{
    let n = shapes.len();
    let rn = reached(shapes, r, n);
    if widen(shapes, rn) != rn {
        lemma_reached_counts(shapes, r, n);
        lemma_carried_len(shapes);
        lemma_reached_bounds(shapes, r, n);
        lemma_reached_step(shapes, r, n);
        lemma_reached_bounds(shapes, r, n + 1);
        assert(exists|e: Seq<char>| widen(shapes, rn).contains(e) && !rn.contains(e)) by {
            if !(exists|e: Seq<char>| widen(shapes, rn).contains(e) && !rn.contains(e)) {
                assert(widen(shapes, rn) =~= rn);
            }
        }
        let e = choose|e: Seq<char>| widen(shapes, rn).contains(e) && !rn.contains(e);
        let d = rn.difference(r);
        assert forall|x: Seq<char>| d.insert(e).contains(x) implies carried(shapes).contains(x) by {
            assert(reached(shapes, r, n + 1).contains(x));
        }
        vstd::set::axiom_set_insert_len(d, e);
        vstd::set_lib::lemma_len_subset(d.insert(e), carried(shapes));
    }
}

/// What an end of `s` is bound to.
pub open spec fn bound_to(s: ShapeView, end: End) -> Option<Seq<char>> {
    attr_value(s.attrs, binding_of(end))
}

/// Whether `x` is present and among `r`.
pub open spec fn among(x: Option<Seq<char>>, r: Set<Seq<char>>) -> bool {
    x matches Some(v) && r.contains(v)
}

/// Whether `s` is an arrow to settle once `r` has moved: a connector with
/// an id, bound at an end, that is itself among `r` or bound to a shape
/// among `r`.
pub open spec fn settles(s: ShapeView, r: Set<Seq<char>>) -> bool {
    &&& connects(s)
    &&& s.id is Some
    &&& (bound_to(s, End::From) is Some || bound_to(s, End::To) is Some)
    &&& (among(s.id, r) || among(bound_to(s, End::From), r) || among(bound_to(s, End::To), r))
}

/// The ids of the first `n` shapes that settle once `r` has moved, in
/// paint order.
pub open spec fn settling(shapes: Seq<ShapeView>, r: Set<Seq<char>>, n: nat) -> Seq<Seq<char>>
    decreases n,
{
    if n == 0 || n > shapes.len() {
        Seq::empty()
    } else {
        let head = settling(shapes, r, (n - 1) as nat);
        if settles(shapes[n - 1], r) {
            head.push(shapes[n - 1].id->0)
        } else {
            head
        }
    }
}

/// The arrows a gesture on `affected` disturbs: the ids of the
/// connectors that settle once the affected shapes, and every shape as
/// many steps of membership inside them as there are shapes, have moved.
pub open spec fn arrows_for(shapes: Seq<ShapeView>, affected: Seq<Seq<char>>) -> Seq<Seq<char>> {
    settling(shapes, reached(shapes, affected.to_set(), shapes.len()), shapes.len())
}

/// A string pushed onto a list joins its names.
proof fn lemma_names_push(v: Seq<String>, s: String)
    ensures
        names(v.push(s)) == names(v).insert(s@),
{
    let old = v.map_values(|x: String| x@);
    let new = v.push(s).map_values(|x: String| x@);
    assert(new =~= old.push(s@));
    assert forall|a: Seq<char>| new.contains(a) <==> (old.contains(a) || a == s@) by {
        if new.contains(a) {
            let k = choose|k: int| 0 <= k < new.len() && new[k] == a;
            if k < old.len() {
                assert(old[k] == a);
            }
        }
        if old.contains(a) {
            let k = choose|k: int| 0 <= k < old.len() && old[k] == a;
            assert(new[k] == a);
        }
        if a == s@ {
            assert(new[old.len() as int] == a);
        }
    }
    assert(names(v.push(s)) =~= names(v).insert(s@));
}

/// Whether `v` holds `s`.
fn holds(v: &Vec<String>, s: &str) -> (r: bool)
    ensures
        r == names(v@).contains(s@),
{
    let ghost vv = v@.map_values(|x: String| x@);
    let mut i: usize = 0;
    while i < v.len()
        invariant
            i <= v@.len(),
            vv == v@.map_values(|x: String| x@),
            forall|j: int| 0 <= j < i ==> vv[j] != s@,
        decreases v@.len() - i,
    {
        if crate::text::str_eq(v[i].as_str(), s) {
            assert(vv[i as int] == s@);
            assert(vv.contains(s@));
            return true;
        }
        i += 1;
    }
    assert(!vv.contains(s@));
    false
}

/// Whether `x` is present and `v` holds it.
fn holds_opt(v: &Vec<String>, x: Option<&str>) -> (r: bool)
    ensures
        r == among(opt_str_view(x), names(v@)),
{
    match x {
        Some(s) => holds(v, s),
        None => false,
    }
}

/// A copy of a list of strings.
fn copied(v: &Vec<String>) -> (r: Vec<String>)
    ensures
        r@.map_values(|x: String| x@) == v@.map_values(|x: String| x@),
{
    let mut out: Vec<String> = Vec::new();
    let mut i: usize = 0;
    while i < v.len()
        invariant
            i <= v@.len(),
            out@.map_values(|x: String| x@) == v@.subrange(0, i as int).map_values(|x: String| x@),
        decreases v@.len() - i,
    {
        out.push(v[i].clone());
        assert(v@.subrange(0, i + 1).map_values(|x: String| x@) =~= v@.subrange(
            0,
            i as int,
        ).map_values(|x: String| x@).push(v@[i as int]@));
        i += 1;
    }
    assert(v@.subrange(0, v@.len() as int) =~= v@);
    out
}

/// `cur` widened once over `shapes`.
fn widened_once(shapes: &[Shape], cur: &Vec<String>) -> (r: (Vec<String>, bool))
    ensures
        names(r.0@) == widen(shapes_view(shapes@), names(cur@)),
        !r.1 ==> names(r.0@) == names(cur@),
{
    let ghost sv = shapes_view(shapes@);
    let ghost base = names(cur@);
    let mut next = copied(cur);
    let mut grew = false;
    let mut i: usize = 0;
    while i < shapes.len()
        invariant
            sv == shapes_view(shapes@),
            base == names(cur@),
            i <= shapes@.len(),
            names(next@) == base.union(
                Set::new(
                    |x: Seq<char>|
                        exists|j: int| 0 <= j < i && joins(sv, base, j) && sv[j].id == Some(x),
                ),
            ),
            !grew ==> names(next@) == base,
        decreases shapes@.len() - i,
    {
        let ghost prev = Set::new(
            |x: Seq<char>| exists|j: int| 0 <= j < i && joins(sv, base, j) && sv[j].id == Some(x),
        );
        let ghost now = Set::new(
            |x: Seq<char>| exists|j: int| 0 <= j < i + 1 && joins(sv, base, j) && sv[j].id == Some(x),
        );
        assert(sv[i as int] == shapes@[i as int]@);
        let s = &shapes[i];
        let mut joined = false;
        if let (Some(x), Some(y)) = (&s.id, &s.group) {
            if holds(cur, y.as_str()) {
                proof {
                    lemma_find_shape(sv, y@);
                }
                if let Some(g) = index_named(shapes, y.as_str()) {
                    assert(sv[g as int] == shapes@[g as int]@);
                    if shapes[g].kind == ShapeKind::Group {
                        joined = true;
                        assert(joins(sv, base, i as int));
                        if !holds(&next, x.as_str()) {
                            let ghost old_next = next@;
                            next.push(x.clone());
                            grew = true;
                            proof {
                                lemma_names_push(old_next, next@.last());
                                assert(next@ == old_next.push(next@.last()));
                            }
                        }
                    }
                }
            }
        }
        proof {
            if joined {
                let xv = sv[i as int].id->0;
                assert(now =~= prev.insert(xv)) by {
                    assert forall|z: Seq<char>| now.contains(z) implies prev.insert(xv).contains(z) by {
                        let j = choose|j: int| 0 <= j < i + 1 && joins(sv, base, j) && sv[j].id == Some(z);
                        if j < i {
                            assert(prev.contains(z));
                        }
                    }
                    assert forall|z: Seq<char>| prev.insert(xv).contains(z) implies now.contains(z) by {
                        if z == xv {
                            assert(0 <= i < i + 1 && joins(sv, base, i as int) && sv[i as int].id == Some(z));
                        } else {
                            let j = choose|j: int| 0 <= j < i && joins(sv, base, j) && sv[j].id == Some(z);
                            assert(0 <= j < i + 1);
                        }
                    }
                }
                assert(names(next@) =~= base.union(now));
            } else {
                assert(!joins(sv, base, i as int));
                assert(now =~= prev) by {
                    assert forall|z: Seq<char>| now.contains(z) implies prev.contains(z) by {
                        let j = choose|j: int| 0 <= j < i + 1 && joins(sv, base, j) && sv[j].id == Some(z);
                        assert(j != i);
                    }
                }
            }
        }
        i += 1;
    }
    (next, grew)
}

/// The ids of `affected` and of every shape inside them, as far as
/// `shapes.len()` steps of membership reach.
fn reached_ids(shapes: &[Shape], affected: &[&str]) -> (r: Vec<String>)
    ensures
        names(r@) == reached(shapes_view(shapes@), ids_view(affected@).to_set(), shapes@.len() as nat),
{
    let ghost sv = shapes_view(shapes@);
    let mut cur: Vec<String> = Vec::new();
    let mut k: usize = 0;
    while k < affected.len()
        invariant
            k <= affected@.len(),
            cur@.map_values(|x: String| x@) == ids_view(affected@).subrange(0, k as int),
        decreases affected@.len() - k,
    {
        let ghost old_cur = cur@;
        cur.push(crate::text::owned(affected[k]));
        assert(cur@.map_values(|x: String| x@) =~= old_cur.map_values(|x: String| x@).push(
            affected@[k as int]@,
        ));
        assert(ids_view(affected@).subrange(0, k + 1) =~= ids_view(affected@).subrange(
            0,
            k as int,
        ).push(affected@[k as int]@));
        k += 1;
    }
    assert(ids_view(affected@).subrange(0, affected@.len() as int) =~= ids_view(affected@));
    let mut round: usize = 0;
    while round < shapes.len()
        invariant
            sv == shapes_view(shapes@),
            round <= shapes@.len(),
            reached(sv, names(cur@), (shapes@.len() - round) as nat) == reached(
                sv,
                ids_view(affected@).to_set(),
                shapes@.len() as nat,
            ),
        decreases shapes@.len() - round,
    {
        let (next, grew) = widened_once(shapes, &cur);
        if !grew {
            proof {
                lemma_reached_still(sv, names(cur@), (shapes@.len() - round) as nat);
            }
            return cur;
        }
        cur = next;
        round += 1;
    }
    cur
}

/// The arrows a gesture on `affected` disturbs, in paint order: each
/// connector with an id, bound at an end, that is among the affected
/// shapes or inside one of them, or bound to one that is.
pub fn arrows_reached(shapes: &[Shape], affected: &[&str]) -> (r: Vec<String>)
    ensures
        r@.map_values(|x: String| x@) == arrows_for(shapes_view(shapes@), ids_view(affected@)),
{
    let ghost sv = shapes_view(shapes@);
    let reached = reached_ids(shapes, affected);
    let ghost rs = names(reached@);
    let mut out: Vec<String> = Vec::new();
    let mut i: usize = 0;
    while i < shapes.len()
        invariant
            sv == shapes_view(shapes@),
            rs == names(reached@),
            i <= shapes@.len(),
            out@.map_values(|x: String| x@) == settling(sv, rs, i as nat),
        decreases shapes@.len() - i,
    {
        let s = &shapes[i];
        assert(sv[i as int] == s@);
        let from = s.attr(End::From.binding());
        let to = s.attr(End::To.binding());
        let mut settle = false;
        if let Some(id) = &s.id {
            if is_connector(s) && (from.is_some() || to.is_some()) {
                settle = holds(&reached, id.as_str()) || holds_opt(&reached, from) || holds_opt(
                    &reached,
                    to,
                );
            }
        }
        let ghost old_out = out@;
        if settle {
            match &s.id {
                Some(id) => {
                    out.push(id.clone());
                    assert(out@.map_values(|x: String| x@) =~= old_out.map_values(|x: String| x@).push(id@));
                },
                None => {},
            }
        }
        i += 1;
    }
    out
}

} // verus!
