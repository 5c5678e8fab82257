//! The document around the shapes, read off twig's flat tree: where the
//! root element is, how twig names a node by its place, which elements
//! are shapes among their siblings, the attribute list an update writes,
//! the next free `data-id`, and a line's indentation.

use vstd::prelude::*;

use crate::shape::{attr_index, attrs_view, opt_view};
use crate::text::{decimal, decimal_of, parse_u64, push_char, push_str, read_u64, str_eq, to_chars};
use crate::tree::{
    chain, children, children_of, chain_from, joined, node_at, node_index, shape_kind_of, Node,
    NodeKind, ShapeView,
};

verus! {

// ----- the root element -------------------------------------------------

/// The index of the first document node.
pub open spec fn first_doc(nodes: Seq<Node>) -> Option<int>
    decreases nodes.len(),
{
    if nodes.len() == 0 {
        None
    } else {
        match first_doc(nodes.drop_last()) {
            Some(i) => Some(i),
            None => if nodes.last().kind == NodeKind::Doc {
                Some(nodes.len() - 1)
            } else {
                None
            },
        }
    }
}

proof fn lemma_first_doc_prefix(nodes: Seq<Node>, i: int)
    requires
        0 <= i < nodes.len(),
        nodes[i].kind == NodeKind::Doc,
        first_doc(nodes.subrange(0, i)) is None,
    ensures
        first_doc(nodes) == Some(i),
    decreases nodes.len(),
{
    if i < nodes.len() - 1 {
        assert(nodes.drop_last().subrange(0, i) =~= nodes.subrange(0, i));
        lemma_first_doc_prefix(nodes.drop_last(), i);
    } else {
        assert(nodes.drop_last() =~= nodes.subrange(0, i));
    }
}

pub proof fn lemma_first_doc(nodes: Seq<Node>)
    ensures
        first_doc(nodes) matches Some(i) ==> 0 <= i < nodes.len() && nodes[i].kind
            == NodeKind::Doc,
    decreases nodes.len(),
{
    if nodes.len() > 0 {
        lemma_first_doc(nodes.drop_last());
    }
}

/// The index of the first document node.
pub fn doc_index(nodes: &Vec<Node>) -> (r: Option<usize>)
    ensures
        (match r {
            Some(i) => Some(i as int),
            None => None,
        }) == first_doc(nodes@),
{
    let mut i: usize = 0;
    while i < nodes.len()
        invariant
            i <= nodes@.len(),
            first_doc(nodes@.subrange(0, i as int)) is None,
        decreases nodes@.len() - i,
    {
        assert(nodes@.subrange(0, i + 1).drop_last() =~= nodes@.subrange(0, i as int));
        if nodes[i].kind == NodeKind::Doc {
            proof {
                lemma_first_doc_prefix(nodes@, i as int);
            }
            return Some(i);
        }
        i += 1;
    }
    assert(nodes@.subrange(0, nodes@.len() as int) =~= nodes@);
    None
}

/// The first of the nodes `ids` that is an element.
pub open spec fn first_element(nodes: Seq<Node>, ids: Seq<u32>) -> Option<u32>
    decreases ids.len(),
{
    if ids.len() == 0 {
        None
    } else if node_at(nodes, ids[0]) matches Some(n) && n.kind == NodeKind::Container {
        Some(ids[0])
    } else {
        first_element(nodes, ids.drop_first())
    }
}

/// The tag `svg`.
pub open spec fn svg_tag() -> Seq<char> {
    seq!['s', 'v', 'g']
}

/// The document element: the first element among the document node's
/// children — a prolog, a comment or a doctype before it is fine — when
/// it is an `<svg>`.
pub open spec fn root_of(nodes: Seq<Node>) -> Option<u32> {
    match first_doc(nodes) {
        None => None,
        Some(d) => match first_element(nodes, chain(nodes, nodes[d].first_child, nodes.len())) {
            None => None,
            Some(r) => if node_at(nodes, r) matches Some(n) && n.name matches Some(s) && s@
                == svg_tag() {
                Some(r)
            } else {
                None
            },
        },
    }
}

/// The root `<svg>` element of the tree, when the document element is one.
pub fn find_root(nodes: &Vec<Node>) -> (r: Option<u32>)
    ensures
        r == root_of(nodes@),
{
    proof {
        lemma_first_doc(nodes@);
    }
    let d = match doc_index(nodes) {
        Some(d) => d,
        None => return None,
    };
    let kids = chain_from(nodes, nodes[d].first_child);
    let ghost ids = kids@;
    assert(ids.skip(0) =~= ids);
    let mut j: usize = 0;
    while j < kids.len()
        invariant
            ids == kids@,
            d < nodes@.len(),
            first_doc(nodes@) == Some(d as int),
            ids == chain(nodes@, nodes@[d as int].first_child, nodes@.len() as nat),
            j <= kids@.len(),
            first_element(nodes@, ids) == first_element(nodes@, ids.skip(j as int)),
        decreases kids@.len() - j,
    {
        let id = kids[j];
        let ghost rest = ids.skip(j as int);
        assert(rest[0] == id);
        assert(rest.drop_first() =~= ids.skip(j + 1));
        if let Some(i) = node_index(nodes, id) {
            assert(node_at(nodes@, id) == Some(nodes@[i as int]));
            if nodes[i].kind == NodeKind::Container {
                assert(first_element(nodes@, rest) == Some(id));
                let svg = match &nodes[i].name {
                    Some(name) => {
                        proof {
                            reveal_strlit("svg");
                        }
                        let b = str_eq(name.as_str(), "svg");
                        assert("svg"@ =~= svg_tag());
                        b
                    },
                    None => false,
                };
                assert(first_element(nodes@, ids) == Some(id));
                assert(ids == chain(nodes@, nodes@[d as int].first_child, nodes@.len() as nat));
                assert(svg == (nodes@[i as int].name matches Some(s) && s@ == svg_tag()));
                return if svg {
                    Some(id)
                } else {
                    None
                };
            }
        }
        j += 1;
    }
    None
}

// ----- locators ---------------------------------------------------------

/// The place of `id` among `ids`: the number of ids before its first
/// occurrence, or all of them when it is not there.
pub open spec fn index_in(ids: Seq<u32>, id: u32) -> nat
    decreases ids.len(),
{
    if ids.len() == 0 {
        0
    } else if ids[0] == id {
        0
    } else {
        1 + index_in(ids.drop_first(), id)
    }
}

/// The place of `id` among `ids`.
pub fn position_of(ids: &Vec<u32>, id: u32) -> (r: usize)
    ensures
        r == index_in(ids@, id),
{
    position_in(ids, id)
}

/// The place of `id` among `ids`.
fn position_in(ids: &Vec<u32>, id: u32) -> (r: usize)
    ensures
        r == index_in(ids@, id),
{
    let mut j: usize = 0;
    assert(ids@.skip(0) =~= ids@);
    while j < ids.len()
        invariant
            j <= ids@.len(),
            index_in(ids@, id) == j + index_in(ids@.skip(j as int), id),
        decreases ids@.len() - j,
    {
        assert(ids@.skip(j as int)[0] == ids@[j as int]);
        if ids[j] == id {
            return j;
        }
        assert(ids@.skip(j as int).drop_first() =~= ids@.skip(j + 1));
        j += 1;
    }
    assert(ids@.skip(j as int) =~= Seq::<u32>::empty());
    j
}

/// The places of the nodes from the root down to `id`: each one's index
/// among all its parent's children, character runs included, for at most
/// `fuel` steps up.
pub open spec fn path_to(nodes: Seq<Node>, id: u32, fuel: nat) -> Seq<nat>
    decreases fuel,
{
    if fuel == 0 {
        Seq::empty()
    } else {
        match node_at(nodes, id) {
            None => Seq::empty(),
            Some(n) => match n.parent {
                None => Seq::empty(),
                Some(p) => path_to(nodes, p, (fuel - 1) as nat).push(
                    index_in(children(nodes, p), id),
                ),
            },
        }
    }
}

/// twig's index-path locator for a node: its path's places in decimal,
/// joined by `.`.
pub open spec fn locator_of(nodes: Seq<Node>, id: u32) -> Seq<char> {
    joined(path_to(nodes, id, nodes.len()).map_values(|k: nat| decimal(k)), seq!['.'])
}

/// twig's index-path locator for node `id`, fresh from this tree: valid
/// until the next edit.
pub fn locator(nodes: &Vec<Node>, id: u32) -> (r: String)
    ensures
        r@ == locator_of(nodes@, id),
{
    // The places, innermost first.
    let mut up: Vec<usize> = Vec::new();
    let mut current = id;
    let mut fuel = nodes.len();
    while fuel > 0
        invariant
            fuel <= nodes@.len(),
            path_to(nodes@, id, nodes@.len() as nat) == path_to(nodes@, current, fuel as nat)
                + up@.reverse().map_values(|k: usize| k as nat),
        ensures
            path_to(nodes@, current, fuel as nat) == Seq::<nat>::empty(),
        decreases fuel,
    {
        let ghost tail = up@.reverse().map_values(|k: usize| k as nat);
        let i = match node_index(nodes, current) {
            Some(i) => i,
            None => {
                assert(path_to(nodes@, current, fuel as nat) =~= Seq::<nat>::empty());
                break;
            },
        };
        assert(node_at(nodes@, current) == Some(nodes@[i as int]));
        let p = match nodes[i].parent {
            Some(p) => p,
            None => {
                assert(path_to(nodes@, current, fuel as nat) =~= Seq::<nat>::empty());
                break;
            },
        };
        let kids = children_of(nodes, p);
        let k = position_in(&kids, current);
        let ghost before = up@;
        up.push(k);
        assert(up@.reverse() =~= seq![k] + before.reverse());
        assert(up@.reverse().map_values(|k: usize| k as nat) =~= seq![k as nat] + tail);
        assert(path_to(nodes@, current, fuel as nat) == path_to(nodes@, p, (fuel - 1) as nat).push(
            k as nat,
        ));
        assert(path_to(nodes@, p, (fuel - 1) as nat).push(k as nat) + tail =~= path_to(
            nodes@,
            p,
            (fuel - 1) as nat,
        ) + (seq![k as nat] + tail));
        current = p;
        fuel -= 1;
    }
    let ghost path = path_to(nodes@, id, nodes@.len() as nat);
    assert(path == up@.reverse().map_values(|k: usize| k as nat)) by {
        assert(Seq::<nat>::empty() + up@.reverse().map_values(|k: usize| k as nat) =~= up@.reverse().map_values(
            |k: usize| k as nat,
        ));
    }
    let ghost parts = path.map_values(|k: nat| decimal(k));
    let mut r = String::new();
    let mut m: usize = 0;
    while m < up.len()
        invariant
            m <= up@.len(),
            path.len() == up@.len(),
            parts == path.map_values(|k: nat| decimal(k)),
            forall|q: int| 0 <= q < up@.len() ==> path[q] == up@[up@.len() - 1 - q] as nat,
            r@ == joined(parts.take(m as int), seq!['.']),
        decreases up@.len() - m,
    {
        let k = up[up.len() - 1 - m];
        let digits = decimal_of(k as u128);
        assert(digits@ == parts[m as int]);
        assert(parts.take(m + 1).drop_last() =~= parts.take(m as int));
        if m > 0 {
            push_char(&mut r, '.');
        }
        push_str(&mut r, digits.as_str());
        proof {
            if m == 0 {
                assert(r@ =~= parts.take(1)[0]);
            } else {
                assert(r@ =~= joined(parts.take(m as int), seq!['.']) + seq!['.'] + parts[m as int]);
            }
        }
        m += 1;
    }
    assert(parts.take(up@.len() as int) =~= parts);
    r
}

// ----- siblings ---------------------------------------------------------

/// Whether node `id` is a shape element.
pub open spec fn is_shape_node(nodes: Seq<Node>, id: u32) -> bool {
    node_at(nodes, id) matches Some(n) && shape_kind_of(n) is Some
}

/// The shape elements among the nodes `ids`, in order.
pub open spec fn shape_nodes(nodes: Seq<Node>, ids: Seq<u32>) -> Seq<u32>
    decreases ids.len(),
{
    if ids.len() == 0 {
        Seq::empty()
    } else if is_shape_node(nodes, ids.last()) {
        shape_nodes(nodes, ids.drop_last()).push(ids.last())
    } else {
        shape_nodes(nodes, ids.drop_last())
    }
}

/// The shape elements among a node's siblings, itself included, in source
/// order: what a reorder moves among. Nothing for a node without a parent.
pub open spec fn shape_siblings(nodes: Seq<Node>, node: u32) -> Seq<u32> {
    match node_at(nodes, node) {
        Some(n) => match n.parent {
            Some(p) => shape_nodes(nodes, children(nodes, p)),
            None => Seq::empty(),
        },
        None => Seq::empty(),
    }
}

/// Whether node `id` is a shape element.
fn shape_node(nodes: &Vec<Node>, id: u32) -> (r: bool)
    ensures
        r == is_shape_node(nodes@, id),
{
    match node_index(nodes, id) {
        Some(i) => match (&nodes[i].kind, &nodes[i].name) {
            (NodeKind::Container, Some(name)) => crate::shape::ShapeKind::from_tag(
                name.as_str(),
            ).is_some(),
            _ => false,
        },
        None => false,
    }
}

/// The shape elements among a node's siblings, itself included.
pub fn sibling_shapes(nodes: &Vec<Node>, node: u32) -> (r: Vec<u32>)
    ensures
        r@ == shape_siblings(nodes@, node),
{
    let mut out: Vec<u32> = Vec::new();
    let i = match node_index(nodes, node) {
        Some(i) => i,
        None => return out,
    };
    let p = match nodes[i].parent {
        Some(p) => p,
        None => return out,
    };
    let kids = children_of(nodes, p);
    let mut j: usize = 0;
    while j < kids.len()
        invariant
            j <= kids@.len(),
            out@ == shape_nodes(nodes@, kids@.take(j as int)),
        decreases kids@.len() - j,
    {
        assert(kids@.take(j + 1).drop_last() =~= kids@.take(j as int));
        if shape_node(nodes, kids[j]) {
            out.push(kids[j]);
        }
        j += 1;
    }
    assert(kids@.take(kids@.len() as int) =~= kids@);
    out
}

/// The last element among the nodes `ids`.
pub open spec fn last_element(nodes: Seq<Node>, ids: Seq<u32>) -> Option<u32>
    decreases ids.len(),
{
    if ids.len() == 0 {
        None
    } else if node_at(nodes, ids.last()) matches Some(n) && n.kind == NodeKind::Container {
        Some(ids.last())
    } else {
        last_element(nodes, ids.drop_last())
    }
}

/// The last element child of node `parent`.
pub fn last_element_child(nodes: &Vec<Node>, parent: u32) -> (r: Option<u32>)
    ensures
        r == last_element(nodes@, children(nodes@, parent)),
{
    let kids = children_of(nodes, parent);
    let mut last: Option<u32> = None;
    let mut j: usize = 0;
    while j < kids.len()
        invariant
            j <= kids@.len(),
            last == last_element(nodes@, kids@.take(j as int)),
        decreases kids@.len() - j,
    {
        assert(kids@.take(j + 1).drop_last() =~= kids@.take(j as int));
        if let Some(i) = node_index(nodes, kids[j]) {
            if nodes[i].kind == NodeKind::Container {
                last = Some(kids[j]);
            }
        }
        j += 1;
    }
    assert(kids@.take(kids@.len() as int) =~= kids@);
    last
}

// ----- attribute updates ------------------------------------------------

/// An attribute list with one update: the first attribute of that name
/// given the new value in place, or taken off for `None`; a name not
/// there appended, or nothing for `None`.
pub open spec fn merge_one(
    a: Seq<(Seq<char>, Option<Seq<char>>)>,
    u: (Seq<char>, Option<Seq<char>>),
) -> Seq<(Seq<char>, Option<Seq<char>>)> {
    match (attr_index(a, u.0), u.1) {
        (Some(i), Some(v)) => a.update(i, (a[i].0, Some(v))),
        (Some(i), None) => a.remove(i),
        (None, Some(v)) => a.push((u.0, Some(v))),
        (None, None) => a,
    }
}

/// An attribute list with the updates made in order.
pub open spec fn merged(
    a: Seq<(Seq<char>, Option<Seq<char>>)>,
    updates: Seq<(Seq<char>, Option<Seq<char>>)>,
) -> Seq<(Seq<char>, Option<Seq<char>>)>
    decreases updates.len(),
{
    if updates.len() == 0 {
        a
    } else {
        merge_one(merged(a, updates.drop_last()), updates.last())
    }
}

/// The index of the first attribute named `name`.
fn attr_position(attrs: &Vec<(String, Option<String>)>, name: &str) -> (r: Option<usize>)
    ensures
        (match r {
            Some(i) => Some(i as int),
            None => None,
        }) == attr_index(attrs_view(attrs@), name@),
{
    let ghost av = attrs_view(attrs@);
    let mut i: usize = 0;
    while i < attrs.len()
        invariant
            av == attrs_view(attrs@),
            i <= attrs@.len(),
            attr_index(av.subrange(0, i as int), name@) is None,
        decreases attrs@.len() - i,
    {
        assert(av.subrange(0, i + 1).drop_last() =~= av.subrange(0, i as int));
        if str_eq(attrs[i].0.as_str(), name) {
            proof {
                lemma_attr_prefix(av, name@, i as int);
            }
            return Some(i);
        }
        i += 1;
    }
    assert(av.subrange(0, attrs@.len() as int) =~= av);
    None
}

proof fn lemma_attr_prefix(a: Seq<(Seq<char>, Option<Seq<char>>)>, name: Seq<char>, i: int)
    requires
        0 <= i < a.len(),
        a[i].0 == name,
        attr_index(a.subrange(0, i), name) is None,
    ensures
        attr_index(a, name) == Some(i),
    decreases a.len(),
{
    if i < a.len() - 1 {
        assert(a.drop_last().subrange(0, i) =~= a.subrange(0, i));
        lemma_attr_prefix(a.drop_last(), name, i);
    } else {
        assert(a.drop_last() =~= a.subrange(0, i));
    }
}

/// `attrs` with `updates` made in order: a value replaced in place, a
/// name not yet present appended, one updated to `None` taken off.
pub fn merge_attrs(
    attrs: &Vec<(String, Option<String>)>,
    updates: &Vec<(String, Option<String>)>,
) -> (r: Vec<(String, Option<String>)>)
    ensures
        attrs_view(r@) == merged(attrs_view(attrs@), attrs_view(updates@)),
{
    let mut out = crate::tree::clone_attrs(attrs);
    let mut k: usize = 0;
    while k < updates.len()
        invariant
            k <= updates@.len(),
            attrs_view(out@) == merged(attrs_view(attrs@), attrs_view(updates@.take(k as int))),
        decreases updates@.len() - k,
    {
        let ghost before = attrs_view(out@);
        let ghost u = attrs_view(updates@)[k as int];
        assert(attrs_view(updates@.take(k + 1)).drop_last() =~= attrs_view(updates@.take(k as int)));
        assert(attrs_view(updates@.take(k + 1)).last() == u);
        let name = updates[k].0.as_str();
        proof {
            crate::shape::lemma_attr_index_bounds(attrs_view(out@), name@);
        }
        match (attr_position(&out, name), &updates[k].1) {
            (Some(at), Some(v)) => {
                let kept = out[at].0.clone();
                out.remove(at);
                out.insert(at, (kept, Some(v.clone())));
                assert(attrs_view(out@) =~= before.update(at as int, (before[at as int].0, Some(v@))));
            },
            (Some(at), None) => {
                out.remove(at);
                assert(attrs_view(out@) =~= before.remove(at as int));
            },
            (None, Some(v)) => {
                out.push((updates[k].0.clone(), Some(v.clone())));
                assert(attrs_view(out@) =~= before.push((u.0, Some(v@))));
            },
            (None, None) => {},
        }
        k += 1;
    }
    assert(updates@.take(updates@.len() as int) =~= updates@);
    out
}

// ----- ids ----------------------------------------------------------------

/// The number an `s<n>` id carries, or 0 for any other id.
pub open spec fn id_number(id: Option<Seq<char>>) -> nat {
    match id {
        Some(s) => if s.len() > 0 && s[0] == 's' && parse_u64(s.drop_first()) is Some {
            parse_u64(s.drop_first()).unwrap()
        } else {
            0
        },
        None => 0,
    }
}

/// The largest number among the shapes' `s<n>` ids, 0 when there is none.
pub open spec fn taken(shapes: Seq<ShapeView>) -> nat
    decreases shapes.len(),
{
    if shapes.len() == 0 {
        0
    } else {
        let n = id_number(shapes.last().id);
        let m = taken(shapes.drop_last());
        if n > m {
            n
        } else {
            m
        }
    }
}

/// The id `n` after the next free `s<n>` one: one past the largest, then
/// `n` more.
pub open spec fn minted(shapes: Seq<ShapeView>, n: nat) -> Seq<char> {
    seq!['s'] + decimal(taken(shapes) + 1 + n)
}

/// The number an id spells after its `s`.
fn number_of(id: &Option<String>) -> (r: u64)
    ensures
        r == id_number(opt_view(*id)),
{
    match id {
        Some(s) => {
            let cs = to_chars(s.as_str());
            if cs.len() > 0 && cs[0] == 's' {
                assert(cs@.subrange(1, cs@.len() as int) =~= s@.drop_first());
                match read_u64(cs.as_slice(), 1) {
                    Some(n) => n,
                    None => 0,
                }
            } else {
                0
            }
        },
        None => 0,
    }
}

/// The id `n` after the next free `s<n>` one among `shapes`, for a gesture
/// that mints several in one splice.
pub fn mint_id_after(shapes: &[crate::shape::Shape], n: u64) -> (r: String)
    ensures
        r@ == minted(crate::tree::shapes_view(shapes@), n as nat),
{
    let ghost sv = crate::tree::shapes_view(shapes@);
    let mut most: u64 = 0;
    let mut j: usize = 0;
    while j < shapes.len()
        invariant
            j <= shapes@.len(),
            sv == crate::tree::shapes_view(shapes@),
            most == taken(sv.take(j as int)),
        decreases shapes@.len() - j,
    {
        assert(sv.take(j + 1).drop_last() =~= sv.take(j as int));
        assert(sv[j as int].id == opt_view(shapes@[j as int].id));
        let k = number_of(&shapes[j].id);
        if k > most {
            most = k;
        }
        j += 1;
    }
    assert(sv.take(shapes@.len() as int) =~= sv);
    let digits = decimal_of(most as u128 + 1 + n as u128);
    let mut r = String::new();
    push_char(&mut r, 's');
    push_str(&mut r, digits.as_str());
    r
}

/// A digit is the character `0` to `9`, its code 48 past its value.
proof fn lemma_digit(d: nat)
    requires
        d < 10,
    ensures
        crate::text::digit(d) as u32 == d + 48,
        '0' <= crate::text::digit(d) <= '9',
{
    assert('0' as u32 == 48 && '1' as u32 == 49 && '2' as u32 == 50 && '3' as u32 == 51 && '4' as u32
        == 52 && '5' as u32 == 53 && '6' as u32 == 54 && '7' as u32 == 55 && '8' as u32 == 56 && '9' as u32
        == 57);
}

/// The digits of `n` read back as `n`.
pub proof fn lemma_decimal_value(n: nat)
    ensures
        crate::text::all_digits(decimal(n)),
        crate::text::digits_value(decimal(n)) == n,
        decimal(n).len() > 0,
        decimal(n)[0] != '+',
    decreases n,
{
    lemma_digit(n % 10);
    if n < 10 {
        let s = decimal(n);
        assert(s == seq![crate::text::digit(n)]);
        assert(s.drop_last() =~= Seq::<char>::empty());
        assert(crate::text::digits_value(s.drop_last()) == 0);
        assert(s.last() == crate::text::digit(n));
        assert(crate::text::digits_value(s) == crate::text::digits_value(s.drop_last()) * 10 + ((
        s.last() as u32) - 48) as nat);
    } else {
        lemma_decimal_value(n / 10);
        let d = decimal(n / 10);
        let s = d.push(crate::text::digit(n % 10));
        assert(s.drop_last() =~= d);
        assert(s[0] == d[0]);
        assert(decimal(n) == s);
        assert(s.last() == crate::text::digit(n % 10));
        assert(crate::text::digits_value(s) == crate::text::digits_value(d) * 10 + ((
        s.last() as u32) - 48) as nat);
        assert(crate::text::digits_value(s) == n) by (nonlinear_arith)
            requires
                crate::text::digits_value(s) == crate::text::digits_value(d) * 10 + n % 10,
                crate::text::digits_value(d) == n / 10,
        ;
    }
}

/// Every shape's `s<n>` number is at most the largest.
proof fn lemma_taken_bounds(shapes: Seq<ShapeView>, i: int)
    requires
        0 <= i < shapes.len(),
    ensures
        id_number(shapes[i].id) <= taken(shapes),
    decreases shapes.len(),
{
    if i < shapes.len() - 1 {
        lemma_taken_bounds(shapes.drop_last(), i);
        assert(shapes.drop_last()[i] == shapes[i]);
    }
}

/// A minted id is fresh: no shape carries it, so long as its number is
/// one a `u64` holds.
pub proof fn lemma_minted_is_fresh(shapes: Seq<ShapeView>, n: nat)
    requires
        taken(shapes) + 1 + n <= u64::MAX,
    ensures
        forall|i: int| 0 <= i < shapes.len() ==> shapes[i].id != Some(#[trigger] minted(shapes, n)),
{
    let m = taken(shapes) + 1 + n;
    lemma_decimal_value(m);
    let id = minted(shapes, n);
    assert(id.drop_first() =~= decimal(m));
    assert(crate::text::unsigned(decimal(m)) == decimal(m));
    assert(parse_u64(id.drop_first()) == Some(m));
    assert(id_number(Some(id)) == m);
    assert forall|i: int| 0 <= i < shapes.len() implies shapes[i].id != Some(
        #[trigger] minted(shapes, n),
    ) by {
        lemma_taken_bounds(shapes, i);
    }
}

// ----- indentation ------------------------------------------------------

/// Where the line holding byte `offset` begins: just past the last
/// newline before it, or 0.
pub open spec fn line_begin(b: Seq<u8>, offset: int) -> int
    decreases offset,
{
    if offset <= 0 {
        0
    } else if b[offset - 1] == 10 {
        offset
    } else {
        line_begin(b, offset - 1)
    }
}

/// Whether a byte is a space or a tab.
pub open spec fn is_blank(c: u8) -> bool {
    c == 32 || c == 9
}

/// The whitespace between the start of the line and byte `offset`, when
/// that is all the line holds so far — a node's indentation; nothing
/// otherwise.
pub open spec fn indent_at(b: Seq<u8>, offset: int) -> Seq<char> {
    let lb = line_begin(b, offset);
    if offset > b.len() {
        Seq::empty()
    } else if forall|i: int| lb <= i < offset ==> is_blank(#[trigger] b[i]) {
        b.subrange(lb, offset).map_values(|c: u8| if c == 32 {
            ' '
        } else {
            '\t'
        })
    } else {
        Seq::empty()
    }
}

proof fn lemma_line_begin(b: Seq<u8>, offset: int)
    requires
        0 <= offset <= b.len(),
    ensures
        0 <= line_begin(b, offset) <= offset,
        forall|i: int| line_begin(b, offset) <= i < offset ==> b[i] != 10,
        line_begin(b, offset) > 0 ==> b[line_begin(b, offset) - 1] == 10,
    decreases offset,
{
    if offset > 0 && b[offset - 1] != 10 {
        lemma_line_begin(b, offset - 1);
    }
}

/// The indentation before byte `offset` of `source`.
pub fn indent_before(source: &str, offset: usize) -> (r: String)
    ensures
        r@ == indent_at(vstd::utf8::encode_utf8(source@), offset as int),
{
    let b = source.as_bytes();
    let ghost bytes = vstd::utf8::encode_utf8(source@);
    if offset > b.len() {
        return String::new();
    }
    let mut lb = offset;
    while lb > 0 && b[lb - 1] != 10
        invariant
            lb <= offset <= b@.len(),
            b@ == bytes,
            line_begin(bytes, offset as int) == line_begin(bytes, lb as int),
        decreases lb,
    {
        lb -= 1;
    }
    let mut r = String::new();
    let mut i = lb;
    while i < offset
        invariant
            lb <= i <= offset <= b@.len(),
            b@ == bytes,
            bytes == vstd::utf8::encode_utf8(source@),
            lb == line_begin(bytes, offset as int),
            forall|q: int| lb <= q < i ==> is_blank(#[trigger] bytes[q]),
            r@ == bytes.subrange(lb as int, i as int).map_values(|c: u8| if c == 32 {
                ' '
            } else {
                '\t'
            }),
        decreases offset - i,
    {
        let c = b[i];
        if c == 32 {
            push_char(&mut r, ' ');
        } else if c == 9 {
            push_char(&mut r, '\t');
        } else {
            assert(!is_blank(bytes[i as int]));
            assert(lb == line_begin(bytes, offset as int));
            assert(!(forall|q: int| lb <= q < offset ==> is_blank(#[trigger] bytes[q])));
            return String::new();
        }
        assert(bytes.subrange(lb as int, i + 1).map_values(|c: u8| if c == 32 {
            ' '
        } else {
            '\t'
        }) =~= bytes.subrange(lb as int, i as int).map_values(|c: u8| if c == 32 {
            ' '
        } else {
            '\t'
        }).push(if c == 32 {
            ' '
        } else {
            '\t'
        }));
        i += 1;
    }
    r
}

} // verus!
