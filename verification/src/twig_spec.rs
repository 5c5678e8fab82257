//! What the editor believes of twig: the one place where the crate calls
//! it. twig's `Editor` is a span-splice editor over a document's bytes
//! with an undo history; here it is named by what it holds — its text, its
//! undo steps and its redo steps — and each operation the drawing makes is
//! stated over those names, as twig's documentation and source describe it.
//!
//! Two things are left unsaid throughout. Whether an edit succeeds is
//! twig's to say: besides refusing a locator, a range or a result that no
//! longer parses, it fails when it cannot allocate, which depends on the
//! machine, so success is not given a name. And where twig cannot allocate
//! the record of an undo step it keeps no step; the clauses below state
//! the step an edit records when that allocation succeeds.
//!
//! What an operation writes that takes pages to say — where twig puts an
//! inserted element, how it spells a changed attribute, the flat node list
//! of a text — is named, not restated: the same arguments give the same
//! bytes, and nothing here claims more of them.

use vstd::prelude::*;
use vstd::utf8::encode_utf8;

use crate::shape::attrs_view;
use crate::style::Span;
use crate::tree::{Node, NodeKind};

verus! {

#[verifier::external_type_specification]
#[verifier::external_body]
pub struct ExEditor(twig::Editor);

#[verifier::external_type_specification]
#[verifier::external_body]
pub struct ExTwigError(twig::Error);

#[verifier::external_type_specification]
#[verifier::external_body]
pub struct ExFlatNode(twig::FlatNode);

#[verifier::external_type_specification]
#[verifier::external_body]
pub struct ExKind(twig::Kind);

/// The bytes an editor holds.
pub uninterp spec fn editor_text(e: twig::Editor) -> Seq<u8>;

/// The texts its undo steps go back to, oldest first: the last
/// `UNDO_CAP` or so, since twig drops the oldest step once it holds that
/// many (see `recorded`).
pub uninterp spec fn editor_undo(e: twig::Editor) -> Seq<Seq<u8>>;

/// The texts its redo steps go forward to, the next last.
pub uninterp spec fn editor_redo(e: twig::Editor) -> Seq<Seq<u8>>;

/// The flat node list twig reads out of a text opened as SVG.
pub uninterp spec fn flat_nodes(text: Seq<u8>) -> Seq<Node>;

/// The text after `set_node_attrs` gives node `node` the attributes
/// `attrs`.
pub uninterp spec fn attrs_written(
    text: Seq<u8>,
    node: u32,
    attrs: Seq<(Seq<char>, Option<Seq<char>>)>,
) -> Seq<u8>;

/// The text after `insert_after` puts `markup` after the node `locator`
/// names.
pub uninterp spec fn inserted_after(text: Seq<u8>, locator: Seq<char>, markup: Seq<char>) -> Seq<u8>;

/// The text after `insert_child` puts `markup` as child `index` of the
/// node `locator` names.
pub uninterp spec fn inserted_child(
    text: Seq<u8>,
    locator: Seq<char>,
    index: usize,
    markup: Seq<char>,
) -> Seq<u8>;

/// The text after `delete` takes out the node `locator` names.
pub uninterp spec fn deleted(text: Seq<u8>, locator: Seq<char>) -> Seq<u8>;

/// The text after `move_before` moves the node `locator` names to just
/// before the one `anchor` names.
pub uninterp spec fn moved_before(text: Seq<u8>, locator: Seq<char>, anchor: Seq<char>) -> Seq<u8>;

/// The text after `move_after` moves the node `locator` names to just
/// after the one `anchor` names.
pub uninterp spec fn moved_after(text: Seq<u8>, locator: Seq<char>, anchor: Seq<char>) -> Seq<u8>;

/// Whether two editors hold the same text and history.
pub open spec fn same_editor(a: twig::Editor, b: twig::Editor) -> bool {
    &&& editor_text(a) == editor_text(b)
    &&& editor_undo(a) == editor_undo(b)
    &&& editor_redo(a) == editor_redo(b)
}

/// How many undo steps twig keeps (`MAX_UNDO` in its splicer): past it,
/// the oldest step is dropped.
pub const UNDO_CAP: usize = 200;

/// The undo steps after an edit of text `t` records its step: `t` pushed,
/// and, when `undo` already held `UNDO_CAP` steps or more, the oldest
/// dropped.
pub open spec fn recorded(undo: Seq<Seq<u8>>, t: Seq<u8>) -> Seq<Seq<u8>> {
    if undo.len() < UNDO_CAP {
        undo.push(t)
    } else {
        undo.drop_first().push(t)
    }
}

/// A successful edit of `before` to `text`: one undo step back to the old
/// text, recorded as twig records it, and the redo steps gone.
pub open spec fn edited(before: twig::Editor, after: twig::Editor, text: Seq<u8>) -> bool {
    &&& editor_text(after) == text
    &&& editor_undo(after) == recorded(editor_undo(before), editor_text(before))
    &&& editor_redo(after) == Seq::<Seq<u8>>::empty()
}

/// `twig::Editor::new_str` over SVG: an editor over a copy of `source`,
/// with no history. An error when twig cannot parse it.
#[verifier::external_body]
pub fn editor_open(source: &str) -> (r: Result<twig::Editor, twig::Error>)
    ensures
        r matches Ok(e) ==> editor_text(e) == encode_utf8(source@) && editor_undo(e)
            == Seq::<Seq<u8>>::empty() && editor_redo(e) == Seq::<Seq<u8>>::empty(),
{
    twig::Editor::new_str(source, twig::Format::Svg)
}

/// An element's kind as the editor reads it.
#[verifier::external_body]
fn kind_of(k: &twig::Kind) -> NodeKind {
    match k {
        twig::Kind::Doc => NodeKind::Doc,
        twig::Kind::Container => NodeKind::Container,
        twig::Kind::Str => NodeKind::Str,
        _ => NodeKind::Other,
    }
}

/// A `twig::FlatNode` as plain values.
#[verifier::external_body]
fn node_of(n: &twig::FlatNode) -> Node {
    Node {
        id: n.id.0,
        parent: n.parent.map(|p| p.0),
        first_child: n.first_child.map(|p| p.0),
        next_sibling: n.next_sibling.map(|p| p.0),
        span: Span { start: n.span.start, end: n.span.end },
        content_span: n.content_span.clone().map(|c| Span { start: c.start, end: c.end }),
        kind: kind_of(&n.kind),
        name: n.name.clone(),
        text: n.text.clone(),
        attrs: n.attrs.clone(),
    }
}

/// `twig::Editor::nodes`: the flat tree of the current text, as plain
/// values. Reading it changes nothing.
#[verifier::external_body]
pub fn editor_nodes(e: &mut twig::Editor) -> (r: Result<Vec<Node>, twig::Error>)
    ensures
        same_editor(*final(e), *old(e)),
        r matches Ok(v) ==> v@ == flat_nodes(editor_text(*old(e))),
{
    e.nodes().map(|v| v.iter().map(node_of).collect())
}

/// `twig::Editor::source_str`: the current text, as a `String` — whose
/// length in bytes, like any `String`'s, is a `usize`. Reading it changes
/// nothing.
#[verifier::external_body]
pub fn editor_source(e: &mut twig::Editor) -> (r: Result<String, twig::Error>)
    ensures
        same_editor(*final(e), *old(e)),
        r matches Ok(s) ==> encode_utf8(s@) == editor_text(*old(e)),
        r matches Ok(s) ==> encode_utf8(s@).len() <= usize::MAX,
{
    e.source_str()
}

/// Whether node `id` of `nodes` is there and has attributes.
pub open spec fn has_attrs(nodes: Seq<Node>, id: u32) -> bool {
    crate::tree::node_at(nodes, id) matches Some(n) && n.attrs@.len() > 0
}

/// `twig::Editor::set_node_attrs`: node `node`'s attributes become
/// `attrs`, as one undo step; a failed edit changes nothing. Setting no
/// attributes on an element that has none writes nothing and records no
/// step (twig returns before splicing when there is neither an attribute
/// run to replace nor one to insert).
#[verifier::external_body]
pub fn editor_set_attrs(e: &mut twig::Editor, node: u32, attrs: &Vec<(String, Option<String>)>) -> (r: Result<(), twig::Error>)
    ensures
        r is Ok && (attrs@.len() > 0 || has_attrs(flat_nodes(editor_text(*old(e))), node)) ==> edited(
            *old(e),
            *final(e),
            attrs_written(editor_text(*old(e)), node, attrs_view(attrs@)),
        ),
        r is Ok ==> edited(
            *old(e),
            *final(e),
            attrs_written(editor_text(*old(e)), node, attrs_view(attrs@)),
        ) || same_editor(*final(e), *old(e)),
        r is Err ==> same_editor(*final(e), *old(e)),
{
    let borrowed: Vec<(&str, Option<&str>)> = attrs.iter().map(|(k, v)| (k.as_str(), v.as_deref())).collect();
    e.set_node_attrs(twig::NodeId(node), &borrowed).map(|_| ())
}

/// `twig::Editor::edit_range`: bytes `start..end` replaced by `text`, as
/// one undo step; an error, changing nothing, when the range is not in
/// the text or the result no longer parses.
#[verifier::external_body]
pub fn editor_edit_range(e: &mut twig::Editor, start: usize, end: usize, text: &str) -> (r: Result<(), twig::Error>)
    ensures
        r is Ok ==> start <= end <= editor_text(*old(e)).len() && edited(
            *old(e),
            *final(e),
            editor_text(*old(e)).subrange(0, start as int) + encode_utf8(text@) + editor_text(
                *old(e),
            ).subrange(end as int, editor_text(*old(e)).len() as int),
        ),
        r is Err ==> same_editor(*final(e), *old(e)),
{
    e.edit_range(start, end, text).map(|_| ())
}

/// `twig::Editor::insert_after`, as one undo step; a failed edit changes
/// nothing.
#[verifier::external_body]
pub fn editor_insert_after(e: &mut twig::Editor, locator: &str, text: &str) -> (r: Result<(), twig::Error>)
    ensures
        r is Ok ==> edited(*old(e), *final(e), inserted_after(editor_text(*old(e)), locator@, text@)),
        r is Err ==> same_editor(*final(e), *old(e)),
{
    e.insert_after(locator, text)
}

/// `twig::Editor::insert_child`, as one undo step; a failed edit changes
/// nothing.
#[verifier::external_body]
pub fn editor_insert_child(e: &mut twig::Editor, locator: &str, index: usize, text: &str) -> (r: Result<(), twig::Error>)
    ensures
        r is Ok ==> edited(
            *old(e),
            *final(e),
            inserted_child(editor_text(*old(e)), locator@, index, text@),
        ),
        r is Err ==> same_editor(*final(e), *old(e)),
{
    e.insert_child(locator, index, text)
}

/// `twig::Editor::delete`, as one undo step; a failed edit changes
/// nothing.
#[verifier::external_body]
pub fn editor_delete(e: &mut twig::Editor, locator: &str) -> (r: Result<(), twig::Error>)
    ensures
        r is Ok ==> edited(*old(e), *final(e), deleted(editor_text(*old(e)), locator@)),
        r is Err ==> same_editor(*final(e), *old(e)),
{
    e.delete(locator)
}

/// `twig::Editor::move_before`, as one undo step; a failed edit changes
/// nothing.
#[verifier::external_body]
pub fn editor_move_before(e: &mut twig::Editor, locator: &str, anchor: &str) -> (r: Result<(), twig::Error>)
    ensures
        r is Ok ==> edited(*old(e), *final(e), moved_before(editor_text(*old(e)), locator@, anchor@)),
        r is Err ==> same_editor(*final(e), *old(e)),
{
    e.move_before(locator, anchor)
}

/// `twig::Editor::move_after`, as one undo step; a failed edit changes
/// nothing.
#[verifier::external_body]
pub fn editor_move_after(e: &mut twig::Editor, locator: &str, anchor: &str) -> (r: Result<(), twig::Error>)
    ensures
        r is Ok ==> edited(*old(e), *final(e), moved_after(editor_text(*old(e)), locator@, anchor@)),
        r is Err ==> same_editor(*final(e), *old(e)),
{
    e.move_after(locator, anchor)
}

/// `twig::Editor::undo`: `true` when a step was undone — the text goes
/// back to the last undo step's, which moves to the redo steps — and
/// `false`, changing nothing, exactly when there is nothing to undo (twig
/// documents `None` as "nothing to undo"). When it fails is twig's to say.
#[verifier::external_body]
pub fn editor_undo_step(e: &mut twig::Editor) -> (r: Result<bool, twig::Error>)
    ensures
        editor_undo(*old(e)).len() == 0 ==> (r matches Ok(false)),
        r matches Ok(b) ==> b == (editor_undo(*old(e)).len() > 0),
        r == Ok::<bool, twig::Error>(false) ==> same_editor(*final(e), *old(e)),
        r == Ok::<bool, twig::Error>(true) ==> editor_undo(*old(e)).len() > 0,
        r == Ok::<bool, twig::Error>(true) ==> editor_text(*final(e)) == editor_undo(*old(e)).last(),
        r == Ok::<bool, twig::Error>(true) ==> editor_undo(*final(e)) == editor_undo(*old(e)).drop_last(),
        r == Ok::<bool, twig::Error>(true) ==> editor_redo(*final(e)) == editor_redo(*old(e)).push(
            editor_text(*old(e)),
        ),
{
    e.undo().map(|c| c.is_some())
}

/// `twig::Editor::redo`: `true` when a step was redone — the text goes
/// forward to the last redo step's, and the text it left becomes an undo
/// step again — and `false`, changing nothing, exactly when the redo
/// steps are empty (twig documents `None` as "the redo stack is empty").
/// When it fails is twig's to say.
#[verifier::external_body]
pub fn editor_redo_step(e: &mut twig::Editor) -> (r: Result<bool, twig::Error>)
    ensures
        editor_redo(*old(e)).len() == 0 ==> (r matches Ok(false)),
        r matches Ok(b) ==> b == (editor_redo(*old(e)).len() > 0),
        r == Ok::<bool, twig::Error>(false) ==> same_editor(*final(e), *old(e)),
        r == Ok::<bool, twig::Error>(true) ==> editor_redo(*old(e)).len() > 0,
        r == Ok::<bool, twig::Error>(true) ==> editor_text(*final(e)) == editor_redo(*old(e)).last(),
        r == Ok::<bool, twig::Error>(true) ==> editor_redo(*final(e)) == editor_redo(*old(e)).drop_last(),
        r == Ok::<bool, twig::Error>(true) ==> editor_undo(*final(e)) == editor_undo(*old(e)).push(
            editor_text(*old(e)),
        ),
{
    e.redo().map(|c| c.is_some())
}

/// `twig::Editor::coalesce_last_undo`: the most recent undo step folded
/// into the one before it, so that one undo goes back past both; nothing
/// when there are fewer than two. It never fails: twig's
/// `twig_editor_coalesce_last` returns `ok` whatever the history.
#[verifier::external_body]
pub fn editor_coalesce(e: &mut twig::Editor) -> (r: Result<(), twig::Error>)
    ensures
        r is Ok,
        r is Ok ==> {
            &&& editor_text(*final(e)) == editor_text(*old(e))
            &&& editor_redo(*final(e)) == editor_redo(*old(e))
            &&& editor_undo(*final(e)) == if editor_undo(*old(e)).len() >= 2 {
                editor_undo(*old(e)).drop_last()
            } else {
                editor_undo(*old(e))
            }
        },
{
    e.coalesce_last_undo()
}

} // verus!
