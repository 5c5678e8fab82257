//! The editor: a `twig::Editor` over the bytes, the flat tree and the shape
//! list read back after every edit, and the gestures. Each gesture is one
//! twig operation and so one undo step; undo is twig's, and the editor keeps
//! no second history.
//!
//! Every gesture addresses its node by a locator computed fresh from the
//! tree — twig's locators are index paths (`"4.3"`) that count every node,
//! character runs included, so one is only valid until the next edit.
//!
//! A gesture that has to be several twig operations — grouping shapes that
//! are not adjacent, deleting a selection, bringing a stylesheet's rules in
//! with the word that needs them — folds them into one undo step with
//! twig's `coalesce_last_undo`, counted by [`Steps`], so the promise above
//! holds from the outside.
//!
//! The state is its text: the tree, the root and the shapes are what twig
//! reads out of the bytes, so every contract here says what a gesture does
//! to the text, in twig's own operations on it.

use vstd::prelude::*;
use vstd::utf8::{decode_utf8, encode_utf8, is_char_boundary};

use crate::document::{
    find_root, locator, locator_of, merge_attrs, merged, root_of, shape_siblings, sibling_shapes,
};
use crate::connector::{binding_of, connects, End};
use crate::markup::{attrs_markup, escape, escaped, write_attributes};
use crate::shape::{attrs_view, opt_str_view, opt_view, Dash, Shape, ShapeKind};
use crate::style::{strings_view, widened, widened_for_paths, with_rules, with_rules_text, Span};
use crate::text::{push_char, push_str};
use crate::tree::{children, find_node, node_at, node_index, read, shapes_under, shapes_view, Node, ShapeView};
use crate::twig_spec::{
    deleted, edited, editor_coalesce, editor_delete, editor_move_after, editor_move_before,
    editor_nodes, editor_open, editor_redo, editor_redo_step, editor_set_attrs, editor_source,
    editor_text, editor_undo, editor_undo_step, flat_nodes, moved_after, moved_before,
    same_editor, attrs_written, has_attrs, inserted_after, inserted_child,
};

verus! {

/// Why a gesture or an open refused.
#[derive(Debug)]
pub enum DrawingError {
    /// The bytes are not XML twig can parse.
    Parse(twig::Error),
    /// Parsed, but the document element is not `<svg>`.
    NotSvg,
    /// No shape carries this `data-id`.
    NoSuchShape(String),
    /// The gesture is not defined for this shape: ungrouping what is not a
    /// `<g>`, binding or bending what is not a connector, dashing what is
    /// not stroked.
    Unsupported { gesture: &'static str, kind: ShapeKind },
    /// Grouping needs shapes with one parent: each in the same `<g>`, or
    /// each directly under `<svg>`.
    NotSiblings,
    /// twig refused the edit: the target's span is not editable — a
    /// self-closed `<svg/>` has no interior to insert into — or the edit
    /// would have produced a document that no longer parses and was rolled
    /// back.
    Edit(twig::Error),
}

/// Whether an error is one a gesture owes to twig, for the text `t` it
/// left: twig's own error — the text did not parse or could not be read,
/// an edit was refused, or twig could not allocate — carried as twig gave
/// it, or an edit twig accepted left a text with no `<svg>` root. Nothing
/// else: a gesture whose own checks pass fails only so.
pub open spec fn from_twig(e: DrawingError, t: Seq<u8>) -> bool {
    ||| e is Parse
    ||| e is Edit
    ||| e is NotSvg && root_of(flat_nodes(t)) is None
}

/// Where a reorder sends a shape among its sibling shapes.
#[derive(Clone, Copy, Debug, PartialEq, Eq, Structural)]
pub enum Order {
    /// One step up in paint order.
    Forward,
    /// One step down in paint order.
    Backward,
    /// Above every sibling shape.
    ToFront,
    /// Below every sibling shape — but after `<defs>`, `<style>` and
    /// whatever else is not a shape, which stay where they are.
    ToBack,
}

/// A note's members: the `<rect>` that is its box and the `<text>` that
/// is its label, by `data-id`.
#[derive(Clone, Debug, PartialEq, Eq)]
pub struct Note {
    pub frame: String,
    pub label: String,
}

/// The words a shape is added with — the canvas's current options, held
/// here so an added shape is born with them in the one splice that makes
/// it, rather than restyled in a second step. Never in the file itself;
/// the default is no words at all.
#[derive(Clone, Copy, Debug, Default, PartialEq, Eq, Structural)]
pub struct Pen {
    /// `data-dash` on a stroked shape.
    pub dash: Option<Dash>,
}

/// Whether a tag spells a kind drawn as a stroke.
pub open spec fn stroked_tag(tag: Seq<char>) -> bool {
    tag == "rect"@ || tag == "ellipse"@ || tag == "circle"@ || tag == "line"@ || tag
        == "polyline"@ || tag == "polygon"@
}

/// The words `pen` writes into a shape spelled by `tag`: a dash on a
/// stroked one, nothing else.
pub open spec fn pen_words(pen: Pen, tag: Seq<char>) -> Seq<(Seq<char>, Seq<char>)> {
    if stroked_tag(tag) && pen.dash is Some {
        seq![("data-dash"@, crate::shape::dash_value(pen.dash.unwrap()))]
    } else {
        Seq::empty()
    }
}

impl Pen {
    /// The words, as attributes, for a shape spelled by `tag` — the
    /// stroked ones take a dash, the rest nothing.
    pub fn words(&self, tag: &str) -> (r: Vec<(String, String)>)
        ensures
            r@.map_values(|w: (String, String)| (w.0@, w.1@)) == pen_words(*self, tag@),
    {
        let mut out: Vec<(String, String)> = Vec::new();
        let stroked = crate::text::str_eq(tag, "rect") || crate::text::str_eq(tag, "ellipse")
            || crate::text::str_eq(tag, "circle") || crate::text::str_eq(tag, "line")
            || crate::text::str_eq(tag, "polyline") || crate::text::str_eq(tag, "polygon");
        if stroked {
            if let Some(dash) = self.dash {
                out.push(
                    (crate::text::owned("data-dash"), crate::text::owned(dash.value())),
                );
            }
        }
        assert(out@.map_values(|w: (String, String)| (w.0@, w.1@)) =~= pen_words(*self, tag@));
        out
    }
}

/// The pen's dash goes into every kind drawn as a stroke — a box, an
/// ellipse, a circle, a line, a polyline, a polygon — spelled as its
/// `data-dash` word and nothing else; a path, a label, a group and an image
/// take no words, and neither does a solid pen.
pub proof fn lemma_pen_dashes_strokes(pen: Pen, k: ShapeKind)
    ensures
        pen.dash is Some && (k == ShapeKind::Rect || k == ShapeKind::Ellipse || k
            == ShapeKind::Circle || k == ShapeKind::Line || k == ShapeKind::Polyline || k
            == ShapeKind::Polygon) ==> pen_words(pen, crate::shape::kind_tag(k)) == seq![
            ("data-dash"@, crate::shape::dash_value(pen.dash.unwrap())),
        ],
        k == ShapeKind::Path || k == ShapeKind::Text || k == ShapeKind::Group || k
            == ShapeKind::Image ==> pen_words(pen, crate::shape::kind_tag(k)).len() == 0,
        pen.dash is None ==> pen_words(pen, crate::shape::kind_tag(k)).len() == 0,
{
    reveal_strlit("rect");
    reveal_strlit("ellipse");
    reveal_strlit("circle");
    reveal_strlit("line");
    reveal_strlit("polyline");
    reveal_strlit("polygon");
    reveal_strlit("path");
    reveal_strlit("text");
    reveal_strlit("g");
    reveal_strlit("image");
    let t = crate::shape::kind_tag(k);
    if !(k == ShapeKind::Rect || k == ShapeKind::Ellipse || k == ShapeKind::Circle || k
        == ShapeKind::Line || k == ShapeKind::Polyline || k == ShapeKind::Polygon) {
        // Each tag drawn as a stroke differs from these by its length or its
        // first letter.
        assert(t.len() <= 5 && t[0] != 'r' && t[0] != 'l');
        assert(t != "rect"@ && t != "line"@ && t != "ellipse"@ && t != "circle"@ && t
            != "polyline"@ && t != "polygon"@);
    }
}

/// For every kind but a path, a dashed pen dashes a new shape exactly when
/// the shape is drawn as a stroke. (A path takes no pen words at all,
/// though one that is not ink is drawn as a stroke.)
pub proof fn lemma_pen_dashes_what_is_stroked(pen: Pen, s: Shape)
    requires
        pen.dash is Some,
        s.kind != ShapeKind::Path,
    ensures
        (pen_words(pen, crate::shape::kind_tag(s.kind)).len() > 0) == s.stroked(),
{
    lemma_pen_dashes_strokes(pen, s.kind);
}

// ----- the text as the state ----------------------------------------------

/// The shapes twig's tree of `t` holds under its `<svg>`, in paint order;
/// none when the document element is not one.
pub open spec fn shapes_in(t: Seq<u8>) -> Seq<ShapeView> {
    match root_of(flat_nodes(t)) {
        Some(r) => shapes_under(flat_nodes(t), r),
        None => Seq::empty(),
    }
}

/// The index of the first shape carrying `data-id` `id`.
pub open spec fn find_shape(shapes: Seq<ShapeView>, id: Seq<char>) -> Option<int>
    decreases shapes.len(),
{
    if shapes.len() == 0 {
        None
    } else {
        match find_shape(shapes.drop_last(), id) {
            Some(i) => Some(i),
            None => if shapes.last().id == Some(id) {
                Some(shapes.len() - 1)
            } else {
                None
            },
        }
    }
}

/// The first shape carrying `data-id` `id`.
pub open spec fn shape_named(shapes: Seq<ShapeView>, id: Seq<char>) -> Option<ShapeView> {
    match find_shape(shapes, id) {
        Some(i) => Some(shapes[i]),
        None => None,
    }
}

pub proof fn lemma_find_shape(shapes: Seq<ShapeView>, id: Seq<char>)
    ensures
        find_shape(shapes, id) matches Some(i) ==> 0 <= i < shapes.len() && shapes[i].id == Some(
            id,
        ),
        find_shape(shapes, id) is None ==> forall|j: int|
            0 <= j < shapes.len() ==> shapes[j].id != Some(id),
    decreases shapes.len(),
{
    if shapes.len() > 0 {
        lemma_find_shape(shapes.drop_last(), id);
        assert forall|j: int| 0 <= j < shapes.len() - 1 implies shapes[j] == shapes.drop_last()[j] by {}
    }
}

proof fn lemma_find_shape_prefix(shapes: Seq<ShapeView>, id: Seq<char>, i: int)
    requires
        0 <= i < shapes.len(),
        shapes[i].id == Some(id),
        find_shape(shapes.subrange(0, i), id) is None,
    ensures
        find_shape(shapes, id) == Some(i),
    decreases shapes.len(),
{
    if i < shapes.len() - 1 {
        assert(shapes.drop_last().subrange(0, i) =~= shapes.subrange(0, i));
        lemma_find_shape_prefix(shapes.drop_last(), id, i);
    } else {
        assert(shapes.drop_last() =~= shapes.subrange(0, i));
    }
}

/// The index of the first of `shapes` with this `data-id`.
pub fn index_named(shapes: &[Shape], id: &str) -> (r: Option<usize>)
    ensures
        (match r {
            Some(i) => Some(i as int),
            None => None,
        }) == find_shape(shapes_view(shapes@), id@),
        r matches Some(i) ==> i < shapes@.len() && shapes_view(shapes@)[i as int].id == Some(id@),
{
    let ghost sv = shapes_view(shapes@);
    let mut i: usize = 0;
    while i < shapes.len()
        invariant
            sv == shapes_view(shapes@),
            i <= shapes@.len(),
            find_shape(sv.subrange(0, i as int), id@) is None,
        decreases shapes@.len() - i,
    {
        assert(sv.subrange(0, i + 1).drop_last() =~= sv.subrange(0, i as int));
        assert(sv[i as int].id == opt_view(shapes@[i as int].id));
        let hit = match &shapes[i].id {
            Some(s) => crate::text::str_eq(s.as_str(), id),
            None => false,
        };
        if hit {
            proof {
                lemma_find_shape_prefix(sv, id@, i as int);
            }
            return Some(i);
        }
        i += 1;
    }
    assert(sv.subrange(0, shapes@.len() as int) =~= sv);
    None
}

/// The `<svg>` element's attributes in the tree of `t`.
pub open spec fn root_attrs_in(t: Seq<u8>) -> Seq<(Seq<char>, Option<Seq<char>>)> {
    match root_of(flat_nodes(t)) {
        Some(r) => match node_at(flat_nodes(t), r) {
            Some(n) => attrs_view(n.attrs@),
            None => Seq::empty(),
        },
        None => Seq::empty(),
    }
}

/// The locator of node `node` in the tree of `t`.
pub open spec fn locator_in(t: Seq<u8>, node: u32) -> Seq<char> {
    locator_of(flat_nodes(t), node)
}

/// Whether undo steps `u` are what an edit keeps of the steps `s` before
/// it: the newest of them, all of them while twig's cap is not reached.
pub open spec fn kept(u: Seq<Seq<u8>>, s: Seq<Seq<u8>>) -> bool {
    &&& u.len() <= s.len()
    &&& u == s.subrange(s.len() - u.len(), s.len() as int)
    &&& s.len() + 1 < crate::twig_spec::UNDO_CAP ==> u == s
}

/// Whether a gesture went from `before` to `after` as one new undo step:
/// one undo goes back to `before`'s text, the steps before it are
/// `before`'s (its oldest dropped once twig's cap is reached), and nothing
/// is left to redo.
pub open spec fn one_step(before: Drawing, after: Drawing) -> bool {
    &&& after.undo_texts().len() > 0
    &&& after.undo_texts().last() == before.text()
    &&& kept(after.undo_texts().drop_last(), before.undo_texts())
    &&& after.redo_texts() == Seq::<Seq<u8>>::empty()
}

/// Whether `after` holds what `before` did: the same text and history.
pub open spec fn unchanged(before: Drawing, after: Drawing) -> bool {
    &&& after.text() == before.text()
    &&& after.undo_texts() == before.undo_texts()
    &&& after.redo_texts() == before.redo_texts()
    &&& after.pen_v() == before.pen_v()
}

/// The twig operations a gesture has made so far. The first is an undo
/// step of its own; each one after is folded into it, so that one undo
/// goes back to the text the gesture began on.
pub struct Steps {
    wrote: bool,
    start_text: Ghost<Seq<u8>>,
    start_undo: Ghost<Seq<Seq<u8>>>,
    start_redo: Ghost<Seq<Seq<u8>>>,
}

impl Steps {
    /// Whether the gesture has written anything.
    pub closed spec fn made(&self) -> bool {
        self.wrote
    }

    /// The text the gesture began on.
    pub closed spec fn start(&self) -> Seq<u8> {
        self.start_text@
    }

    /// Whether this count carries on the gesture `other` counted: the
    /// same start, and written to once `other` was.
    pub closed spec fn same_gesture(&self, other: Steps) -> bool {
        &&& self.start_text == other.start_text
        &&& self.start_undo == other.start_undo
        &&& self.start_redo == other.start_redo
        &&& other.wrote ==> self.wrote
    }

    /// Whether an editor is where the gesture has brought it: untouched
    /// while nothing is written, one undo step past the start after.
    pub closed spec fn holds_for(&self, e: twig::Editor) -> bool {
        if self.wrote {
            &&& editor_undo(e).len() > 0
            &&& editor_undo(e).last() == self.start_text@
            &&& kept(editor_undo(e).drop_last(), self.start_undo@)
            &&& editor_redo(e) == Seq::<Seq<u8>>::empty()
        } else {
            &&& editor_text(e) == self.start_text@
            &&& editor_undo(e) == self.start_undo@
            &&& editor_redo(e) == self.start_redo@
        }
    }

    /// Whether the drawing is where the gesture has brought it.
    pub open spec fn holds(&self, d: Drawing) -> bool {
        self.holds_for(d.editor_v())
    }

    /// Whether `s` counts a gesture that began on `d`.
    pub closed spec fn new_spec(s: Steps, d: Drawing) -> bool {
        &&& s.start_text@ == editor_text(d.editor)
        &&& s.start_undo@ == editor_undo(d.editor)
        &&& s.start_redo@ == editor_redo(d.editor)
    }

    /// A gesture about to begin on `d`.
    pub fn new(d: &Drawing) -> (s: Steps)
        ensures
            s.holds(*d),
            !s.made(),
            s.start() == d.text(),
            Steps::new_spec(s, *d),
    {
        Steps {
            wrote: false,
            start_text: Ghost(editor_text(d.editor)),
            start_undo: Ghost(editor_undo(d.editor)),
            start_redo: Ghost(editor_redo(d.editor)),
        }
    }

    /// Whether the gesture has written anything.
    pub fn wrote(&self) -> (r: bool)
        ensures
            r == self.made(),
    {
        self.wrote
    }
}

/// A gesture that held at its start holds as one undo step now: one undo
/// goes back to the text it began on, whatever it wrote on the way.
pub proof fn lemma_gesture_is_one_step(s: Steps, d: Drawing)
    requires
        s.holds(d),
        s.made(),
    ensures
        d.undo_texts().len() > 0,
        d.undo_texts().last() == s.start(),
        d.redo_texts().len() == 0,
{
}

/// Undo after a gesture gives back the bytes it began on, with the history
/// it began with (its oldest steps dropped once twig's cap is reached);
/// redo after that gives back the bytes it wrote, with the history it left.
pub proof fn lemma_undo_redo(before: Drawing, after: Drawing, undone: Drawing, redone: Drawing)
    requires
        one_step(before, after),
        undone.text() == after.undo_texts().last(),
        undone.undo_texts() == after.undo_texts().drop_last(),
        undone.redo_texts() == after.redo_texts().push(after.text()),
        redone.text() == undone.redo_texts().last(),
        redone.redo_texts() == undone.redo_texts().drop_last(),
        redone.undo_texts() == undone.undo_texts().push(undone.text()),
    ensures
        undone.text() == before.text(),
        kept(undone.undo_texts(), before.undo_texts()),
        redone.text() == after.text(),
        redone.undo_texts() == after.undo_texts(),
        redone.redo_texts() == after.redo_texts(),
{
    assert(undone.redo_texts().drop_last() =~= after.redo_texts());
    assert(after.undo_texts().drop_last().push(after.undo_texts().last()) =~= after.undo_texts());
}

/// A drawing being edited.
pub struct Drawing {
    editor: twig::Editor,
    /// The words the next shape is added with.
    pen: Pen,
    /// The flat tree as of the last edit; refreshed by `reload`.
    nodes: Vec<Node>,
    root: u32,
    shapes: Vec<Shape>,
    source: String,
}

impl Drawing {
    /// The editor, as the trusted items name it.
    pub closed spec fn editor_v(&self) -> twig::Editor {
        self.editor
    }

    /// The bytes being edited.
    pub closed spec fn text(&self) -> Seq<u8> {
        editor_text(self.editor)
    }

    /// The texts the undo steps go back to, oldest first.
    pub closed spec fn undo_texts(&self) -> Seq<Seq<u8>> {
        editor_undo(self.editor)
    }

    /// The texts the redo steps go forward to, the next last.
    pub closed spec fn redo_texts(&self) -> Seq<Seq<u8>> {
        editor_redo(self.editor)
    }

    /// The source, as characters.
    pub closed spec fn source_v(&self) -> Seq<char> {
        self.source@
    }

    /// The shapes, by their views.
    pub closed spec fn shapes_v(&self) -> Seq<ShapeView> {
        shapes_view(self.shapes@)
    }

    /// The words the next shape is added with.
    pub closed spec fn pen_v(&self) -> Pen {
        self.pen
    }

    /// Whether the tree, the root, the shapes and the source are those of
    /// the text.
    pub closed spec fn wf(&self) -> bool {
        &&& self.nodes@ == flat_nodes(editor_text(self.editor))
        &&& root_of(self.nodes@) == Some(self.root)
        &&& shapes_view(self.shapes@) == shapes_under(self.nodes@, self.root)
        &&& encode_utf8(self.source@) == editor_text(self.editor)
        &&& editor_text(self.editor).len() <= usize::MAX
    }

    /// What a well-formed drawing's state is made of.
    pub proof fn lemma_wf(&self)
        requires
            self.wf(),
        ensures
            root_of(flat_nodes(self.text())) is Some,
            self.shapes_v() == shapes_in(self.text()),
    {
    }

    /// Re-read the tree, the shapes and the source after an edit.
    fn reload(&mut self) -> (r: Result<(), DrawingError>)
        ensures
            r matches Err(e) ==> from_twig(e, final(self).text()),
            same_editor(final(self).editor, old(self).editor),
            final(self).pen == old(self).pen,
            r is Ok ==> final(self).wf(),
            r is Ok ==> root_of(flat_nodes(final(self).text())) is Some,
            root_of(flat_nodes(old(self).text())) is None ==> r is Err,
            r matches Err(e) ==> e is Parse || (e is NotSvg && root_of(flat_nodes(old(self).text())) is None),
    {
        let nodes = match editor_nodes(&mut self.editor) {
            Ok(v) => v,
            Err(e) => return Err(DrawingError::Parse(e)),
        };
        let source = match editor_source(&mut self.editor) {
            Ok(s) => s,
            Err(e) => return Err(DrawingError::Parse(e)),
        };
        let root = match find_root(&nodes) {
            Some(r) => r,
            None => return Err(DrawingError::NotSvg),
        };
        self.shapes = read(&nodes, root);
        self.nodes = nodes;
        self.source = source;
        self.root = root;
        Ok(())
    }

    /// Open an SVG's bytes. Parses as XML; refuses only what is not XML or
    /// whose document element is not `<svg>`. A file that breaks the
    /// profile still opens — `profile::check` says how — because a drawing
    /// a hand wrote is still a drawing. Opening writes nothing: the text is
    /// the bytes, with no history.
    pub fn open(source: &str) -> (r: Result<Drawing, DrawingError>)
        ensures
            r matches Ok(d) ==> {
                &&& d.wf()
                &&& d.text() == encode_utf8(source@)
                &&& d.source_v() == source@
                &&& d.undo_texts() == Seq::<Seq<u8>>::empty()
                &&& d.redo_texts() == Seq::<Seq<u8>>::empty()
                &&& d.pen_v() == (Pen { dash: None })
            },
            root_of(flat_nodes(encode_utf8(source@))) is None ==> r is Err,
            r matches Err(e) ==> e is Parse || (e is NotSvg && root_of(
                flat_nodes(encode_utf8(source@)),
            ) is None),
    {
        let editor = match editor_open(source) {
            Ok(e) => e,
            Err(e) => return Err(DrawingError::Parse(e)),
        };
        let mut d = Drawing {
            editor,
            pen: Pen { dash: None },
            nodes: Vec::new(),
            root: 0,
            shapes: Vec::new(),
            source: String::new(),
        };
        match d.reload() {
            Ok(()) => {
                proof {
                    vstd::utf8::encode_utf8_decode_utf8(d.source@);
                    vstd::utf8::encode_utf8_decode_utf8(source@);
                }
                Ok(d)
            },
            Err(e) => Err(e),
        }
    }

    /// The words the next shape is added with.
    pub fn pen(&self) -> (r: Pen)
        ensures
            r == self.pen_v(),
    {
        self.pen
    }

    /// Set the words the next shape is added with. Not an edit: nothing in
    /// the file moves until a shape is added.
    pub fn set_pen(&mut self, pen: Pen)
        ensures
            final(self).pen_v() == pen,
            final(self).editor_v() == old(self).editor_v(),
            old(self).wf() ==> final(self).wf(),
    {
        self.pen = pen;
    }

    /// The current bytes — what saving writes.
    pub fn source(&self) -> (r: &str)
        ensures
            r@ == self.source_v(),
            self.wf() ==> encode_utf8(r@) == self.text(),
    {
        self.source.as_str()
    }

    /// The shapes, in paint order, groups' members after the group.
    pub fn shapes(&self) -> (r: &[Shape])
        ensures
            self.wf() ==> shapes_view(r@) == shapes_in(self.text()),
    {
        self.shapes.as_slice()
    }

    /// twig's flat tree of the current text, as plain values: valid until
    /// the next edit.
    pub fn nodes(&self) -> (r: &[Node])
        ensures
            self.wf() ==> r@ == flat_nodes(self.text()),
    {
        self.nodes.as_slice()
    }

    /// The `<svg>` element's node.
    pub fn root(&self) -> (r: crate::tree::NodeId)
        ensures
            self.wf() ==> root_of(flat_nodes(self.text())) == Some(r.0),
    {
        crate::tree::NodeId(self.root)
    }

    /// The index of the shape with this `data-id`.
    fn shape_index(&self, id: &str) -> (r: Option<usize>)
        ensures
            (match r {
                Some(i) => Some(i as int),
                None => None,
            }) == find_shape(shapes_view(self.shapes@), id@),
            r matches Some(i) ==> i < self.shapes@.len() && shapes_view(self.shapes@)[i as int].id
                == Some(id@),
    {
        index_named(self.shapes.as_slice(), id)
    }

    /// The shape with this `data-id`.
    pub fn shape(&self, id: &str) -> (r: Option<&Shape>)
        ensures
            self.wf() ==> (match r {
                Some(s) => Some(s@),
                None => None,
            }) == shape_named(shapes_in(self.text()), id@),
    {
        match self.shape_index(id) {
            Some(i) => Some(&self.shapes[i]),
            None => None,
        }
    }

    /// The `<svg>` element's attributes, in source order.
    pub fn root_attrs(&self) -> (r: &[(String, Option<String>)])
        requires
            self.wf(),
        ensures
            attrs_view(r@) == root_attrs_in(self.text()),
    {
        let i = node_index(&self.nodes, self.root);
        proof {
            crate::tree::lemma_find_node(self.nodes@, self.root);
        }
        match i {
            Some(i) => self.nodes[i].attrs.as_slice(),
            None => {
                assert(false);
                self.shapes[0].attrs.as_slice()
            },
        }
    }

    /// Fold the edit just made into the gesture's undo step: the first of
    /// a gesture stands as its own step; each one after is coalesced into
    /// the step before it.
    fn fold(&mut self, steps: &mut Steps, Ghost(prev): Ghost<twig::Editor>) -> (r: Result<(), DrawingError>)
        requires
            old(steps).holds_for(prev),
            edited(prev, old(self).editor, editor_text(old(self).editor)),
        ensures
            r matches Err(e) ==> from_twig(e, final(self).text()),
            r is Ok ==> final(steps).holds_for(final(self).editor),
            r is Ok ==> final(steps).made(),
            final(steps).same_gesture(*old(steps)),
            r is Ok ==> editor_text(final(self).editor) == editor_text(old(self).editor),
            final(self).nodes == old(self).nodes,
            final(self).root == old(self).root,
            final(self).shapes == old(self).shapes,
            final(self).source == old(self).source,
            final(self).pen == old(self).pen,
    {
        if steps.wrote {
            let ghost u = editor_undo(self.editor);
            let ghost pu = editor_undo(prev);
            let ghost su = steps.start_undo@;
            let ghost k = pu.drop_last();
            assert(pu =~= k.push(steps.start_text@));
            proof {
                if pu.len() < crate::twig_spec::UNDO_CAP {
                    assert(u.len() >= 2);
                    assert(u.drop_last() =~= pu);
                } else {
                    assert(k.len() > 0);
                    assert(u.len() >= 2);
                    assert(u.drop_last() =~= k.drop_first().push(steps.start_text@));
                    assert(k.drop_first() =~= su.subrange(
                        su.len() - k.drop_first().len(),
                        su.len() as int,
                    ));
                }
            }
            let r = match editor_coalesce(&mut self.editor) {
                Ok(()) => Ok(()),
                Err(e) => Err(DrawingError::Edit(e)),
            };
            proof {
                if r is Ok {
                    let nu = editor_undo(self.editor);
                    assert(nu == u.drop_last());
                    if pu.len() < crate::twig_spec::UNDO_CAP {
                        assert(nu == pu);
                        assert(nu.drop_last() =~= k);
                        assert(nu.last() == steps.start_text@);
                        assert(kept(nu.drop_last(), su));
                    } else {
                        assert(nu =~= k.drop_first().push(steps.start_text@));
                        assert(nu.drop_last() =~= k.drop_first());
                        assert(nu.last() == steps.start_text@);
                        assert(kept(nu.drop_last(), su));
                    }
                    assert(steps.holds_for(self.editor));
                }
            }
            r
        } else {
            proof {
                let su = steps.start_undo@;
                let u = editor_undo(self.editor);
                if su.len() < crate::twig_spec::UNDO_CAP {
                    assert(u.drop_last() =~= su);
                    assert(su.subrange(0, su.len() as int) =~= su);
                    assert(kept(u.drop_last(), su));
                } else {
                    assert(u.drop_last() =~= su.drop_first());
                    assert(su.drop_first() =~= su.subrange(su.len() - su.drop_first().len(), su.len() as int));
                }
            }
            steps.wrote = true;
            Ok(())
        }
    }

    /// Undo the last gesture. `Ok(false)` when there is nothing to undo,
    /// and nothing changes; otherwise the text goes back to the last undo
    /// step's, which becomes the next redo.
    pub fn undo(&mut self) -> (r: Result<bool, DrawingError>)
        requires
            old(self).wf(),
        ensures
            old(self).undo_texts().len() == 0 ==> (r matches Ok(false)),
            r matches Ok(b) ==> b == (old(self).undo_texts().len() > 0),
            r matches Err(e) ==> from_twig(e, final(self).text()),
            r matches Ok(false) ==> unchanged(*old(self), *final(self)) && final(self).wf(),
            r matches Ok(true) ==> {
                &&& final(self).wf()
                &&& old(self).undo_texts().len() > 0
                &&& final(self).text() == old(self).undo_texts().last()
                &&& final(self).undo_texts() == old(self).undo_texts().drop_last()
                &&& final(self).redo_texts() == old(self).redo_texts().push(old(self).text())
                &&& final(self).pen_v() == old(self).pen_v()
            },
    {
        let undone = match editor_undo_step(&mut self.editor) {
            Ok(b) => b,
            Err(e) => return Err(DrawingError::Edit(e)),
        };
        if undone {
            self.reload()?;
        }
        Ok(undone)
    }

    /// Redo the last undone gesture. `Ok(false)` when there is nothing to
    /// redo, and nothing changes; otherwise the text goes forward to the
    /// last redo step's, and the text it left is an undo step again.
    pub fn redo(&mut self) -> (r: Result<bool, DrawingError>)
        requires
            old(self).wf(),
        ensures
            old(self).redo_texts().len() == 0 ==> (r matches Ok(false)),
            r matches Ok(b) ==> b == (old(self).redo_texts().len() > 0),
            r matches Err(e) ==> from_twig(e, final(self).text()),
            r matches Ok(false) ==> unchanged(*old(self), *final(self)) && final(self).wf(),
            r matches Ok(true) ==> {
                &&& final(self).wf()
                &&& old(self).redo_texts().len() > 0
                &&& final(self).text() == old(self).redo_texts().last()
                &&& final(self).redo_texts() == old(self).redo_texts().drop_last()
                &&& final(self).undo_texts() == old(self).undo_texts().push(old(self).text())
                &&& final(self).pen_v() == old(self).pen_v()
            },
    {
        let redone = match editor_redo_step(&mut self.editor) {
            Ok(b) => b,
            Err(e) => return Err(DrawingError::Edit(e)),
        };
        if redone {
            self.reload()?;
        }
        Ok(redone)
    }
}


// ----- what the gestures write --------------------------------------------

/// A selection's ids, by their views.
pub open spec fn ids_view(ids: Seq<&str>) -> Seq<Seq<char>> {
    ids.map_values(|s: &str| s@)
}

/// The text after deleting the shapes `ids` names, one after the other,
/// each by its locator in the tree of the moment. An id whose shape is
/// gone — with an earlier one's group — is skipped once something is
/// deleted; before that, it is an error (`None`).
pub open spec fn deletes(t: Seq<u8>, ids: Seq<Seq<char>>, any: bool) -> Option<Seq<u8>>
    decreases ids.len(),
{
    if ids.len() == 0 {
        Some(t)
    } else {
        match shape_named(shapes_in(t), ids[0]) {
            None => if any {
                deletes(t, ids.drop_first(), any)
            } else {
                None
            },
            Some(s) => deletes(deleted(t, locator_in(t, s.node)), ids.drop_first(), true),
        }
    }
}

/// The binding at `end` of `s` taken off, when it names a shape that is
/// not among `shapes`.
pub open spec fn gone_end(
    shapes: Seq<ShapeView>,
    s: ShapeView,
    end: End,
) -> Seq<(Seq<char>, Option<Seq<char>>)> {
    if crate::shape::attr_value(s.attrs, binding_of(end)) matches Some(target) && shape_named(
        shapes,
        target,
    ) is None {
        seq![(binding_of(end), None::<Seq<char>>)]
    } else {
        Seq::empty()
    }
}

/// The connectors among the first `k` of `shapes` bound to a shape that is
/// not there, by `data-id`, each with the bindings to take off.
pub open spec fn dangling(shapes: Seq<ShapeView>, k: nat) -> Seq<
    (Seq<char>, Seq<(Seq<char>, Option<Seq<char>>)>),
>
    decreases k,
{
    if k == 0 || k > shapes.len() {
        Seq::empty()
    } else {
        let head = dangling(shapes, (k - 1) as nat);
        let s = shapes[k - 1];
        let gone = gone_end(shapes, s, End::From) + gone_end(shapes, s, End::To);
        if connects(s) && gone.len() > 0 && s.id is Some {
            head.push((s.id.unwrap(), gone))
        } else {
            head
        }
    }
}

/// The text after each connector of `list` has the listed bindings taken
/// off, one `set_node_attrs` each, found afresh by its id.
pub open spec fn unbinding(
    t: Seq<u8>,
    list: Seq<(Seq<char>, Seq<(Seq<char>, Option<Seq<char>>)>)>,
) -> Seq<u8>
    decreases list.len(),
{
    if list.len() == 0 {
        t
    } else {
        let t1 = unbinding(t, list.drop_last());
        match shape_named(shapes_in(t1), list.last().0) {
            None => t1,
            Some(a) => attrs_written(t1, a.node, merged(a.attrs, list.last().1)),
        }
    }
}

/// The text with every binding to a shape that is not there taken off.
pub open spec fn unbound(t: Seq<u8>) -> Seq<u8> {
    unbinding(t, dangling(shapes_in(t), shapes_in(t).len()))
}

/// Where a reorder puts node `node` among its sibling shapes `sibs`: the
/// sibling it goes next to, and whether after it; `None` when it is
/// already there.
pub open spec fn reorder_anchor(sibs: Seq<u32>, node: u32, order: Order) -> Option<(u32, bool)> {
    let at = crate::document::index_in(sibs, node) as int;
    if at >= sibs.len() {
        None
    } else {
        match order {
            Order::Forward => if at + 1 < sibs.len() {
                Some((sibs[at + 1], true))
            } else {
                None
            },
            Order::Backward => if at > 0 {
                Some((sibs[at - 1], false))
            } else {
                None
            },
            Order::ToFront => if at + 1 < sibs.len() {
                Some((sibs.last(), true))
            } else {
                None
            },
            Order::ToBack => if at > 0 {
                Some((sibs[0], false))
            } else {
                None
            },
        }
    }
}

/// The text after node `node` is reordered; `None` when it is already
/// where `order` sends it.
pub open spec fn reordered(t: Seq<u8>, node: u32, order: Order) -> Option<Seq<u8>> {
    match reorder_anchor(shape_siblings(flat_nodes(t), node), node, order) {
        None => None,
        Some((anchor, after)) => Some(
            if after {
                moved_after(t, locator_in(t, node), locator_in(t, anchor))
            } else {
                moved_before(t, locator_in(t, node), locator_in(t, anchor))
            },
        ),
    }
}

/// Where each order sends node `node`, standing at `i` among its sibling
/// shapes `sibs`: to the front, after the last sibling, however far below
/// it the shape stands; forward, after the one just above it; to the back,
/// before the first; backward, before the one just below. A shape already
/// last does not go forward or to the front, nor one already first
/// backward or to the back: nothing is written.
pub proof fn lemma_reorder_places(t: Seq<u8>, node: u32, sibs: Seq<u32>, i: int)
    requires
        sibs == shape_siblings(flat_nodes(t), node),
        i == crate::document::index_in(sibs, node),
        i < sibs.len(),
    ensures
        i + 1 < sibs.len() ==> reordered(t, node, Order::ToFront) == Some(
            moved_after(t, locator_in(t, node), locator_in(t, sibs[sibs.len() - 1])),
        ),
        i + 1 < sibs.len() ==> reordered(t, node, Order::Forward) == Some(
            moved_after(t, locator_in(t, node), locator_in(t, sibs[i + 1])),
        ),
        i > 0 ==> reordered(t, node, Order::ToBack) == Some(
            moved_before(t, locator_in(t, node), locator_in(t, sibs[0])),
        ),
        i > 0 ==> reordered(t, node, Order::Backward) == Some(
            moved_before(t, locator_in(t, node), locator_in(t, sibs[i - 1])),
        ),
        i + 1 == sibs.len() ==> reordered(t, node, Order::ToFront) is None && reordered(
            t,
            node,
            Order::Forward,
        ) is None,
        i == 0 ==> reordered(t, node, Order::ToBack) is None && reordered(t, node, Order::Backward)
            is None,
{
}

/// Whether giving node `node` the attributes `list` writes nothing: no
/// attributes, for an element that has none.
pub open spec fn attrs_quiet(t: Seq<u8>, node: u32, list: Seq<(Seq<char>, Option<Seq<char>>)>) -> bool {
    list.len() == 0 && !has_attrs(flat_nodes(t), node)
}

/// An attribute list that has a value for some name is not empty.
proof fn lemma_attr_value_nonempty(a: Seq<(Seq<char>, Option<Seq<char>>)>, name: Seq<char>)
    requires
        crate::shape::attr_value(a, name) is Some,
    ensures
        a.len() > 0,
{
}

/// A shape of a drawing with an attribute, or with an id, is an element
/// with attributes.
proof fn lemma_shape_has_attrs(t: Seq<u8>, i: int)
    requires
        0 <= i < shapes_in(t).len(),
        shapes_in(t)[i].attrs.len() > 0 || shapes_in(t)[i].id is Some,
    ensures
        has_attrs(flat_nodes(t), shapes_in(t)[i].node),
{
    if let Some(r) = root_of(flat_nodes(t)) {
        let nodes = flat_nodes(t);
        crate::tree::lemma_walked_attrs(nodes, children(nodes, r), 0, None, nodes.len());
        let s = shapes_in(t)[i];
        if s.id is Some {
            lemma_attr_value_nonempty(s.attrs, "data-id"@);
        }
    }
}

impl Drawing {
    /// Re-read the tree after a twig edit and fold the edit into the
    /// gesture's undo step.
    fn commit(&mut self, steps: &mut Steps, Ghost(prev): Ghost<twig::Editor>) -> (r: Result<
        (),
        DrawingError,
    >)
        requires
            old(steps).holds_for(prev),
            edited(prev, old(self).editor, editor_text(old(self).editor)),
        ensures
            r matches Err(e) ==> from_twig(e, final(self).text()),
            final(steps).same_gesture(*old(steps)),
            final(self).pen == old(self).pen,
            r is Ok ==> {
                &&& final(self).wf()
                &&& final(steps).holds(*final(self))
                &&& final(steps).made()
                &&& final(self).text() == old(self).text()
            },
    {
        self.reload()?;
        self.fold(steps, Ghost(prev))
    }

    /// Give node `node` exactly the attributes `attrs`: one
    /// `set_node_attrs`, folded into the gesture. No attributes for an
    /// element that has none is nothing to write.
    fn apply_attrs(
        &mut self,
        node: u32,
        attrs: &Vec<(String, Option<String>)>,
        steps: &mut Steps,
    ) -> (r: Result<(), DrawingError>)
        requires
            old(self).wf(),
            old(steps).holds(*old(self)),
        ensures
            r matches Err(e) ==> from_twig(e, final(self).text()),
            final(steps).same_gesture(*old(steps)),
            final(self).pen == old(self).pen,
            attrs_quiet(old(self).text(), node, attrs_view(attrs@)) ==> r is Ok && *final(self)
                == *old(self) && *final(steps) == *old(steps),
            r is Ok && !attrs_quiet(old(self).text(), node, attrs_view(attrs@)) ==> {
                &&& final(self).wf()
                &&& final(steps).holds(*final(self))
                &&& final(steps).made()
                &&& final(self).text() == attrs_written(old(self).text(), node, attrs_view(attrs@))
            },
    {
        if attrs.len() == 0 {
            proof {
                crate::tree::lemma_find_node(self.nodes@, node);
            }
            let present = match node_index(&self.nodes, node) {
                Some(i) => self.nodes[i].attrs.len() > 0,
                None => false,
            };
            if !present {
                return Ok(());
            }
        }
        let ghost prev = self.editor;
        match editor_set_attrs(&mut self.editor, node, attrs) {
            Ok(()) => {},
            Err(e) => return Err(DrawingError::Edit(e)),
        }
        self.commit(steps, Ghost(prev))
    }

    /// Write `updates` over `attrs` as node `node`'s attributes — a value
    /// replaced in place, a name not yet present appended, one updated to
    /// `None` taken off — through one `set_node_attrs`, folded into the
    /// gesture. Nothing is written when that leaves no attributes on an
    /// element that has none.
    pub fn write_attrs(
        &mut self,
        node: crate::tree::NodeId,
        attrs: &Vec<(String, Option<String>)>,
        updates: &Vec<(String, Option<String>)>,
        steps: &mut Steps,
    ) -> (r: Result<(), DrawingError>)
        requires
            old(self).wf(),
            old(steps).holds(*old(self)),
        ensures
            r matches Err(e) ==> from_twig(e, final(self).text()),
            final(steps).same_gesture(*old(steps)),
            final(self).pen_v() == old(self).pen_v(),
            attrs_quiet(old(self).text(), node.0, merged(attrs_view(attrs@), attrs_view(updates@)))
                ==> r is Ok && *final(self) == *old(self) && *final(steps) == *old(steps),
            r is Ok && !attrs_quiet(
                old(self).text(),
                node.0,
                merged(attrs_view(attrs@), attrs_view(updates@)),
            ) ==> {
                &&& final(self).wf()
                &&& final(steps).holds(*final(self))
                &&& final(steps).made()
                &&& final(self).text() == attrs_written(
                    old(self).text(),
                    node.0,
                    merged(attrs_view(attrs@), attrs_view(updates@)),
                )
            },
    {
        let all = merge_attrs(attrs, updates);
        self.apply_attrs(node.0, &all, steps)
    }

    /// Take off every binding to a shape that is not there, folded into
    /// the gesture: what a delete leaves behind.
    pub fn unbind_dangling(&mut self, steps: &mut Steps) -> (r: Result<(), DrawingError>)
        requires
            old(self).wf(),
            old(steps).holds(*old(self)),
        ensures
            r matches Err(e) ==> from_twig(e, final(self).text()),
            final(steps).same_gesture(*old(steps)),
            final(self).pen_v() == old(self).pen_v(),
            r is Ok ==> {
                &&& final(self).wf()
                &&& final(steps).holds(*final(self))
                &&& final(self).text() == unbound(old(self).text())
            },
    {
        let ghost t0 = self.text();
        let ghost sv = shapes_view(self.shapes@);
        let mut list: Vec<(String, Vec<(String, Option<String>)>)> = Vec::new();
        let mut k: usize = 0;
        while k < self.shapes.len()
            invariant
                self.wf(),
                t0 == self.text(),
                sv == shapes_view(self.shapes@),
                sv == shapes_in(t0),
                k <= self.shapes@.len(),
                list@.map_values(
                    |p: (String, Vec<(String, Option<String>)>)| (p.0@, attrs_view(p.1@)),
                ) == dangling(sv, k as nat),
            decreases self.shapes@.len() - k,
        {
            let ghost before = list@;
            let s = &self.shapes[k];
            assert(sv[k as int] == s@);
            let mut gone: Vec<(String, Option<String>)> = Vec::new();
            if crate::connector::is_connector(s) {
                if let Some(target) = s.attr("data-from") {
                    if self.shape_index(target).is_none() {
                        gone.push((crate::text::owned("data-from"), None));
                    }
                }
                if let Some(target) = s.attr("data-to") {
                    if self.shape_index(target).is_none() {
                        gone.push((crate::text::owned("data-to"), None));
                    }
                }
            }
            proof {
                reveal_strlit("data-from");
                reveal_strlit("data-to");
                assert("data-from"@ =~= binding_of(End::From));
                assert("data-to"@ =~= binding_of(End::To));
            }
            let ghost g = gone_end(sv, s@, End::From) + gone_end(sv, s@, End::To);
            assert(crate::connector::connects(s@) ==> attrs_view(gone@) =~= g);
            if gone.len() > 0 {
                if let Some(id) = &s.id {
                    list.push((id.clone(), gone));
                }
            }
            assert(list@.map_values(
                |p: (String, Vec<(String, Option<String>)>)| (p.0@, attrs_view(p.1@)),
            ) =~= dangling(sv, (k + 1) as nat));
            k += 1;
        }
        let ghost lv = list@.map_values(
            |p: (String, Vec<(String, Option<String>)>)| (p.0@, attrs_view(p.1@)),
        );
        let mut j: usize = 0;
        while j < list.len()
            invariant
                self.wf(),
                old(steps).holds(*old(self)),
                steps.holds(*self),
                steps.same_gesture(*old(steps)),
                self.pen == old(self).pen,
                j <= list@.len(),
                lv == list@.map_values(
                    |p: (String, Vec<(String, Option<String>)>)| (p.0@, attrs_view(p.1@)),
                ),
                self.text() == unbinding(t0, lv.take(j as int)),
            decreases list@.len() - j,
        {
            assert(lv.take(j + 1).drop_last() =~= lv.take(j as int));
            assert(lv.take(j + 1).last() == lv[j as int]);
            if let Some(i) = self.shape_index(list[j].0.as_str()) {
                let node = self.shapes[i].node;
                let attrs = crate::tree::clone_attrs(&self.shapes[i].attrs);
                proof {
                    self.lemma_wf();
                    lemma_shape_has_attrs(self.text(), i as int);
                }
                self.write_attrs(node, &attrs, &list[j].1, steps)?;
            }
            j += 1;
        }
        assert(lv.take(list@.len() as int) =~= lv);
        Ok(())
    }

    /// Delete several shapes as one undo step — a multi-selection's delete
    /// — and take off, in the same step, the bindings of any arrow that
    /// pointed at one. An id whose shape went with an earlier one's group
    /// is skipped; the first id naming nothing is `NoSuchShape`, and
    /// nothing is written. Each line's indentation is left where it was.
    pub fn delete_all(&mut self, ids: &[&str], steps: &mut Steps) -> (r: Result<(), DrawingError>)
        requires
            old(self).wf(),
            old(steps).holds(*old(self)),
        ensures
            final(steps).same_gesture(*old(steps)),
            final(self).pen_v() == old(self).pen_v(),
            ids@.len() > 0 && shape_named(shapes_in(old(self).text()), ids@[0]@) is None ==> {
                &&& r matches Err(DrawingError::NoSuchShape(s)) && s@ == ids@[0]@
                &&& unchanged(*old(self), *final(self))
                &&& final(self).wf()
                &&& final(steps).holds(*final(self))
            },
            r matches Err(e) ==> (e is NoSuchShape && deletes(old(self).text(), ids_view(ids@), false)
                is None) || from_twig(e, final(self).text()),
            r is Ok ==> {
                &&& deletes(old(self).text(), ids_view(ids@), false) is Some
                &&& final(self).wf()
                &&& final(steps).holds(*final(self))
                &&& final(self).text() == unbound(
                    deletes(old(self).text(), ids_view(ids@), false).unwrap(),
                )
            },
    {
        let ghost t0 = self.text();
        let ghost iv = ids_view(ids@);
        let mut any = false;
        let mut j: usize = 0;
        assert(iv.skip(0) =~= iv);
        while j < ids.len()
            invariant
                self.wf(),
                old(steps).holds(*old(self)),
                steps.holds(*self),
                steps.same_gesture(*old(steps)),
                self.pen == old(self).pen,
                j <= ids@.len(),
                iv == ids_view(ids@),
                deletes(t0, iv, false) == deletes(self.text(), iv.skip(j as int), any),
                !any ==> j == 0 && unchanged(*old(self), *self),
                iv.len() > 0 && shape_named(shapes_in(t0), iv[0]) is None ==> !any,
                t0 == old(self).text(),
            decreases ids@.len() - j,
        {
            let id = ids[j];
            let ghost rest = iv.skip(j as int);
            assert(rest[0] == id@);
            assert(rest.drop_first() =~= iv.skip(j + 1));
            proof {
                self.lemma_wf();
            }
            match self.shape_index(id) {
                None => {
                    if !any {
                        return Err(DrawingError::NoSuchShape(crate::text::owned(id)));
                    }
                },
                Some(i) => {
                    proof {
                        if !any {
                            assert(iv.skip(0) =~= iv);
                            assert(id@ == iv[0]);
                            assert(shapes_view(self.shapes@) == shapes_in(t0));
                            assert(shape_named(shapes_in(t0), iv[0]) is Some);
                        }
                    }
                    let loc = locator(&self.nodes, self.shapes[i].node.0);
                    let ghost prev = self.editor;
                    match editor_delete(&mut self.editor, loc.as_str()) {
                        Ok(()) => {},
                        Err(e) => return Err(DrawingError::Edit(e)),
                    }
                    self.commit(steps, Ghost(prev))?;
                    any = true;
                },
            }
            j += 1;
        }
        assert(iv.skip(ids@.len() as int) =~= Seq::<Seq<char>>::empty());
        self.unbind_dangling(steps)
    }

    /// Delete the shape with this `data-id`: one splice, one undo step —
    /// plus, in the same step, the binding taken off any arrow that
    /// pointed at it. The line's indentation is left where it was.
    pub fn delete(&mut self, id: &str, steps: &mut Steps) -> (r: Result<(), DrawingError>)
        requires
            old(self).wf(),
            old(steps).holds(*old(self)),
        ensures
            final(steps).same_gesture(*old(steps)),
            final(self).pen_v() == old(self).pen_v(),
            shape_named(shapes_in(old(self).text()), id@) is None ==> {
                &&& r matches Err(DrawingError::NoSuchShape(s)) && s@ == id@
                &&& unchanged(*old(self), *final(self))
                &&& final(self).wf()
            },
            r matches Err(e) ==> (e is NoSuchShape && shape_named(shapes_in(old(self).text()), id@)
                is None) || from_twig(e, final(self).text()),
            r is Ok ==> {
                &&& shape_named(shapes_in(old(self).text()), id@) is Some
                &&& final(self).wf()
                &&& final(steps).holds(*final(self))
                &&& final(self).text() == unbound(
                    deleted(
                        old(self).text(),
                        locator_in(
                            old(self).text(),
                            shape_named(shapes_in(old(self).text()), id@).unwrap().node,
                        ),
                    ),
                )
            },
    {
        let ids: Vec<&str> = vec![id];
        let r = self.delete_all(ids.as_slice(), steps);
        proof {
            let iv = ids_view(ids@);
            assert(iv[0] == id@);
            assert(iv.drop_first() =~= Seq::<Seq<char>>::empty());
            reveal_with_fuel(deletes, 2);
        }
        r
    }

    /// Change a shape's place in paint order among its sibling shapes: one
    /// `move_before` or `move_after`, one undo step, the whitespace between
    /// siblings kept. `Ok(false)` when it is already there, and nothing is
    /// written.
    pub fn reorder(&mut self, id: &str, order: Order) -> (r: Result<bool, DrawingError>)
        requires
            old(self).wf(),
        ensures
            final(self).pen_v() == old(self).pen_v(),
            shape_named(shapes_in(old(self).text()), id@) is None ==> {
                &&& r matches Err(DrawingError::NoSuchShape(s)) && s@ == id@
                &&& unchanged(*old(self), *final(self))
                &&& final(self).wf()
            },
            shape_named(shapes_in(old(self).text()), id@) matches Some(s) && reordered(
                old(self).text(),
                s.node,
                order,
            ) is None ==> r matches Ok(false),
            r matches Ok(false) ==> unchanged(*old(self), *final(self)) && final(self).wf(),
            r matches Ok(false) ==> shape_named(shapes_in(old(self).text()), id@) matches Some(s)
                && reordered(old(self).text(), s.node, order) is None,
            r matches Err(e) ==> (e is NoSuchShape && shape_named(shapes_in(old(self).text()), id@)
                is None) || from_twig(e, final(self).text()),
            r matches Ok(true) ==> {
                &&& shape_named(shapes_in(old(self).text()), id@) matches Some(s) && reordered(
                    old(self).text(),
                    s.node,
                    order,
                ) == Some(final(self).text())
                &&& final(self).wf()
                &&& one_step(*old(self), *final(self))
            },
            (r matches Ok(true) && order == Order::ToFront) ==> (shape_named(
                shapes_in(old(self).text()),
                id@,
            ) matches Some(s) && final(self).text() == moved_after(
                old(self).text(),
                locator_in(old(self).text(), s.node),
                locator_in(
                    old(self).text(),
                    shape_siblings(flat_nodes(old(self).text()), s.node).last(),
                ),
            )),
    {
        proof {
            self.lemma_wf();
        }
        let i = match self.shape_index(id) {
            Some(i) => i,
            None => return Err(DrawingError::NoSuchShape(crate::text::owned(id))),
        };
        let node = self.shapes[i].node.0;
        let sibs = sibling_shapes(&self.nodes, node);
        let at = crate::document::position_of(&sibs, node);
        if at >= sibs.len() {
            return Ok(false);
        }
        let (anchor, after) = match order {
            Order::Forward => if at + 1 < sibs.len() {
                (sibs[at + 1], true)
            } else {
                return Ok(false);
            },
            Order::Backward => if at > 0 {
                (sibs[at - 1], false)
            } else {
                return Ok(false);
            },
            Order::ToFront => if at + 1 < sibs.len() {
                (sibs[sibs.len() - 1], true)
            } else {
                return Ok(false);
            },
            Order::ToBack => if at > 0 {
                (sibs[0], false)
            } else {
                return Ok(false);
            },
        };
        let loc = locator(&self.nodes, node);
        let to = locator(&self.nodes, anchor);
        let mut steps = Steps::new(self);
        let ghost prev = self.editor;
        let moved = if after {
            editor_move_after(&mut self.editor, loc.as_str(), to.as_str())
        } else {
            editor_move_before(&mut self.editor, loc.as_str(), to.as_str())
        };
        match moved {
            Ok(()) => {},
            Err(e) => return Err(DrawingError::Edit(e)),
        }
        self.commit(&mut steps, Ghost(prev))?;
        Ok(true)
    }
}

// ----- splices ------------------------------------------------------------

/// The characters of `t` between bytes `start` and `end`, when that is a
/// range between character boundaries.
pub open spec fn text_at(t: Seq<u8>, start: int, end: int) -> Option<Seq<char>> {
    if 0 <= start <= end <= t.len() && is_char_boundary(t, start) && is_char_boundary(t, end) {
        Some(decode_utf8(t.subrange(start, end)))
    } else {
        None
    }
}

/// `t` with bytes `start..end` replaced by `s`.
pub open spec fn spliced(t: Seq<u8>, start: int, end: int, s: Seq<char>) -> Seq<u8> {
    t.subrange(0, start) + encode_utf8(s) + t.subrange(end, t.len() as int)
}

/// The content of each `<style>` among the nodes `ids`.
pub open spec fn sheets_among(nodes: Seq<Node>, ids: Seq<u32>) -> Seq<Span>
    decreases ids.len(),
{
    if ids.len() == 0 {
        Seq::empty()
    } else {
        let head = sheets_among(nodes, ids.drop_last());
        match node_at(nodes, ids.last()) {
            Some(n) => if n.name matches Some(nm) && nm@ == "style"@ && n.content_span is Some {
                head.push(n.content_span.unwrap())
            } else {
                head
            },
            None => head,
        }
    }
}

/// The content of each top-level `<style>` of the tree of `t`.
pub open spec fn sheets_in(t: Seq<u8>) -> Seq<Span> {
    match root_of(flat_nodes(t)) {
        Some(r) => sheets_among(flat_nodes(t), children(flat_nodes(t), r)),
        None => Seq::empty(),
    }
}

/// Whether the stylesheet at `sp` would take `rules` for `word`: it does
/// not already say what the word means.
pub open spec fn takes_word(t: Seq<u8>, sp: Span, word: Seq<char>, rules: Seq<Seq<char>>) -> bool {
    text_at(t, sp.start as int, sp.end as int) matches Some(css) && with_rules_text(
        css,
        word,
        rules,
    ) is Some
}

/// The edit that brings `rules` for `word` into the last top-level
/// `<style>`: none when there is no `<style>`, or some `<style>` already
/// selects the word.
pub open spec fn word_edit(t: Seq<u8>, word: Seq<char>, rules: Seq<Seq<char>>) -> Option<
    (Span, Seq<char>),
> {
    let ss = sheets_in(t);
    if ss.len() > 0 && forall|i: int| 0 <= i < ss.len() ==> takes_word(t, #[trigger] ss[i], word, rules) {
        Some(
            (
                ss.last(),
                with_rules_text(
                    text_at(t, ss.last().start as int, ss.last().end as int).unwrap(),
                    word,
                    rules,
                ).unwrap(),
            ),
        )
    } else {
        None
    }
}

/// The text with `word_edit` made.
pub open spec fn with_word(t: Seq<u8>, word: Seq<char>, rules: Seq<Seq<char>>) -> Seq<u8> {
    match word_edit(t, word, rules) {
        None => t,
        Some((sp, css)) => spliced(t, sp.start as int, sp.end as int, css),
    }
}

/// The first of the stylesheets `ss` that styles a `line` and no bare
/// `path`, with its rules widened to the `path` twins.
pub open spec fn path_edit(t: Seq<u8>, ss: Seq<Span>) -> Option<(Span, Seq<char>)>
    decreases ss.len(),
{
    if ss.len() == 0 {
        None
    } else {
        match text_at(t, ss[0].start as int, ss[0].end as int) {
            Some(css) => if widened(css) is Some {
                Some((ss[0], widened(css).unwrap()))
            } else {
                path_edit(t, ss.drop_first())
            },
            None => path_edit(t, ss.drop_first()),
        }
    }
}

/// The text with the top-level stylesheets widened to bent connectors,
/// one at a time, for at most `fuel` rounds.
pub open spec fn paths_styled(t: Seq<u8>, fuel: nat) -> Seq<u8>
    decreases fuel,
{
    if fuel == 0 {
        t
    } else {
        match path_edit(t, sheets_in(t)) {
            None => t,
            Some((sp, css)) => paths_styled(
                spliced(t, sp.start as int, sp.end as int, css),
                (fuel - 1) as nat,
            ),
        }
    }
}

/// An element's tag, or nothing.
pub open spec fn tag_of(n: Node) -> Seq<char> {
    match n.name {
        Some(s) => s@,
        None => Seq::empty(),
    }
}

/// The splice that makes `markup` node `node`'s interior: its content
/// replaced, or a self-closed element opened around it. `None` for a node
/// that is not there, or a self-closed one not spelled ending in `/>`.
pub open spec fn interior_edit(t: Seq<u8>, node: u32, markup: Seq<char>) -> Option<(int, int, Seq<char>)> {
    match node_at(flat_nodes(t), node) {
        None => None,
        Some(n) => match n.content_span {
            Some(c) => Some((c.start as int, c.end as int, markup)),
            None => match text_at(t, n.span.start as int, n.span.end as int) {
                Some(open) => if open.len() >= 2 && open.subrange(open.len() - 2, open.len() as int)
                    == "/>"@ {
                    Some(
                        (
                            n.span.start as int,
                            n.span.end as int,
                            open.subrange(0, open.len() - 2) + ">"@ + markup + "</"@ + tag_of(n)
                                + ">"@,
                        ),
                    )
                } else {
                    None
                },
                None => None,
            },
        },
    }
}

/// The splice that rewrites node `node` as `<tag>` with `attrs`, its
/// interior kept; `None` for a node that is not there.
pub open spec fn retag_edit(
    t: Seq<u8>,
    node: u32,
    tag: Seq<char>,
    attrs: Seq<(Seq<char>, Option<Seq<char>>)>,
) -> Option<(int, int, Seq<char>)> {
    match node_at(flat_nodes(t), node) {
        None => None,
        Some(n) => {
            let open = "<"@ + tag + attrs_markup(attrs, Seq::empty());
            match n.content_span {
                Some(c) => match text_at(t, c.start as int, c.end as int) {
                    Some(inner) => Some(
                        (
                            n.span.start as int,
                            n.span.end as int,
                            open + ">"@ + inner + "</"@ + tag + ">"@,
                        ),
                    ),
                    None => None,
                },
                None => Some((n.span.start as int, n.span.end as int, open + "/>"@)),
            }
        },
    }
}

/// The text with an optional splice made.
pub open spec fn with_edit(t: Seq<u8>, e: Option<(int, int, Seq<char>)>) -> Seq<u8> {
    match e {
        None => t,
        Some((a, b, m)) => spliced(t, a, b, m),
    }
}

/// Attributes written ` name="value"`, each value escaped.
pub open spec fn attr_list(attrs: Seq<(Seq<char>, Seq<char>)>) -> Seq<char>
    decreases attrs.len(),
{
    if attrs.len() == 0 {
        Seq::empty()
    } else {
        attr_list(attrs.drop_last()) + " "@ + attrs.last().0 + "=\""@ + escaped(attrs.last().1)
            + "\""@
    }
}

/// One element as `add_shape` writes it: `attrs`, then `data-id`, then
/// the pen's words, then `content` escaped between tags or a self-closing
/// tag.
pub open spec fn shape_markup(
    tag: Seq<char>,
    attrs: Seq<(Seq<char>, Seq<char>)>,
    id: Seq<char>,
    words: Seq<(Seq<char>, Seq<char>)>,
    content: Option<Seq<char>>,
) -> Seq<char> {
    "<"@ + tag + attr_list(attrs) + " data-id=\""@ + id + "\""@ + attr_list(words) + match content {
        Some(c) => ">"@ + escaped(c) + "</"@ + tag + ">"@,
        None => "/>"@,
    }
}

/// The text with `markup` on a line of its own as the topmost child of
/// `<svg>`: after its last element, or as its first child when it has
/// none.
pub open spec fn appended_to_root(t: Seq<u8>, markup: Seq<char>) -> Seq<u8> {
    let nodes = flat_nodes(t);
    let root = root_of(nodes).unwrap();
    let line = "\n  "@ + markup;
    match crate::document::last_element(nodes, children(nodes, root)) {
        Some(last) => inserted_after(t, locator_of(nodes, last), line),
        None => inserted_child(
            t,
            locator_of(nodes, root),
            0,
            if node_at(nodes, root).unwrap().first_child is None {
                line + "\n"@
            } else {
                line
            },
        ),
    }
}

/// A pair list by its views.
pub open spec fn pairs_view(v: Seq<(String, String)>) -> Seq<(Seq<char>, Seq<char>)> {
    v.map_values(|w: (String, String)| (w.0@, w.1@))
}

impl Drawing {
    /// The characters between two byte offsets of the source.
    fn text_between(&self, start: usize, end: usize) -> (r: Option<&str>)
        requires
            self.wf(),
        ensures
            opt_str_view(r) == text_at(self.text(), start as int, end as int),
    {
        let r = crate::text::byte_range(self.source.as_str(), start, end);
        proof {
            broadcast use vstd::utf8::encode_utf8_decode_utf8;

            if let Some(x) = r {
                assert(decode_utf8(encode_utf8(x@)) == x@);
            }
        }
        r
    }

    /// Replace bytes `start..end` with `s`: one `edit_range`, folded into
    /// the gesture.
    fn splice(&mut self, start: usize, end: usize, s: &str, steps: &mut Steps) -> (r: Result<
        (),
        DrawingError,
    >)
        requires
            old(steps).holds(*old(self)),
        ensures
            r matches Err(e) ==> from_twig(e, final(self).text()),
            final(steps).same_gesture(*old(steps)),
            final(self).pen == old(self).pen,
            r is Ok ==> {
                &&& final(self).wf()
                &&& final(steps).holds(*final(self))
                &&& final(steps).made()
                &&& start <= end <= old(self).text().len()
                &&& final(self).text() == spliced(old(self).text(), start as int, end as int, s@)
            },
    {
        let ghost prev = self.editor;
        match crate::twig_spec::editor_edit_range(&mut self.editor, start, end, s) {
            Ok(()) => {},
            Err(e) => return Err(DrawingError::Edit(e)),
        }
        self.commit(steps, Ghost(prev))
    }

    /// Make an optional splice.
    fn splice_opt(&mut self, e: Option<(usize, usize, String)>, steps: &mut Steps) -> (r: Result<
        (),
        DrawingError,
    >)
        requires
            old(self).wf(),
            old(steps).holds(*old(self)),
        ensures
            r matches Err(e) ==> from_twig(e, final(self).text()),
            final(steps).same_gesture(*old(steps)),
            final(self).pen == old(self).pen,
            e is None ==> r is Ok && *final(self) == *old(self) && *final(steps) == *old(steps),
            r is Ok ==> {
                &&& final(self).wf()
                &&& final(steps).holds(*final(self))
                &&& final(self).text() == with_edit(
                    old(self).text(),
                    match e {
                        Some((a, b, m)) => Some((a as int, b as int, m@)),
                        None => None,
                    },
                )
            },
    {
        match e {
            Some((a, b, m)) => self.splice(a, b, m.as_str(), steps),
            None => Ok(()),
        }
    }

    /// The content of each top-level `<style>`.
    fn style_sheets(&self) -> (r: Vec<Span>)
        requires
            self.wf(),
        ensures
            r@ == sheets_in(self.text()),
    {
        let kids = crate::tree::children_of(&self.nodes, self.root);
        let mut out: Vec<Span> = Vec::new();
        let mut j: usize = 0;
        while j < kids.len()
            invariant
                j <= kids@.len(),
                out@ == sheets_among(self.nodes@, kids@.take(j as int)),
            decreases kids@.len() - j,
        {
            assert(kids@.take(j + 1).drop_last() =~= kids@.take(j as int));
            if let Some(i) = node_index(&self.nodes, kids[j]) {
                assert(node_at(self.nodes@, kids@[j as int]) == Some(self.nodes@[i as int]));
                let n = &self.nodes[i];
                let style = match &n.name {
                    Some(name) => {
                        proof {
                            reveal_strlit("style");
                        }
                        crate::text::str_eq(name.as_str(), "style")
                    },
                    None => false,
                };
                if style {
                    if let Some(c) = n.content_span {
                        out.push(c);
                    }
                }
            }
            j += 1;
        }
        assert(kids@.take(kids@.len() as int) =~= kids@);
        out
    }

    /// Bring `rules` for `word` into the last top-level `<style>`, folded
    /// into the gesture — unless some `<style>` already selects the word,
    /// in which case its author has said what it means, or there is no
    /// `<style>` at all, in which case how the word looks is a stylesheet's
    /// to say.
    pub fn style_word(&mut self, word: &str, rules: &Vec<String>, steps: &mut Steps) -> (r: Result<
        (),
        DrawingError,
    >)
        requires
            old(self).wf(),
            old(steps).holds(*old(self)),
        ensures
            r matches Err(e) ==> from_twig(e, final(self).text()),
            final(steps).same_gesture(*old(steps)),
            final(self).pen_v() == old(self).pen_v(),
            word_edit(old(self).text(), word@, strings_view(rules@)) is None ==> r is Ok
                && *final(self) == *old(self) && *final(steps) == *old(steps),
            r is Ok ==> {
                &&& final(self).wf()
                &&& final(steps).holds(*final(self))
                &&& final(self).text() == with_word(old(self).text(), word@, strings_view(rules@))
            },
    {
        let ghost t = self.text();
        let ghost rv = strings_view(rules@);
        let sheets = self.style_sheets();
        let mut edit: Option<(usize, usize, String)> = None;
        let mut k: usize = 0;
        while k < sheets.len()
            invariant
                self.wf(),
                *self == *old(self),
                *steps == *old(steps),
                old(steps).holds(*old(self)),
                t == self.text(),
                sheets@ == sheets_in(t),
                rv == strings_view(rules@),
                k <= sheets@.len(),
                forall|i: int| 0 <= i < k ==> takes_word(t, #[trigger] sheets@[i], word@, rv),
                k > 0 ==> (edit matches Some((a, b, m)) && a == sheets@[k - 1].start && b
                    == sheets@[k - 1].end && Some(m@) == with_rules_text(
                    text_at(t, a as int, b as int).unwrap(),
                    word@,
                    rv,
                )),
                k == 0 ==> edit is None,
            decreases sheets@.len() - k,
        {
            let sp = sheets[k];
            let css = match self.text_between(sp.start, sp.end) {
                Some(c) => c,
                None => {
                    proof {
                        assert(!takes_word(t, sheets@[k as int], word@, rv));
                        assert(word_edit(t, word@, rv) is None);
                    }
                    return Ok(());
                },
            };
            match with_rules(css, word, rules) {
                Some(added) => {
                    edit = Some((sp.start, sp.end, added));
                },
                None => {
                    proof {
                        assert(!takes_word(t, sheets@[k as int], word@, rv));
                        assert(word_edit(t, word@, rv) is None);
                    }
                    return Ok(());
                },
            }
            k += 1;
        }
        self.splice_opt(edit, steps)
    }

    /// A bent connector is a `<path>`, and how it looks is the drawing's
    /// `<style>`'s to say. One written before paths were styled says
    /// nothing about it, and SVG's defaults draw a silhouette where the
    /// arrow was. Each top-level `<style>` that selects a `line` and no
    /// bare `path` is widened so its `line` rules select the `path` twin
    /// too, folded into the gesture's step.
    pub fn style_paths(&mut self, steps: &mut Steps) -> (r: Result<(), DrawingError>)
        requires
            old(self).wf(),
            old(steps).holds(*old(self)),
        ensures
            r matches Err(e) ==> from_twig(e, final(self).text()),
            final(steps).same_gesture(*old(steps)),
            final(self).pen_v() == old(self).pen_v(),
            r is Ok ==> {
                &&& final(self).wf()
                &&& final(steps).holds(*final(self))
                &&& final(self).text() == paths_styled(
                    old(self).text(),
                    flat_nodes(old(self).text()).len(),
                )
            },
    {
        let ghost t0 = self.text();
        let mut fuel = self.nodes.len();
        while fuel > 0
            invariant
                self.wf(),
                steps.holds(*self),
                steps.same_gesture(*old(steps)),
                self.pen == old(self).pen,
                paths_styled(t0, flat_nodes(t0).len()) == paths_styled(self.text(), fuel as nat),
                t0 == old(self).text(),
            decreases fuel,
        {
            let ghost t = self.text();
            let sheets = self.style_sheets();
            let mut found: Option<(usize, usize, String)> = None;
            let mut k: usize = 0;
            assert(sheets@.skip(0) =~= sheets@);
            assert(sheets@.skip(sheets@.len() as int) =~= Seq::<Span>::empty());
            while k < sheets.len()
                invariant_except_break
                    found is None,
                invariant
                    self.wf(),
                    t == self.text(),
                    sheets@ == sheets_in(t),
                    k <= sheets@.len(),
                    path_edit(t, sheets@) == path_edit(t, sheets@.skip(k as int)),
                    sheets@.skip(sheets@.len() as int) =~= Seq::<Span>::empty(),
                ensures
                    found matches Some((a, b, m)) ==> path_edit(t, sheets@) == Some(
                        (Span { start: a, end: b }, m@),
                    ),
                    found is None ==> path_edit(t, sheets@) is None,
                decreases sheets@.len() - k,
            {
                let sp = sheets[k];
                let ghost rest = sheets@.skip(k as int);
                assert(rest[0] == sp);
                assert(rest.drop_first() =~= sheets@.skip(k + 1));
                if let Some(css) = self.text_between(sp.start, sp.end) {
                    if let Some(w) = widened_for_paths(css) {
                        found = Some((sp.start, sp.end, w));
                        break;
                    }
                }
                k += 1;
            }
            match found {
                None => return Ok(()),
                Some((a, b, m)) => {
                    self.splice(a, b, m.as_str(), steps)?;
                },
            }
            fuel -= 1;
        }
        Ok(())
    }

    /// Replace an element's interior with `markup`, opening a self-closed
    /// one: one `edit_range`, folded into the gesture. A node that is not
    /// there is left as it is.
    pub fn write_interior(&mut self, node: crate::tree::NodeId, markup: &str, steps: &mut Steps) -> (r: Result<
        (),
        DrawingError,
    >)
        requires
            old(self).wf(),
            old(steps).holds(*old(self)),
        ensures
            r matches Err(e) ==> from_twig(e, final(self).text()),
            final(steps).same_gesture(*old(steps)),
            final(self).pen_v() == old(self).pen_v(),
            interior_edit(old(self).text(), node.0, markup@) is None ==> r is Ok && *final(self) == *old(self),
            r is Ok ==> {
                &&& final(self).wf()
                &&& final(steps).holds(*final(self))
                &&& final(self).text() == with_edit(
                    old(self).text(),
                    interior_edit(old(self).text(), node.0, markup@),
                )
            },
    {
        let i = match node_index(&self.nodes, node.0) {
            Some(i) => i,
            None => return Ok(()),
        };
        assert(node_at(self.nodes@, node.0) == Some(self.nodes@[i as int]));
        let n = &self.nodes[i];
        let edit = match n.content_span {
            Some(c) => Some((c.start, c.end, crate::text::owned(markup))),
            None => {
                match self.text_between(n.span.start, n.span.end) {
                    None => None,
                    Some(open) => {
                        let cs = crate::text::to_chars(open);
                        let m = cs.len();
                        if m >= 2 && cs[m - 2] == '/' && cs[m - 1] == '>' {
                            proof {
                                reveal_strlit("/>");
                                assert(cs@.subrange(m - 2, m as int) =~= "/>"@);
                            }
                            let mut out = crate::text::string_of(cs.as_slice(), 0, m - 2);
                            push_char(&mut out, '>');
                            push_str(&mut out, markup);
                            push_str(&mut out, "</");
                            if let Some(tag) = &n.name {
                                push_str(&mut out, tag.as_str());
                            }
                            push_char(&mut out, '>');
                            proof {
                                reveal_strlit("</");
                                reveal_strlit(">");
                                assert(out@ =~= cs@.subrange(0, m - 2) + ">"@ + markup@ + "</"@
                                    + tag_of(self.nodes@[i as int]) + ">"@);
                            }
                            Some((n.span.start, n.span.end, out))
                        } else {
                            proof {
                                reveal_strlit("/>");
                                if m >= 2 {
                                    assert(cs@.subrange(m - 2, m as int)[1] == cs@[m - 1]);
                                    assert(cs@.subrange(m - 2, m as int)[0] == cs@[m - 2]);
                                }
                            }
                            None
                        }
                    },
                }
            },
        };
        self.splice_opt(edit, steps)
    }

    /// Rewrite an element as `<tag>` with `attrs`, its interior kept: one
    /// `edit_range` over the element, folded into the gesture. A node that
    /// is not there is left as it is.
    pub fn retag(
        &mut self,
        node: crate::tree::NodeId,
        tag: &str,
        attrs: &Vec<(String, Option<String>)>,
        steps: &mut Steps,
    ) -> (r: Result<(), DrawingError>)
        requires
            old(self).wf(),
            old(steps).holds(*old(self)),
        ensures
            r matches Err(e) ==> from_twig(e, final(self).text()),
            final(steps).same_gesture(*old(steps)),
            final(self).pen_v() == old(self).pen_v(),
            retag_edit(old(self).text(), node.0, tag@, attrs_view(attrs@)) is None ==> r is Ok
                && *final(self) == *old(self),
            r is Ok ==> {
                &&& final(self).wf()
                &&& final(steps).holds(*final(self))
                &&& final(self).text() == with_edit(
                    old(self).text(),
                    retag_edit(old(self).text(), node.0, tag@, attrs_view(attrs@)),
                )
            },
    {
        let i = match node_index(&self.nodes, node.0) {
            Some(i) => i,
            None => return Ok(()),
        };
        assert(node_at(self.nodes@, node.0) == Some(self.nodes@[i as int]));
        let n = &self.nodes[i];
        let mut markup = crate::text::owned("<");
        push_str(&mut markup, tag);
        let no_skip: Vec<&str> = Vec::new();
        write_attributes(&mut markup, attrs.as_slice(), no_skip.as_slice());
        proof {
            reveal_strlit("<");
            assert(crate::shape::views(no_skip@) =~= Seq::<Seq<char>>::empty());
        }
        let ghost open = markup@;
        let edit = match n.content_span {
            Some(c) => match self.text_between(c.start, c.end) {
                Some(inner) => {
                    push_char(&mut markup, '>');
                    push_str(&mut markup, inner);
                    push_str(&mut markup, "</");
                    push_str(&mut markup, tag);
                    push_char(&mut markup, '>');
                    proof {
                        reveal_strlit("</");
                        reveal_strlit(">");
                        assert(markup@ =~= open + ">"@ + inner@ + "</"@ + tag@ + ">"@);
                    }
                    Some((n.span.start, n.span.end, markup))
                },
                None => None,
            },
            None => {
                push_str(&mut markup, "/>");
                proof {
                    reveal_strlit("/>");
                }
                Some((n.span.start, n.span.end, markup))
            },
        };
        self.splice_opt(edit, steps)
    }

    /// Insert markup as the topmost child of `<svg>`, on its own line, in
    /// one splice folded into the gesture: after the last element when
    /// there is one; otherwise as the first child.
    pub fn append_to_root(&mut self, markup: &str, steps: &mut Steps) -> (r: Result<(), DrawingError>)
        requires
            old(self).wf(),
            old(steps).holds(*old(self)),
        ensures
            r matches Err(e) ==> from_twig(e, final(self).text()),
            final(steps).same_gesture(*old(steps)),
            final(self).pen_v() == old(self).pen_v(),
            r is Ok ==> {
                &&& final(self).wf()
                &&& final(steps).holds(*final(self))
                &&& final(steps).made()
                &&& final(self).text() == appended_to_root(old(self).text(), markup@)
            },
    {
        let mut line = crate::text::owned("\n  ");
        push_str(&mut line, markup);
        proof {
            reveal_strlit("\n  ");
        }
        let ghost prev = self.editor;
        let done = match crate::document::last_element_child(&self.nodes, self.root) {
            Some(last) => {
                let loc = locator(&self.nodes, last);
                crate::twig_spec::editor_insert_after(&mut self.editor, loc.as_str(), line.as_str())
            },
            None => {
                let loc = locator(&self.nodes, self.root);
                let i = node_index(&self.nodes, self.root);
                let empty = match i {
                    Some(i) => self.nodes[i].first_child.is_none(),
                    None => true,
                };
                proof {
                    crate::tree::lemma_find_node(self.nodes@, self.root);
                    assert(i is Some);
                    assert(node_at(self.nodes@, self.root) == Some(self.nodes@[i.unwrap() as int]));
                }
                if empty {
                    push_char(&mut line, '\n');
                    proof {
                        reveal_strlit("\n");
                        assert(line@ =~= "\n  "@ + markup@ + "\n"@);
                    }
                }
                crate::twig_spec::editor_insert_child(&mut self.editor, loc.as_str(), 0, line.as_str())
            },
        };
        match done {
            Ok(()) => {},
            Err(e) => return Err(DrawingError::Edit(e)),
        }
        self.commit(steps, Ghost(prev))
    }

    /// Write one element — `attrs`, then the minted `data-id`, then the
    /// pen's words, then `content` escaped between tags or a self-closing
    /// tag — as the topmost child of `<svg>`, folded into the gesture; a
    /// dash among the words brings its rules into the drawing's `<style>`
    /// in the same step. Returns the id.
    pub fn add_shape(
        &mut self,
        tag: &str,
        attrs: &Vec<(String, String)>,
        content: Option<&str>,
        steps: &mut Steps,
    ) -> (r: Result<String, DrawingError>)
        requires
            old(self).wf(),
            old(steps).holds(*old(self)),
        ensures
            r matches Err(e) ==> from_twig(e, final(self).text()),
            final(steps).same_gesture(*old(steps)),
            final(self).pen_v() == old(self).pen_v(),
            r matches Ok(id) ==> {
                let id_v = crate::document::minted(shapes_in(old(self).text()), 0);
                let markup = shape_markup(
                    tag@,
                    pairs_view(attrs@),
                    id_v,
                    pen_words(old(self).pen_v(), tag@),
                    opt_str_view(content),
                );
                let added = appended_to_root(old(self).text(), markup);
                &&& id@ == id_v
                &&& final(self).wf()
                &&& final(steps).holds(*final(self))
                &&& final(steps).made()
                &&& final(self).text() == if pen_words(old(self).pen_v(), tag@).len() > 0 {
                    with_word(added, "[data-dash"@, crate::style::dash_rules_v())
                } else {
                    added
                }
            },
    {
        proof {
            self.lemma_wf();
        }
        let id = crate::document::mint_id_after(self.shapes.as_slice(), 0);
        let words = self.pen.words(tag);
        let markup = element_markup(tag, attrs, id.as_str(), &words, content);
        self.append_to_root(markup.as_str(), steps)?;
        if words.len() > 0 {
            let rules = crate::style::dash_rules();
            self.style_word("[data-dash", &rules, steps)?;
        }
        Ok(id)
    }
}

/// One element as `add_shape` writes it: `attrs`, then `data-id`, then
/// `words`, then `content` escaped between tags or a self-closing tag.
pub fn element_markup(
    tag: &str,
    attrs: &Vec<(String, String)>,
    id: &str,
    words: &Vec<(String, String)>,
    content: Option<&str>,
) -> (r: String)
    ensures
        r@ == shape_markup(tag@, pairs_view(attrs@), id@, pairs_view(words@), opt_str_view(content)),
{
    let mut markup = crate::text::owned("<");
    push_str(&mut markup, tag);
    push_attr_list(&mut markup, attrs);
    push_str(&mut markup, " data-id=\"");
    push_str(&mut markup, id);
    push_str(&mut markup, "\"");
    push_attr_list(&mut markup, words);
    match content {
        Some(text) => {
            push_char(&mut markup, '>');
            let e = escape(text);
            push_str(&mut markup, e.as_str());
            push_str(&mut markup, "</");
            push_str(&mut markup, tag);
            push_char(&mut markup, '>');
        },
        None => {
            push_str(&mut markup, "/>");
        },
    }
    proof {
        reveal_strlit("<");
        reveal_strlit(" data-id=\"");
        reveal_strlit("\"");
        reveal_strlit(">");
        reveal_strlit("</");
        reveal_strlit("/>");
        assert(markup@ =~= shape_markup(
            tag@,
            pairs_view(attrs@),
            id@,
            pairs_view(words@),
            opt_str_view(content),
        ));
    }
    markup
}

/// A note as `add_note` writes it: a `<g data-role="note">` holding a
/// `<rect>` with `frame_attrs` and the pen's `words`, and a `<text>` with
/// `label_attrs` and `text` trimmed and escaped, each on a line of its own.
pub open spec fn note_markup_of(
    ids: (Seq<char>, Seq<char>, Seq<char>),
    frame_attrs: Seq<(Seq<char>, Seq<char>)>,
    words: Seq<(Seq<char>, Seq<char>)>,
    label_attrs: Seq<(Seq<char>, Seq<char>)>,
    text: Seq<char>,
) -> Seq<char> {
    "<g data-role=\"note\" data-id=\""@ + ids.0 + "\">\n    "@ + shape_markup(
        "rect"@,
        frame_attrs,
        ids.1,
        words,
        None,
    ) + "\n    "@ + shape_markup("text"@, label_attrs, ids.2, Seq::empty(), Some(crate::text::trim(text)))
        + "\n  </g>"@
}

/// A note's markup: a `<g data-role="note">` with id `group` holding a
/// `<rect>` with id `frame`, `frame_attrs` and the pen's `words`, and a
/// `<text>` with id `label`, `label_attrs` and `text` trimmed and escaped.
pub fn note_markup(
    group: &str,
    frame: &str,
    label: &str,
    frame_attrs: &Vec<(String, String)>,
    words: &Vec<(String, String)>,
    label_attrs: &Vec<(String, String)>,
    text: &str,
) -> (r: String)
    ensures
        r@ == note_markup_of(
            (group@, frame@, label@),
            pairs_view(frame_attrs@),
            pairs_view(words@),
            pairs_view(label_attrs@),
            text@,
        ),
{
    let mut out = crate::text::owned("<g data-role=\"note\" data-id=\"");
    push_str(&mut out, group);
    push_str(&mut out, "\">\n    ");
    let rect = element_markup("rect", frame_attrs, frame, words, None);
    push_str(&mut out, rect.as_str());
    push_str(&mut out, "\n    ");
    let no_words: Vec<(String, String)> = Vec::new();
    let trimmed = crate::text::trimmed(text);
    let body = element_markup("text", label_attrs, label, &no_words, Some(trimmed.as_str()));
    push_str(&mut out, body.as_str());
    push_str(&mut out, "\n  </g>");
    assert(pairs_view(no_words@) =~= Seq::<(Seq<char>, Seq<char>)>::empty());
    out
}

/// Append attributes written ` name="value"`, each value escaped.
fn push_attr_list(out: &mut String, attrs: &Vec<(String, String)>)
    ensures
        final(out)@ == old(out)@ + attr_list(pairs_view(attrs@)),
{
    let ghost start = out@;
    let mut k: usize = 0;
    while k < attrs.len()
        invariant
            k <= attrs@.len(),
            out@ == start + attr_list(pairs_view(attrs@.take(k as int))),
        decreases attrs@.len() - k,
    {
        assert(pairs_view(attrs@.take(k + 1)).drop_last() =~= pairs_view(attrs@.take(k as int)));
        push_char(out, ' ');
        push_str(out, attrs[k].0.as_str());
        push_str(out, "=\"");
        let e = escape(attrs[k].1.as_str());
        push_str(out, e.as_str());
        push_str(out, "\"");
        proof {
            reveal_strlit(" ");
            reveal_strlit("=\"");
            reveal_strlit("\"");
        }
        k += 1;
    }
    assert(attrs@.take(attrs@.len() as int) =~= attrs@);
}

// ----- groups, notes and the words of a shape --------------------------

/// The members among the first `k` of `shapes` directly inside the group
/// `g`, in paint order; none when `g` is not a group with an id.
pub open spec fn member_views(shapes: Seq<ShapeView>, g: ShapeView, k: nat) -> Seq<ShapeView>
    decreases k,
{
    if k == 0 || k > shapes.len() {
        Seq::empty()
    } else {
        let head = member_views(shapes, g, (k - 1) as nat);
        if g.kind == ShapeKind::Group && g.id is Some && shapes[k - 1].group == g.id {
            head.push(shapes[k - 1])
        } else {
            head
        }
    }
}

/// The shapes directly inside the group `id`, in paint order.
pub open spec fn members_in(shapes: Seq<ShapeView>, id: Seq<char>) -> Seq<ShapeView> {
    match shape_named(shapes, id) {
        Some(g) => member_views(shapes, g, shapes.len()),
        None => Seq::empty(),
    }
}

/// The first of `ms` of kind `k`.
pub open spec fn first_of_kind(ms: Seq<ShapeView>, k: ShapeKind) -> Option<ShapeView>
    decreases ms.len(),
{
    if ms.len() == 0 {
        None
    } else if ms[0].kind == k {
        Some(ms[0])
    } else {
        first_of_kind(ms.drop_first(), k)
    }
}

/// A note's frame and label ids, when `id` is a note: a group whose
/// `data-role` is `note`, its first `<rect>` member the frame and its
/// first `<text>` member the label, each with an id.
pub open spec fn note_in(shapes: Seq<ShapeView>, id: Seq<char>) -> Option<(Seq<char>, Seq<char>)> {
    match shape_named(shapes, id) {
        None => None,
        Some(g) => if g.kind == ShapeKind::Group && crate::shape::attr_value(g.attrs, "data-role"@)
            == Some("note"@) {
            let ms = members_in(shapes, id);
            match (first_of_kind(ms, ShapeKind::Rect), first_of_kind(ms, ShapeKind::Text)) {
                (Some(f), Some(l)) => match (f.id, l.id) {
                    (Some(a), Some(b)) => Some((a, b)),
                    _ => None,
                },
                _ => None,
            }
        } else {
            None
        },
    }
}

/// The group a shape is in, followed outwards for at most `fuel` steps.
pub open spec fn outermost_from(shapes: Seq<ShapeView>, s: ShapeView, fuel: nat) -> ShapeView
    decreases fuel,
{
    if fuel == 0 {
        s
    } else {
        match s.group {
            Some(g) => match shape_named(shapes, g) {
                Some(p) => outermost_from(shapes, p, (fuel - 1) as nat),
                None => s,
            },
            None => s,
        }
    }
}

/// Whether a shape is drawn as a stroke.
pub open spec fn view_stroked(s: ShapeView) -> bool {
    match s.kind {
        ShapeKind::Rect | ShapeKind::Ellipse | ShapeKind::Circle | ShapeKind::Line
        | ShapeKind::Polyline | ShapeKind::Polygon => true,
        ShapeKind::Path => crate::shape::attr_value(s.attrs, "data-ink"@) is None,
        _ => false,
    }
}

/// What `set_dash` on `id` writes to: `None` for an id that names
/// nothing; `Some(None)` for a shape that is not stroked — a note is its
/// frame; `Some(Some(t))` for the shape that takes the word.
pub open spec fn dash_target(shapes: Seq<ShapeView>, id: Seq<char>) -> Option<Option<ShapeView>> {
    match shape_named(shapes, id) {
        None => None,
        Some(s) => match note_in(shapes, id) {
            Some((frame, _)) => Some(shape_named(shapes, frame)),
            None => if view_stroked(s) {
                Some(Some(s))
            } else {
                Some(None)
            },
        },
    }
}

/// An optional value, surrounding whitespace aside.
pub open spec fn trimmed_opt(v: Option<Seq<char>>) -> Option<Seq<char>> {
    match v {
        Some(x) => Some(crate::text::trim(x)),
        None => None,
    }
}

/// The value a dash is spelled as, or nothing.
pub open spec fn dash_spelled(dash: Option<Dash>) -> Option<Seq<char>> {
    match dash {
        Some(d) => Some(crate::shape::dash_value(d)),
        None => None,
    }
}

/// The value heads are spelled as, or nothing.
pub open spec fn heads_spelled(heads: Option<crate::shape::Heads>) -> Option<Seq<char>> {
    match heads {
        Some(h) => Some(crate::shape::heads_value(h)),
        None => None,
    }
}

/// The text after `t` takes `data-dash` for `dash` — the template's rules
/// brought in with a dash — or `None` when it already says so.
pub open spec fn dashed(text: Seq<u8>, t: ShapeView, dash: Option<Dash>) -> Option<Seq<u8>> {
    if trimmed_opt(crate::shape::attr_value(t.attrs, "data-dash"@)) == dash_spelled(dash) {
        None
    } else {
        let t1 = attrs_written(
            text,
            t.node,
            merged(t.attrs, seq![("data-dash"@, dash_spelled(dash))]),
        );
        Some(
            if dash is Some {
                with_word(t1, "[data-dash"@, crate::style::dash_rules_v())
            } else {
                t1
            },
        )
    }
}

/// The updates `set_heads` writes to a connector: `data-arrow`, and a
/// `marker-start` or `marker-end` the file spelled itself taken off.
pub open spec fn heads_updates(s: ShapeView, heads: Option<crate::shape::Heads>) -> Seq<
    (Seq<char>, Option<Seq<char>>),
> {
    seq![("data-arrow"@, heads_spelled(heads))] + (if crate::shape::attr_value(
        s.attrs,
        "marker-start"@,
    ) is Some {
        seq![("marker-start"@, None::<Seq<char>>)]
    } else {
        Seq::empty()
    }) + (if crate::shape::attr_value(s.attrs, "marker-end"@) is Some {
        seq![("marker-end"@, None::<Seq<char>>)]
    } else {
        Seq::empty()
    })
}

/// The text after the connector `s` takes `heads`, or `None` when it
/// already says so and spells no marker of its own.
pub open spec fn headed(text: Seq<u8>, s: ShapeView, heads: Option<crate::shape::Heads>) -> Option<
    Seq<u8>,
> {
    let u = heads_updates(s, heads);
    if trimmed_opt(crate::shape::attr_value(s.attrs, "data-arrow"@)) == heads_spelled(heads)
        && u.len() == 1 {
        None
    } else {
        Some(attrs_written(text, s.node, merged(s.attrs, u)))
    }
}

/// The text after `set_dash` over `ids`, one after the other, a shape
/// that is not stroked left as it is; `None` when an id names nothing.
pub open spec fn dash_all(t: Seq<u8>, ids: Seq<Seq<char>>, dash: Option<Dash>) -> Option<Seq<u8>>
    decreases ids.len(),
{
    if ids.len() == 0 {
        Some(t)
    } else {
        match dash_all(t, ids.drop_last(), dash) {
            None => None,
            Some(t1) => match dash_target(shapes_in(t1), ids.last()) {
                None => None,
                Some(None) => Some(t1),
                Some(Some(x)) => match dashed(t1, x, dash) {
                    None => Some(t1),
                    Some(t2) => Some(t2),
                },
            },
        }
    }
}

/// Whether `set_dash` over `ids` writes nothing to `t`: each id names a
/// shape, and each is either not stroked or already says `dash`.
pub open spec fn dash_quiet(t: Seq<u8>, ids: Seq<Seq<char>>, dash: Option<Dash>) -> bool
    decreases ids.len(),
{
    ids.len() == 0 || (dash_quiet(t, ids.drop_last(), dash) && match dash_target(
        shapes_in(t),
        ids.last(),
    ) {
        None => false,
        Some(None) => true,
        Some(Some(x)) => dashed(t, x, dash) is None,
    })
}

/// A selection on which `set_dash` writes nothing writes nothing on its
/// first `k` ids either.
proof fn lemma_dash_quiet_prefix(t: Seq<u8>, ids: Seq<Seq<char>>, k: int, dash: Option<Dash>)
    requires
        0 <= k <= ids.len(),
        dash_quiet(t, ids, dash),
    ensures
        dash_quiet(t, ids.take(k), dash),
    decreases ids.len(),
{
    if k < ids.len() {
        assert(ids.drop_last().take(k) =~= ids.take(k));
        lemma_dash_quiet_prefix(t, ids.drop_last(), k, dash);
    } else {
        assert(ids.take(k) =~= ids);
    }
}

/// Once an id among the first `k` names nothing, `set_dash` over all of
/// `ids` is refused.
proof fn lemma_dash_all_refused(t: Seq<u8>, ids: Seq<Seq<char>>, k: int, dash: Option<Dash>)
    requires
        0 <= k <= ids.len(),
        dash_all(t, ids.take(k), dash) is None,
    ensures
        dash_all(t, ids, dash) is None,
    decreases ids.len(),
{
    if k < ids.len() {
        assert(ids.drop_last().take(k) =~= ids.take(k));
        lemma_dash_all_refused(t, ids.drop_last(), k, dash);
    } else {
        assert(ids.take(k) =~= ids);
    }
}

impl Drawing {
    /// The shapes directly inside a `<g>`, in paint order. Empty for a
    /// shape that is not a group.
    pub fn members(&self, id: &str) -> (r: Vec<&Shape>)
        requires
            self.wf(),
        ensures
            r@.map_values(|s: &Shape| s@) == members_in(shapes_in(self.text()), id@),
    {
        proof {
            self.lemma_wf();
            lemma_find_shape(shapes_view(self.shapes@), id@);
        }
        let ghost sv = shapes_view(self.shapes@);
        let mut out: Vec<&Shape> = Vec::new();
        let g = match self.shape_index(id) {
            Some(g) => g,
            None => return out,
        };
        let group = &self.shapes[g];
        assert(sv[g as int] == group@);
        let mut k: usize = 0;
        while k < self.shapes.len()
            invariant
                sv == shapes_view(self.shapes@),
                k <= self.shapes@.len(),
                g < self.shapes@.len(),
                group@ == sv[g as int],
                out@.map_values(|s: &Shape| s@) == member_views(sv, sv[g as int], k as nat),
            decreases self.shapes@.len() - k,
        {
            let s = &self.shapes[k];
            assert(sv[k as int] == s@);
            let member = group.kind == ShapeKind::Group && match (&group.id, &s.group) {
                (Some(a), Some(b)) => crate::text::str_eq(a.as_str(), b.as_str()),
                _ => false,
            };
            let ghost before = out@;
            if member {
                out.push(s);
                assert(out@.map_values(|s: &Shape| s@) =~= before.map_values(|s: &Shape| s@).push(
                    s@,
                ));
            }
            assert(out@.map_values(|s: &Shape| s@) =~= member_views(sv, sv[g as int], (k + 1) as nat));
            k += 1;
        }
        out
    }

    /// A note's members, when `id` is a note: its box and its label.
    pub fn note(&self, id: &str) -> (r: Option<Note>)
        requires
            self.wf(),
        ensures
            (match r {
                Some(n) => Some((n.frame@, n.label@)),
                None => None,
            }) == note_in(shapes_in(self.text()), id@),
    {
        proof {
            self.lemma_wf();
        }
        let group = match self.shape(id) {
            Some(g) => g,
            None => return None,
        };
        let role = group.attr("data-role");
        let is_note = match role {
            Some(v) => crate::text::str_eq(v, "note"),
            None => false,
        };
        proof {
            reveal_strlit("note");
            reveal_strlit("data-role");
        }
        if group.kind != ShapeKind::Group || !is_note {
            return None;
        }
        let members = self.members(id);
        let ghost mv = members@.map_values(|s: &Shape| s@);
        let mut frame: Option<&Shape> = None;
        let mut label: Option<&Shape> = None;
        let mut k: usize = members.len();
        // From the last member back, so the first of each kind is kept.
        assert(mv.skip(mv.len() as int) =~= Seq::<ShapeView>::empty());
        while k > 0
            invariant
                k <= members@.len(),
                mv == members@.map_values(|s: &Shape| s@),
                (match frame {
                    Some(f) => Some(f@),
                    None => None,
                }) == first_of_kind(mv.skip(k as int), ShapeKind::Rect),
                (match label {
                    Some(l) => Some(l@),
                    None => None,
                }) == first_of_kind(mv.skip(k as int), ShapeKind::Text),
            decreases k,
        {
            let m = members[k - 1];
            assert(mv[k - 1] == m@);
            assert(mv.skip(k - 1)[0] == m@);
            assert(mv.skip(k - 1).drop_first() =~= mv.skip(k as int));
            if m.kind == ShapeKind::Rect {
                frame = Some(m);
            }
            if m.kind == ShapeKind::Text {
                label = Some(m);
            }
            k -= 1;
        }
        assert(mv.skip(0) =~= mv);
        match (frame, label) {
            (Some(f), Some(l)) => match (&f.id, &l.id) {
                (Some(a), Some(b)) => Some(Note { frame: a.clone(), label: b.clone() }),
                _ => None,
            },
            _ => None,
        }
    }

    /// The outermost group a shape is in, or the shape itself — what a
    /// click on a member selects.
    pub fn outermost(&self, id: &str) -> (r: Option<&Shape>)
        requires
            self.wf(),
        ensures
            (match r {
                Some(s) => Some(s@),
                None => None,
            }) == (match shape_named(shapes_in(self.text()), id@) {
                Some(s) => Some(outermost_from(shapes_in(self.text()), s, shapes_in(self.text()).len())),
                None => None,
            }),
    {
        proof {
            self.lemma_wf();
        }
        let ghost sv = shapes_view(self.shapes@);
        let mut shape = match self.shape(id) {
            Some(s) => s,
            None => return None,
        };
        let mut fuel = self.shapes.len();
        while fuel > 0
            invariant
                self.wf(),
                sv == shapes_view(self.shapes@),
                sv == shapes_in(self.text()),
                fuel <= sv.len(),
                shape_named(sv, id@) is Some,
                outermost_from(sv, shape_named(sv, id@).unwrap(), sv.len()) == outermost_from(
                    sv,
                    shape@,
                    fuel as nat,
                ),
            decreases fuel,
        {
            let next = match &shape.group {
                Some(g) => self.shape(g.as_str()),
                None => None,
            };
            match next {
                Some(p) => {
                    shape = p;
                },
                None => {
                    return Some(shape);
                },
            }
            fuel -= 1;
        }
        Some(shape)
    }

    /// `set_dash` for one shape, folded into the gesture.
    fn set_dash_one(&mut self, id: &str, dash: Option<Dash>, steps: &mut Steps) -> (r: Result<
        (),
        DrawingError,
    >)
        requires
            old(self).wf(),
            old(steps).holds(*old(self)),
        ensures
            final(steps).same_gesture(*old(steps)),
            final(self).pen_v() == old(self).pen_v(),
            dash_target(shapes_in(old(self).text()), id@) is None ==> (r matches Err(
                DrawingError::NoSuchShape(s),
            ) && s@ == id@) && *final(self) == *old(self) && *final(steps) == *old(steps),
            dash_target(shapes_in(old(self).text()), id@) matches Some(t) && t is None ==> (r matches Err(
                DrawingError::Unsupported { gesture, kind },
            ) && gesture@ == "set_dash"@ && kind == shape_named(
                shapes_in(old(self).text()),
                id@,
            ).unwrap().kind) && *final(self) == *old(self) && *final(steps) == *old(steps),
            dash_target(shapes_in(old(self).text()), id@) matches Some(Some(t)) ==> {
                &&& dashed(old(self).text(), t, dash) is None ==> r is Ok && *final(self)
                    == *old(self) && *final(steps) == *old(steps)
                &&& r is Ok ==> final(self).wf() && final(steps).holds(*final(self)) && (
                dashed(old(self).text(), t, dash) matches Some(t2) ==> final(self).text() == t2
                    && final(steps).made())
            },
            r matches Err(DrawingError::Unsupported { .. }) ==> dash_target(
                shapes_in(old(self).text()),
                id@,
            ) == Some(None::<ShapeView>) && *final(self) == *old(self) && *final(steps)
                == *old(steps),
            r matches Err(DrawingError::NoSuchShape(_)) ==> dash_target(
                shapes_in(old(self).text()),
                id@,
            ) is None,
            r matches Err(e) ==> e is NoSuchShape || e is Unsupported || from_twig(e, final(self).text()),
    {
        proof {
            self.lemma_wf();
            reveal_strlit("set_dash");
            reveal_strlit("data-dash");
            reveal_strlit("[data-dash");
        }
        let i = match self.shape_index(id) {
            Some(i) => i,
            None => return Err(DrawingError::NoSuchShape(crate::text::owned(id))),
        };
        let target = match self.note(id) {
            Some(note) => match self.shape_index(note.frame.as_str()) {
                Some(f) => f,
                None => {
                    return Err(
                        DrawingError::Unsupported { gesture: "set_dash", kind: self.shapes[i].kind },
                    )
                },
            },
            None => {
                assert(self.shapes@[i as int]@ == shapes_view(self.shapes@)[i as int]);
                if self.shapes[i].is_stroked() {
                    i
                } else {
                    return Err(
                        DrawingError::Unsupported { gesture: "set_dash", kind: self.shapes[i].kind },
                    );
                }
            },
        };
        let t = &self.shapes[target];
        assert(shapes_view(self.shapes@)[target as int] == t@);
        let said = match t.attr("data-dash") {
            Some(v) => Some(crate::text::trimmed(v)),
            None => None,
        };
        let same = match (&said, dash) {
            (Some(v), Some(d)) => crate::text::str_eq(v.as_str(), d.value()),
            (None, None) => true,
            _ => false,
        };
        if same {
            return Ok(());
        }
        let node = t.node;
        let attrs = crate::tree::clone_attrs(&t.attrs);
        let mut updates: Vec<(String, Option<String>)> = Vec::new();
        updates.push(
            (
                crate::text::owned("data-dash"),
                match dash {
                    Some(d) => Some(crate::text::owned(d.value())),
                    None => None,
                },
            ),
        );
        assert(attrs_view(updates@) =~= seq![("data-dash"@, dash_spelled(dash))]);
        proof {
            lemma_shape_has_attrs(self.text(), target as int);
        }
        self.write_attrs(node, &attrs, &updates, steps)?;
        if dash.is_some() {
            let rules = crate::style::dash_rules();
            self.style_word("[data-dash", &rules, steps)?;
        }
        Ok(())
    }

    /// Say how a stroked shape's stroke is broken — `data-dash`, which the
    /// drawing's `<style>` draws — or, with `None`, solid, the word taken
    /// off. On a note it is the note's frame. A drawing whose `<style>`
    /// has no rule for the word gains the template's, in the same step.
    /// One undo step; nothing when the shape already says so.
    /// `Unsupported` for what is not stroked — ink, a label, a group that is
    /// not a note, an image.
    pub fn set_dash(&mut self, id: &str, dash: Option<Dash>) -> (r: Result<(), DrawingError>)
        requires
            old(self).wf(),
        ensures
            final(self).pen_v() == old(self).pen_v(),
            dash_target(shapes_in(old(self).text()), id@) is None ==> (r matches Err(
                DrawingError::NoSuchShape(s),
            ) && s@ == id@) && *final(self) == *old(self),
            dash_target(shapes_in(old(self).text()), id@) matches Some(t) && t is None ==> (r matches Err(
                DrawingError::Unsupported { gesture, kind },
            ) && gesture@ == "set_dash"@ && kind == shape_named(
                shapes_in(old(self).text()),
                id@,
            ).unwrap().kind) && *final(self) == *old(self),
            dash_target(shapes_in(old(self).text()), id@) matches Some(Some(t)) ==> {
                &&& dashed(old(self).text(), t, dash) is None ==> r is Ok && *final(self)
                    == *old(self)
                &&& r is Ok ==> final(self).wf() && (dashed(old(self).text(), t, dash) matches Some(
                    t2,
                ) ==> final(self).text() == t2 && one_step(*old(self), *final(self)))
            },
            r matches Err(e) ==> (e is NoSuchShape && dash_target(shapes_in(old(self).text()), id@)
                is None) || (e is Unsupported && dash_target(shapes_in(old(self).text()), id@)
                == Some(None::<ShapeView>)) || from_twig(e, final(self).text()),
    {
        let mut steps = Steps::new(self);
        let r = self.set_dash_one(id, dash, &mut steps);
        proof {
            if r is Ok && steps.made() {
                lemma_gesture_is_one_step(steps, *self);
            }
        }
        r
    }

    /// `set_dash` over a selection, as one undo step: the stroked shapes
    /// among `ids` take the word, and what is not stroked is left as it is
    /// rather than refused. `NoSuchShape` for an id that is nothing.
    pub fn set_dash_all(&mut self, ids: &[&str], dash: Option<Dash>) -> (r: Result<(), DrawingError>)
        requires
            old(self).wf(),
        ensures
            final(self).pen_v() == old(self).pen_v(),
            dash_all(old(self).text(), ids_view(ids@), dash) is None ==> r is Err,
            dash_quiet(old(self).text(), ids_view(ids@), dash) ==> r is Ok && *final(self)
                == *old(self),
            r matches Err(e) ==> (e is NoSuchShape && dash_all(old(self).text(), ids_view(ids@), dash)
                is None) || from_twig(e, final(self).text()),
            r is Ok ==> {
                &&& final(self).wf()
                &&& dash_all(old(self).text(), ids_view(ids@), dash) == Some(final(self).text())
                &&& unchanged(*old(self), *final(self)) || one_step(*old(self), *final(self))
            },
    {
        let mut steps = Steps::new(self);
        let mut j: usize = 0;
        while j < ids.len()
            invariant
                self.wf(),
                steps.holds(*self),
                Steps::new_spec(steps, *old(self)),
                self.pen == old(self).pen,
                j <= ids@.len(),
                dash_all(old(self).text(), ids_view(ids@.take(j as int)), dash) == Some(self.text()),
                dash_quiet(old(self).text(), ids_view(ids@.take(j as int)), dash) ==> *self
                    == *old(self),
            decreases ids@.len() - j,
        {
            assert(ids_view(ids@.take(j + 1)).drop_last() =~= ids_view(ids@.take(j as int)));
            assert(ids_view(ids@.take(j + 1)).last() == ids@[j as int]@);
            let ghost before = *self;
            match self.set_dash_one(ids[j], dash, &mut steps) {
                Ok(()) => {},
                Err(DrawingError::Unsupported { .. }) => {},
                Err(e) => {
                    proof {
                        if e is NoSuchShape {
                            assert(dash_all(old(self).text(), ids_view(ids@.take(j + 1)), dash) is None);
                            assert(ids_view(ids@).take(j + 1) =~= ids_view(ids@.take(j + 1)));
                            lemma_dash_all_refused(old(self).text(), ids_view(ids@), j + 1, dash);
                        }
                        if dash_quiet(old(self).text(), ids_view(ids@), dash) {
                            assert(ids_view(ids@).take(j + 1) =~= ids_view(ids@.take(j + 1)));
                            lemma_dash_quiet_prefix(old(self).text(), ids_view(ids@), j + 1, dash);
                            assert(before == *old(self));
                        }
                    }
                    return Err(e);
                },
            }
            proof {
                if dash_quiet(old(self).text(), ids_view(ids@.take(j + 1)), dash) {
                    assert(before == *old(self));
                }
            }
            j += 1;
        }
        assert(ids@.take(ids@.len() as int) =~= ids@);
        proof {
            if steps.made() {
                lemma_gesture_is_one_step(steps, *self);
            }
        }
        Ok(())
    }
}

/// What `set_heads` on `id` writes to: `None` for an id that names
/// nothing; `Some(None)` for a shape that is not a connector;
/// `Some(Some(s))` for the connector.
pub open spec fn heads_target(shapes: Seq<ShapeView>, id: Seq<char>) -> Option<Option<ShapeView>> {
    match shape_named(shapes, id) {
        None => None,
        Some(s) => if connects(s) {
            Some(Some(s))
        } else {
            Some(None)
        },
    }
}

/// The text after `set_heads` over `ids`, one after the other, what is
/// not a connector left as it is; `None` when an id names nothing.
pub open spec fn heads_all(
    t: Seq<u8>,
    ids: Seq<Seq<char>>,
    heads: Option<crate::shape::Heads>,
) -> Option<Seq<u8>>
    decreases ids.len(),
{
    if ids.len() == 0 {
        Some(t)
    } else {
        match heads_all(t, ids.drop_last(), heads) {
            None => None,
            Some(t1) => match heads_target(shapes_in(t1), ids.last()) {
                None => None,
                Some(None) => Some(t1),
                Some(Some(x)) => match headed(t1, x, heads) {
                    None => Some(t1),
                    Some(t2) => Some(t2),
                },
            },
        }
    }
}

/// Whether `set_heads` over `ids` writes nothing to `t`: each id names a
/// shape, and each is either not a connector or already says `heads`.
pub open spec fn heads_quiet(
    t: Seq<u8>,
    ids: Seq<Seq<char>>,
    heads: Option<crate::shape::Heads>,
) -> bool
    decreases ids.len(),
{
    ids.len() == 0 || (heads_quiet(t, ids.drop_last(), heads) && match heads_target(
        shapes_in(t),
        ids.last(),
    ) {
        None => false,
        Some(None) => true,
        Some(Some(x)) => headed(t, x, heads) is None,
    })
}

/// A selection on which `set_heads` writes nothing writes nothing on its
/// first `k` ids either.
proof fn lemma_heads_quiet_prefix(
    t: Seq<u8>,
    ids: Seq<Seq<char>>,
    k: int,
    heads: Option<crate::shape::Heads>,
)
    requires
        0 <= k <= ids.len(),
        heads_quiet(t, ids, heads),
    ensures
        heads_quiet(t, ids.take(k), heads),
    decreases ids.len(),
{
    if k < ids.len() {
        assert(ids.drop_last().take(k) =~= ids.take(k));
        lemma_heads_quiet_prefix(t, ids.drop_last(), k, heads);
    } else {
        assert(ids.take(k) =~= ids);
    }
}

/// Once an id among the first `k` names nothing, `set_heads` over all of
/// `ids` is refused.
proof fn lemma_heads_all_refused(
    t: Seq<u8>,
    ids: Seq<Seq<char>>,
    k: int,
    heads: Option<crate::shape::Heads>,
)
    requires
        0 <= k <= ids.len(),
        heads_all(t, ids.take(k), heads) is None,
    ensures
        heads_all(t, ids, heads) is None,
    decreases ids.len(),
{
    if k < ids.len() {
        assert(ids.drop_last().take(k) =~= ids.take(k));
        lemma_heads_all_refused(t, ids.drop_last(), k, heads);
    } else {
        assert(ids.take(k) =~= ids);
    }
}

impl Drawing {
    /// `set_heads` for one connector, folded into the gesture.
    fn set_heads_one(
        &mut self,
        id: &str,
        heads: Option<crate::shape::Heads>,
        steps: &mut Steps,
    ) -> (r: Result<(), DrawingError>)
        requires
            old(self).wf(),
            old(steps).holds(*old(self)),
        ensures
            final(steps).same_gesture(*old(steps)),
            final(self).pen_v() == old(self).pen_v(),
            heads_target(shapes_in(old(self).text()), id@) is None ==> (r matches Err(
                DrawingError::NoSuchShape(s),
            ) && s@ == id@) && *final(self) == *old(self) && *final(steps) == *old(steps),
            heads_target(shapes_in(old(self).text()), id@) matches Some(t) && t is None ==> (r matches Err(
                DrawingError::Unsupported { gesture, kind },
            ) && gesture@ == "set_heads"@ && kind == shape_named(
                shapes_in(old(self).text()),
                id@,
            ).unwrap().kind) && *final(self) == *old(self) && *final(steps) == *old(steps),
            heads_target(shapes_in(old(self).text()), id@) matches Some(Some(t)) ==> {
                &&& headed(old(self).text(), t, heads) is None ==> r is Ok && *final(self)
                    == *old(self) && *final(steps) == *old(steps)
                &&& r is Ok ==> final(self).wf() && final(steps).holds(*final(self)) && (
                headed(old(self).text(), t, heads) matches Some(t2) ==> final(self).text() == t2
                    && final(steps).made())
            },
            r matches Err(DrawingError::Unsupported { .. }) ==> heads_target(
                shapes_in(old(self).text()),
                id@,
            ) == Some(None::<ShapeView>) && *final(self) == *old(self) && *final(steps)
                == *old(steps),
            r matches Err(DrawingError::NoSuchShape(_)) ==> heads_target(
                shapes_in(old(self).text()),
                id@,
            ) is None,
            r matches Err(e) ==> e is NoSuchShape || e is Unsupported || from_twig(e, final(self).text()),
    {
        proof {
            self.lemma_wf();
            reveal_strlit("set_heads");
            reveal_strlit("data-arrow");
            reveal_strlit("marker-start");
            reveal_strlit("marker-end");
        }
        let i = match self.shape_index(id) {
            Some(i) => i,
            None => return Err(DrawingError::NoSuchShape(crate::text::owned(id))),
        };
        let s = &self.shapes[i];
        assert(shapes_view(self.shapes@)[i as int] == s@);
        if !crate::connector::is_connector(s) {
            return Err(DrawingError::Unsupported { gesture: "set_heads", kind: s.kind });
        }
        let mut updates: Vec<(String, Option<String>)> = Vec::new();
        updates.push(
            (
                crate::text::owned("data-arrow"),
                match heads {
                    Some(h) => Some(crate::text::owned(h.value())),
                    None => None,
                },
            ),
        );
        if s.attr("marker-start").is_some() {
            updates.push((crate::text::owned("marker-start"), None));
        }
        if s.attr("marker-end").is_some() {
            updates.push((crate::text::owned("marker-end"), None));
        }
        assert(attrs_view(updates@) =~= heads_updates(s@, heads));
        let said = match s.attr("data-arrow") {
            Some(v) => Some(crate::text::trimmed(v)),
            None => None,
        };
        let same = match (&said, heads) {
            (Some(v), Some(h)) => crate::text::str_eq(v.as_str(), h.value()),
            (None, None) => true,
            _ => false,
        };
        if same && updates.len() == 1 {
            return Ok(());
        }
        let node = s.node;
        let attrs = crate::tree::clone_attrs(&s.attrs);
        proof {
            lemma_shape_has_attrs(self.text(), i as int);
        }
        self.write_attrs(node, &attrs, &updates, steps)
    }

    /// Say which ends of a connector have a head — `data-arrow`, the
    /// profile's word for what an arrow is, which the drawing's `<style>`
    /// draws — or, with `None`, none, which makes it a plain line. A
    /// `marker-start` or `marker-end` the file spelled itself comes off in
    /// the same write, since the word now says it. One `set_node_attrs`,
    /// one undo step; nothing when the shape already says so.
    /// `Unsupported` for what is not a connector.
    pub fn set_heads(&mut self, id: &str, heads: Option<crate::shape::Heads>) -> (r: Result<
        (),
        DrawingError,
    >)
        requires
            old(self).wf(),
        ensures
            final(self).pen_v() == old(self).pen_v(),
            heads_target(shapes_in(old(self).text()), id@) is None ==> (r matches Err(
                DrawingError::NoSuchShape(s),
            ) && s@ == id@) && *final(self) == *old(self),
            heads_target(shapes_in(old(self).text()), id@) matches Some(t) && t is None ==> (r matches Err(
                DrawingError::Unsupported { gesture, kind },
            ) && gesture@ == "set_heads"@ && kind == shape_named(
                shapes_in(old(self).text()),
                id@,
            ).unwrap().kind) && *final(self) == *old(self),
            heads_target(shapes_in(old(self).text()), id@) matches Some(Some(t)) ==> {
                &&& headed(old(self).text(), t, heads) is None ==> r is Ok && *final(self)
                    == *old(self)
                &&& r is Ok ==> final(self).wf() && (headed(old(self).text(), t, heads) matches Some(
                    t2,
                ) ==> final(self).text() == t2 && one_step(*old(self), *final(self)))
            },
            r matches Err(e) ==> (e is NoSuchShape && heads_target(shapes_in(old(self).text()), id@)
                is None) || (e is Unsupported && heads_target(shapes_in(old(self).text()), id@)
                == Some(None::<ShapeView>)) || from_twig(e, final(self).text()),
    {
        let mut steps = Steps::new(self);
        let r = self.set_heads_one(id, heads, &mut steps);
        proof {
            if r is Ok && steps.made() {
                lemma_gesture_is_one_step(steps, *self);
            }
        }
        r
    }

    /// `set_heads` over a selection, as one undo step: the connectors among
    /// `ids` take the word, and what is not a connector is left as it is
    /// rather than refused, so a mixed selection takes what applies.
    /// `NoSuchShape` for an id that is nothing.
    pub fn set_heads_all(&mut self, ids: &[&str], heads: Option<crate::shape::Heads>) -> (r: Result<
        (),
        DrawingError,
    >)
        requires
            old(self).wf(),
        ensures
            final(self).pen_v() == old(self).pen_v(),
            heads_all(old(self).text(), ids_view(ids@), heads) is None ==> r is Err,
            heads_quiet(old(self).text(), ids_view(ids@), heads) ==> r is Ok && *final(self)
                == *old(self),
            r matches Err(e) ==> (e is NoSuchShape && heads_all(
                old(self).text(),
                ids_view(ids@),
                heads,
            ) is None) || from_twig(e, final(self).text()),
            r is Ok ==> {
                &&& final(self).wf()
                &&& heads_all(old(self).text(), ids_view(ids@), heads) == Some(final(self).text())
                &&& unchanged(*old(self), *final(self)) || one_step(*old(self), *final(self))
            },
    {
        let mut steps = Steps::new(self);
        let mut j: usize = 0;
        while j < ids.len()
            invariant
                self.wf(),
                steps.holds(*self),
                Steps::new_spec(steps, *old(self)),
                self.pen == old(self).pen,
                j <= ids@.len(),
                heads_all(old(self).text(), ids_view(ids@.take(j as int)), heads) == Some(
                    self.text(),
                ),
                heads_quiet(old(self).text(), ids_view(ids@.take(j as int)), heads) ==> *self
                    == *old(self),
            decreases ids@.len() - j,
        {
            assert(ids_view(ids@.take(j + 1)).drop_last() =~= ids_view(ids@.take(j as int)));
            assert(ids_view(ids@.take(j + 1)).last() == ids@[j as int]@);
            let ghost before = *self;
            match self.set_heads_one(ids[j], heads, &mut steps) {
                Ok(()) => {},
                Err(DrawingError::Unsupported { .. }) => {},
                Err(e) => {
                    proof {
                        if e is NoSuchShape {
                            assert(heads_all(old(self).text(), ids_view(ids@.take(j + 1)), heads)
                                is None);
                            assert(ids_view(ids@).take(j + 1) =~= ids_view(ids@.take(j + 1)));
                            lemma_heads_all_refused(old(self).text(), ids_view(ids@), j + 1, heads);
                        }
                        if heads_quiet(old(self).text(), ids_view(ids@), heads) {
                            assert(ids_view(ids@).take(j + 1) =~= ids_view(ids@.take(j + 1)));
                            lemma_heads_quiet_prefix(old(self).text(), ids_view(ids@), j + 1, heads);
                            assert(before == *old(self));
                        }
                    }
                    return Err(e);
                },
            }
            proof {
                if heads_quiet(old(self).text(), ids_view(ids@.take(j + 1)), heads) {
                    assert(before == *old(self));
                }
            }
            j += 1;
        }
        assert(ids@.take(ids@.len() as int) =~= ids@);
        proof {
            if steps.made() {
                lemma_gesture_is_one_step(steps, *self);
            }
        }
        Ok(())
    }
}

// ----- grouping -------------------------------------------------------------

/// Why `group` refuses the first `k` of `ids`, if it does: `(true, id)`
/// for the first id naming nothing, `(false, _)` for one whose shape is not
/// a sibling of the first's.
pub open spec fn group_refusal(shapes: Seq<ShapeView>, ids: Seq<Seq<char>>, k: nat) -> Option<
    (bool, Seq<char>),
>
    decreases k,
{
    if k == 0 || k > ids.len() {
        None
    } else {
        match group_refusal(shapes, ids, (k - 1) as nat) {
            Some(e) => Some(e),
            None => match shape_named(shapes, ids[k - 1]) {
                None => Some((true, ids[k - 1])),
                Some(s) => if s.group != shape_named(shapes, ids[0]).unwrap().group {
                    Some((false, Seq::empty()))
                } else {
                    None
                },
            },
        }
    }
}

/// A refusal among the first `k` ids stands for every longer prefix.
pub proof fn lemma_refusal_stands(shapes: Seq<ShapeView>, ids: Seq<Seq<char>>, k: nat, n: nat)
    requires
        k <= n <= ids.len(),
        group_refusal(shapes, ids, k) is Some,
    ensures
        group_refusal(shapes, ids, n) == group_refusal(shapes, ids, k),
    decreases n - k,
{
    if k < n {
        lemma_refusal_stands(shapes, ids, k, (n - 1) as nat);
    }
}

/// Whether some id names the shape at index `i`.
pub open spec fn names_index(shapes: Seq<ShapeView>, ids: Seq<Seq<char>>, i: int) -> bool {
    exists|k: int| 0 <= k < ids.len() && find_shape(shapes, #[trigger] ids[k]) == Some(i)
}

/// The indices among the first `n` shapes that the ids name, in paint
/// order, each once.
pub open spec fn picked(shapes: Seq<ShapeView>, ids: Seq<Seq<char>>, n: nat) -> Seq<int>
    decreases n,
{
    if n == 0 {
        Seq::empty()
    } else if names_index(shapes, ids, n - 1) {
        picked(shapes, ids, (n - 1) as nat).push(n - 1)
    } else {
        picked(shapes, ids, (n - 1) as nat)
    }
}

/// A named index among the first `n` is picked.
pub proof fn lemma_picked_nonempty(shapes: Seq<ShapeView>, ids: Seq<Seq<char>>, n: nat, i: int)
    requires
        0 <= i < n,
        names_index(shapes, ids, i),
    ensures
        picked(shapes, ids, n).len() > 0,
    decreases n,
{
    if i < n - 1 {
        lemma_picked_nonempty(shapes, ids, (n - 1) as nat, i);
    }
}

/// The ids of the shapes to group, in paint order, each once.
pub open spec fn group_order(shapes: Seq<ShapeView>, ids: Seq<Seq<char>>) -> Seq<Seq<char>> {
    picked(shapes, ids, shapes.len()).map_values(|i: int| shapes[i].id.unwrap())
}

/// The text after each shape to group is brought up behind the one before
/// it, for the first `m` of `ordered`, when something else sits between
/// them.
pub open spec fn brought(t: Seq<u8>, ordered: Seq<Seq<char>>, m: nat) -> Seq<u8>
    decreases m,
{
    if m <= 1 || m > ordered.len() {
        t
    } else {
        let t1 = brought(t, ordered, (m - 1) as nat);
        match (
            shape_named(shapes_in(t1), ordered[m - 2]),
            shape_named(shapes_in(t1), ordered[m - 1]),
        ) {
            (Some(p), Some(c)) => {
                let sibs = shape_siblings(flat_nodes(t1), p.node);
                let at = crate::document::index_in(sibs, p.node) as int;
                if at + 1 < sibs.len() && sibs[at + 1] == c.node {
                    t1
                } else {
                    moved_after(t1, locator_in(t1, c.node), locator_in(t1, p.node))
                }
            },
            _ => t1,
        }
    }
}

/// The `<g>` around `body`: on its own lines, the members indented one
/// level in, when the body spans lines; around it on the line otherwise.
pub open spec fn group_markup(body: Seq<char>, indent: Seq<char>, gid: Seq<char>) -> Seq<char> {
    if crate::text::contains(body, "\n"@) {
        "<g data-id=\""@ + gid + "\">\n"@ + indent + "  "@ + crate::text::replaced(
            body,
            "\n"@ + indent,
            "\n"@ + indent + "  "@,
        ) + "\n"@ + indent + "</g>"@
    } else {
        "<g data-id=\""@ + gid + "\">"@ + body + "</g>"@
    }
}

/// The splice that wraps the shapes from `first` to `last` in a `<g>`:
/// `None` when their bytes are not a range of the text.
pub open spec fn wrap_edit(t: Seq<u8>, first: Seq<char>, last: Seq<char>, gid: Seq<char>) -> Option<
    (int, int, Seq<char>),
> {
    let nodes = flat_nodes(t);
    match (shape_named(shapes_in(t), first), shape_named(shapes_in(t), last)) {
        (Some(f), Some(l)) => match (node_at(nodes, f.node), node_at(nodes, l.node)) {
            (Some(fnode), Some(lnode)) => {
                let start = fnode.span.start as int;
                let end = lnode.span.end as int;
                match text_at(t, start, end) {
                    Some(body) => Some(
                        (start, end, group_markup(body, crate::document::indent_at(t, start), gid)),
                    ),
                    None => None,
                }
            },
            _ => None,
        },
        _ => None,
    }
}

impl Drawing {
    /// The index of the shape `id` names, or the shapes' count.
    fn index_or_end(&self, id: &str) -> (r: usize)
        ensures
            r == (match find_shape(shapes_view(self.shapes@), id@) {
                Some(i) => i as usize,
                None => self.shapes@.len() as usize,
            }),
    {
        match self.shape_index(id) {
            Some(i) => i,
            None => self.shapes.len(),
        }
    }

    /// Wrap shapes in a new `<g>`, minting its `data-id`, which is
    /// returned. The shapes must share a parent (`NotSiblings` otherwise);
    /// they are taken in paint order, and one that is not adjacent to the
    /// one before it is moved up behind it first, since a group paints as
    /// one. One undo step. The `<g>` is written on its own lines around
    /// them, the members indented one level in.
    pub fn group(&mut self, ids: &[&str]) -> (r: Result<String, DrawingError>)
        requires
            old(self).wf(),
            ids@.len() > 0,
        ensures
            final(self).pen_v() == old(self).pen_v(),
            group_refusal(shapes_in(old(self).text()), ids_view(ids@), ids@.len() as nat) matches Some(
                (missing, id),
            ) ==> {
                &&& missing ==> (r matches Err(DrawingError::NoSuchShape(s)) && s@ == id)
                &&& !missing ==> (r matches Err(DrawingError::NotSiblings))
                &&& *final(self) == *old(self)
            },
            r matches Err(e) ==> ((e is NoSuchShape || e is NotSiblings) && group_refusal(
                shapes_in(old(self).text()),
                ids_view(ids@),
                ids@.len() as nat,
            ) is Some) || (e is NotSiblings && {
                let shapes = shapes_in(old(self).text());
                let ordered = group_order(shapes, ids_view(ids@));
                let moved = brought(old(self).text(), ordered, ordered.len());
                ordered.len() == 0 || wrap_edit(
                    moved,
                    ordered[0],
                    ordered.last(),
                    crate::document::minted(shapes, 0),
                ) is None
            }) || from_twig(e, final(self).text()),
            r matches Ok(g) ==> {
                let shapes = shapes_in(old(self).text());
                let ordered = group_order(shapes, ids_view(ids@));
                let moved = brought(old(self).text(), ordered, ordered.len());
                &&& group_refusal(shapes, ids_view(ids@), ids@.len() as nat) is None
                &&& g@ == crate::document::minted(shapes, 0)
                &&& ordered.len() > 0
                &&& wrap_edit(moved, ordered[0], ordered.last(), g@) is Some
                &&& final(self).text() == with_edit(
                    moved,
                    wrap_edit(moved, ordered[0], ordered.last(), g@),
                )
                &&& final(self).wf()
                &&& one_step(*old(self), *final(self))
            },
    {
        proof {
            self.lemma_wf();
        }
        let ghost t0 = self.text();
        let ghost sv = shapes_view(self.shapes@);
        let ghost iv = ids_view(ids@);
        // Each id names a shape among the first's siblings.
        let mut positions: Vec<usize> = Vec::new();
        let mut k: usize = 0;
        while k < ids.len()
            invariant
                self.wf(),
                *self == *old(self),
                sv == shapes_view(self.shapes@),
                sv == shapes_in(t0),
                t0 == old(self).text(),
                iv == ids_view(ids@),
                ids@.len() > 0,
                k <= ids@.len(),
                group_refusal(sv, iv, k as nat) is None,
                k > 0 ==> shape_named(sv, iv[0]) is Some,
                positions@.len() == k,
                forall|q: int| 0 <= q < k ==> find_shape(sv, iv[q]) == Some(#[trigger] positions@[q] as int),
            decreases ids@.len() - k,
        {
            proof {
                lemma_find_shape(sv, iv[k as int]);
            }
            let i = match self.shape_index(ids[k]) {
                Some(i) => i,
                None => {
                    proof {
                        assert(group_refusal(sv, iv, (k + 1) as nat) == Some((true, iv[k as int])));
                        lemma_refusal_stands(sv, iv, (k + 1) as nat, ids@.len() as nat);
                    }
                    return Err(DrawingError::NoSuchShape(crate::text::owned(ids[k])));
                },
            };
            let first = self.index_or_end(ids[0]);
            proof {
                lemma_find_shape(sv, iv[0]);
            }
            let same = if first < self.shapes.len() {
                match (&self.shapes[i].group, &self.shapes[first].group) {
                    (Some(a), Some(b)) => crate::text::str_eq(a.as_str(), b.as_str()),
                    (None, None) => true,
                    _ => false,
                }
            } else {
                false
            };
            proof {
                assert(sv[i as int] == self.shapes@[i as int]@);
                if first < self.shapes@.len() {
                    assert(sv[first as int] == self.shapes@[first as int]@);
                }
            }
            proof {
                if k == 0 {
                    assert(iv[k as int] == iv[0]);
                    assert(first == i);
                }
                assert(shape_named(sv, iv[0]) == Some(sv[first as int]));
                assert(same == (sv[i as int].group == sv[first as int].group));
            }
            if !same {
                proof {
                    assert(group_refusal(sv, iv, (k + 1) as nat) == Some((false, Seq::<char>::empty())));
                    lemma_refusal_stands(sv, iv, (k + 1) as nat, ids@.len() as nat);
                }
                return Err(DrawingError::NotSiblings);
            }
            positions.push(i);
            k += 1;
        }
        // The shapes in paint order, each once.
        let mut ordered: Vec<String> = Vec::new();
        let ghost order_ix = picked(sv, iv, 0);
        let mut n: usize = 0;
        while n < self.shapes.len()
            invariant
                self.wf(),
                *self == *old(self),
                sv == shapes_view(self.shapes@),
                iv == ids_view(ids@),
                sv == shapes_in(old(self).text()),
                group_refusal(sv, iv, ids@.len() as nat) is None,
                n <= sv.len(),
                positions@.len() == ids@.len(),
                forall|q: int| 0 <= q < ids@.len() ==> find_shape(sv, iv[q]) == Some(#[trigger] positions@[q] as int),
                ordered@.map_values(|x: String| x@) == picked(sv, iv, n as nat).map_values(
                    |i: int| sv[i].id.unwrap(),
                ),
            decreases sv.len() - n,
        {
            let mut hit = false;
            let mut q: usize = 0;
            while q < positions.len()
                invariant
                    q <= positions@.len(),
                    positions@.len() == ids@.len(),
                    forall|qq: int| 0 <= qq < ids@.len() ==> find_shape(sv, iv[qq]) == Some(#[trigger] positions@[qq] as int),
                    hit == exists|qq: int| 0 <= qq < q && positions@[qq] == n,
                decreases positions@.len() - q,
            {
                if positions[q] == n {
                    hit = true;
                }
                q += 1;
            }
            proof {
                if hit {
                    let qq = choose|qq: int| 0 <= qq < positions@.len() && positions@[qq] == n;
                    assert(find_shape(sv, iv[qq]) == Some(n as int));
                    assert(names_index(sv, iv, n as int));
                } else {
                    assert forall|kk: int| 0 <= kk < iv.len() implies find_shape(sv, #[trigger] iv[kk])
                        != Some(n as int) by {
                        assert(find_shape(sv, iv[kk]) == Some(positions@[kk] as int));
                    }
                }
            }
            let ghost before = ordered@;
            assert(sv[n as int] == self.shapes@[n as int]@);
            if hit {
                proof {
                    let qq = choose|qq: int| 0 <= qq < positions@.len() && positions@[qq] == n;
                    lemma_find_shape(sv, iv[qq]);
                    assert(sv[n as int].id == Some(iv[qq]));
                    assert(picked(sv, iv, (n + 1) as nat) == picked(sv, iv, n as nat).push(n as int));
                }
                match &self.shapes[n].id {
                    Some(x) => {
                        ordered.push(x.clone());
                        assert(ordered@.map_values(|x: String| x@) =~= before.map_values(|x: String| x@).push(
                            sv[n as int].id.unwrap(),
                        ));
                    },
                    None => {
                        assert(false);
                    },
                }
            } else {
                assert(picked(sv, iv, (n + 1) as nat) == picked(sv, iv, n as nat));
            }
            assert(ordered@.map_values(|x: String| x@) =~= picked(sv, iv, (n + 1) as nat).map_values(
                |i: int| sv[i].id.unwrap(),
            ));
            n += 1;
        }
        let ghost ov = ordered@.map_values(|x: String| x@);
        assert(ov == group_order(sv, iv));
        let group_id = crate::document::mint_id_after(self.shapes.as_slice(), 0);
        let mut steps = Steps::new(self);
        // Bring each member up behind the one before it, when something
        // else sits between them.
        assert(ov.len() > 0) by {
            assert(find_shape(sv, iv[0]) == Some(positions@[0] as int));
            lemma_find_shape(sv, iv[0]);
            assert(names_index(sv, iv, positions@[0] as int));
            lemma_picked_nonempty(sv, iv, sv.len(), positions@[0] as int);
        }
        let mut m: usize = 1;
        while m < ordered.len()
            invariant
                self.wf(),
                steps.holds(*self),
                Steps::new_spec(steps, *old(self)),
                self.pen == old(self).pen,
                1 <= m <= ordered@.len(),
                ov == ordered@.map_values(|x: String| x@),
                sv == shapes_in(old(self).text()),
                iv == ids_view(ids@),
                t0 == old(self).text(),
                ov == group_order(sv, iv),
                group_refusal(sv, iv, ids@.len() as nat) is None,
                self.text() == brought(t0, ov, m as nat),
            decreases ordered@.len() - m,
        {
            proof {
                self.lemma_wf();
            }
            let a = self.shape_index(ordered[m - 1].as_str());
            let b = self.shape_index(ordered[m].as_str());
            if let (Some(a), Some(b)) = (a, b) {
                let prev = self.shapes[a].node.0;
                let cur = self.shapes[b].node.0;
                assert(shapes_view(self.shapes@)[a as int].node == prev);
                assert(shapes_view(self.shapes@)[b as int].node == cur);
                let sibs = sibling_shapes(&self.nodes, prev);
                let at = crate::document::position_of(&sibs, prev);
                let adjacent = at < sibs.len() && at + 1 < sibs.len() && sibs[at + 1] == cur;
                if !adjacent {
                    let loc = locator(&self.nodes, cur);
                    let anchor = locator(&self.nodes, prev);
                    let ghost before = self.editor;
                    match editor_move_after(&mut self.editor, loc.as_str(), anchor.as_str()) {
                        Ok(()) => {},
                        Err(e) => return Err(DrawingError::Edit(e)),
                    }
                    self.commit(&mut steps, Ghost(before))?;
                }
            }
            m += 1;
        }
        proof {
            self.lemma_wf();
        }
        let f = self.shape_index(ordered[0].as_str());
        let l = self.shape_index(ordered[ordered.len() - 1].as_str());
        let edit = match (f, l) {
            (Some(f), Some(l)) => {
                let fi = node_index(&self.nodes, self.shapes[f].node.0);
                let li = node_index(&self.nodes, self.shapes[l].node.0);
                match (fi, li) {
                    (Some(fi), Some(li)) => {
                        let start = self.nodes[fi].span.start;
                        let end = self.nodes[li].span.end;
                        match self.text_between(start, end) {
                            Some(body) => {
                                let indent = crate::document::indent_before(self.source.as_str(), start);
                                Some((start, end, wrap_markup(body, indent.as_str(), group_id.as_str())))
                            },
                            None => None,
                        }
                    },
                    _ => None,
                }
            },
            _ => None,
        };
        match edit {
            Some((a, b, markup)) => self.splice(a, b, markup.as_str(), &mut steps)?,
            None => return Err(DrawingError::NotSiblings),
        }
        proof {
            lemma_gesture_is_one_step(steps, *self);
        }
        Ok(group_id)
    }
}

/// The `<g>` written around `body`.
fn wrap_markup(body: &str, indent: &str, gid: &str) -> (r: String)
    ensures
        r@ == group_markup(body@, indent@, gid@),
{
    let cs = crate::text::to_chars(body);
    let nl = ['\n'];
    let spans_lines = crate::text::find(cs.as_slice(), nl.as_slice(), 0).is_some();
    proof {
        reveal_strlit("\n");
        assert(nl@ =~= "\n"@);
        crate::text::lemma_find_from(cs@, nl@, 0);
        crate::style::lemma_find_from_complete(cs@, nl@, 0);
    }
    let mut out = crate::text::owned("<g data-id=\"");
    push_str(&mut out, gid);
    if spans_lines {
        let mut from = crate::text::owned("\n");
        push_str(&mut from, indent);
        let mut to = crate::text::owned("\n");
        push_str(&mut to, indent);
        push_str(&mut to, "  ");
        let fc = crate::text::to_chars(from.as_str());
        let tc = crate::text::to_chars(to.as_str());
        let inner = crate::text::replace_all(cs.as_slice(), fc.as_slice(), tc.as_slice());
        push_str(&mut out, "\">\n");
        push_str(&mut out, indent);
        push_str(&mut out, "  ");
        push_str(&mut out, inner.as_str());
        push_char(&mut out, '\n');
        push_str(&mut out, indent);
        push_str(&mut out, "</g>");
        proof {
            reveal_strlit("<g data-id=\"");
            reveal_strlit("\">\n");
            reveal_strlit("  ");
            reveal_strlit("</g>");
        }
    } else {
        push_str(&mut out, "\">");
        push_str(&mut out, body);
        push_str(&mut out, "</g>");
        proof {
            reveal_strlit("<g data-id=\"");
            reveal_strlit("\">");
            reveal_strlit("</g>");
        }
    }
    out
}

/// The ids among `ms`, in order.
pub open spec fn member_ids(ms: Seq<ShapeView>) -> Seq<Seq<char>>
    decreases ms.len(),
{
    if ms.len() == 0 {
        Seq::empty()
    } else if ms.last().id is Some {
        member_ids(ms.drop_last()).push(ms.last().id.unwrap())
    } else {
        member_ids(ms.drop_last())
    }
}

/// What a `<g>`'s content becomes in its place: its lines indented one
/// level out, when it is spelled on lines of its own one level in from
/// the `<g>`; its content trimmed otherwise.
pub open spec fn ungroup_body(content: Seq<char>, indent: Seq<char>) -> Seq<char> {
    let open = "\n"@ + indent + "  "@;
    let close = "\n"@ + indent;
    if crate::text::starts_with(content, open) && content.len() >= open.len() + close.len()
        && content.subrange(content.len() - close.len(), content.len() as int) == close {
        crate::text::replaced(
            content.subrange(open.len() as int, content.len() - close.len()),
            open,
            close,
        )
    } else {
        crate::text::trim(content)
    }
}

/// The splice that replaces the `<g>` at node `node` with its members;
/// `None` for a node that is not there.
pub open spec fn ungroup_edit(t: Seq<u8>, node: u32) -> Option<(int, int, Seq<char>)> {
    match node_at(flat_nodes(t), node) {
        None => None,
        Some(n) => {
            let content = match n.content_span {
                Some(c) => match text_at(t, c.start as int, c.end as int) {
                    Some(x) => x,
                    None => Seq::empty(),
                },
                None => Seq::empty(),
            };
            Some(
                (
                    n.span.start as int,
                    n.span.end as int,
                    ungroup_body(content, crate::document::indent_at(t, n.span.start as int)),
                ),
            )
        },
    }
}

/// A `<g>`'s content with the `<g>` taken away.
fn ungroup_markup(content: &str, indent: &str) -> (r: String)
    ensures
        r@ == ungroup_body(content@, indent@),
{
    let cs = crate::text::to_chars(content);
    let mut open = crate::text::owned("\n");
    push_str(&mut open, indent);
    push_str(&mut open, "  ");
    let mut close = crate::text::owned("\n");
    push_str(&mut close, indent);
    let oc = crate::text::to_chars(open.as_str());
    let cc = crate::text::to_chars(close.as_str());
    proof {
        reveal_strlit("\n");
        reveal_strlit("  ");
    }
    let n = cs.len();
    if n >= oc.len() && n - oc.len() >= cc.len() && crate::text::matches_at(cs.as_slice(), 0, oc.as_slice())
        && crate::text::matches_at(cs.as_slice(), n - cc.len(), cc.as_slice()) {
        let inner = crate::text::slice_vec(cs.as_slice(), oc.len(), n - cc.len());
        proof {
            assert(crate::text::starts_with(cs@, oc@));
        }
        crate::text::replace_all(inner.as_slice(), oc.as_slice(), cc.as_slice())
    } else {
        proof {
            if crate::text::starts_with(cs@, oc@) && cs@.len() >= oc@.len() + cc@.len() {
                assert(crate::text::occurs_at(cs@, oc@, 0));
                if cs@.subrange(cs@.len() - cc@.len(), cs@.len() as int) == cc@ {
                    assert(crate::text::occurs_at(cs@, cc@, n - cc@.len()));
                }
            }
        }
        crate::text::trimmed(content)
    }
}

impl Drawing {
    /// Replace a `<g>` with its members, in place; returns their ids. The
    /// mirror of `group`: members indented one level out, the `<g>`'s lines
    /// gone, and, in the same step, the binding taken off any arrow that
    /// pointed at the group itself. A group's own `transform` is the
    /// host's to push down onto the members first, in the same gesture.
    pub fn ungroup(&mut self, id: &str, steps: &mut Steps) -> (r: Result<Vec<String>, DrawingError>)
        requires
            old(self).wf(),
            old(steps).holds(*old(self)),
        ensures
            final(steps).same_gesture(*old(steps)),
            final(self).pen_v() == old(self).pen_v(),
            shape_named(shapes_in(old(self).text()), id@) is None ==> (r matches Err(
                DrawingError::NoSuchShape(s),
            ) && s@ == id@) && *final(self) == *old(self),
            shape_named(shapes_in(old(self).text()), id@) matches Some(g) ==> (g.kind
                != ShapeKind::Group ==> (r matches Err(DrawingError::Unsupported { gesture, kind })
                && gesture@ == "ungroup"@ && kind == g.kind) && *final(self) == *old(self)),
            r matches Err(e) ==> (e is NoSuchShape && shape_named(shapes_in(old(self).text()), id@)
                is None) || (e is Unsupported && (shape_named(shapes_in(old(self).text()), id@) matches Some(
                g,
            ) && g.kind != ShapeKind::Group)) || from_twig(e, final(self).text()),
            r matches Ok(ids) ==> {
                let shapes = shapes_in(old(self).text());
                let g = shape_named(shapes, id@).unwrap();
                &&& shape_named(shapes, id@) is Some
                &&& ids@.map_values(|x: String| x@) == member_ids(members_in(shapes, id@))
                &&& final(self).wf()
                &&& final(steps).holds(*final(self))
                &&& final(self).text() == unbound(
                    with_edit(old(self).text(), ungroup_edit(old(self).text(), g.node)),
                )
            },
    {
        proof {
            self.lemma_wf();
            reveal_strlit("ungroup");
        }
        let gi = match self.shape_index(id) {
            Some(i) => i,
            None => return Err(DrawingError::NoSuchShape(crate::text::owned(id))),
        };
        assert(shapes_view(self.shapes@)[gi as int] == self.shapes@[gi as int]@);
        if self.shapes[gi].kind != ShapeKind::Group {
            return Err(DrawingError::Unsupported { gesture: "ungroup", kind: self.shapes[gi].kind });
        }
        let members = self.members(id);
        let ghost mv = members@.map_values(|s: &Shape| s@);
        let mut ids: Vec<String> = Vec::new();
        let mut k: usize = 0;
        while k < members.len()
            invariant
                k <= members@.len(),
                mv == members@.map_values(|s: &Shape| s@),
                ids@.map_values(|x: String| x@) == member_ids(mv.take(k as int)),
            decreases members@.len() - k,
        {
            assert(mv.take(k + 1).drop_last() =~= mv.take(k as int));
            assert(mv[k as int] == members@[k as int]@);
            let ghost before = ids@;
            if let Some(x) = &members[k].id {
                ids.push(x.clone());
                assert(ids@.map_values(|x: String| x@) =~= before.map_values(|x: String| x@).push(x@));
            }
            k += 1;
        }
        assert(mv.take(mv.len() as int) =~= mv);
        let node = self.shapes[gi].node.0;
        let edit = match node_index(&self.nodes, node) {
            None => None,
            Some(ni) => {
                assert(node_at(self.nodes@, node) == Some(self.nodes@[ni as int]));
                let span = self.nodes[ni].span;
                let content = match self.nodes[ni].content_span {
                    Some(c) => match self.text_between(c.start, c.end) {
                        Some(x) => x,
                        None => "",
                    },
                    None => "",
                };
                proof {
                    reveal_strlit("");
                    assert(""@ =~= Seq::<char>::empty());
                    let want = match self.nodes@[ni as int].content_span {
                        Some(c) => match text_at(self.text(), c.start as int, c.end as int) {
                            Some(x) => x,
                            None => Seq::empty(),
                        },
                        None => Seq::empty(),
                    };
                    assert(content@ == want);
                }
                let indent = crate::document::indent_before(self.source.as_str(), span.start);
                let body = ungroup_markup(content, indent.as_str());
                assert(ungroup_edit(self.text(), node) == Some(
                    (span.start as int, span.end as int, body@),
                ));
                Some((span.start, span.end, body))
            },
        };
        self.splice_opt(edit, steps)?;
        self.unbind_dangling(steps)?;
        Ok(ids)
    }
}

/// What a label gesture on `id` acts on: `None` for an id that names
/// nothing; `Some(None)` for a shape that is not a `<text>`;
/// `Some(Some(s))` for the label.
pub open spec fn label_target(shapes: Seq<ShapeView>, id: Seq<char>) -> Option<Option<ShapeView>> {
    match shape_named(shapes, id) {
        None => None,
        Some(s) => if s.kind == ShapeKind::Text {
            Some(Some(s))
        } else {
            Some(None)
        },
    }
}

impl Drawing {
    /// The value of the `<svg>` element's first attribute named `name`,
    /// when present and not bare.
    pub fn root_attr(&self, name: &str) -> (r: Option<&str>)
        requires
            self.wf(),
        ensures
            opt_str_view(r) == crate::shape::attr_value(root_attrs_in(self.text()), name@),
    {
        let i = node_index(&self.nodes, self.root);
        proof {
            crate::tree::lemma_find_node(self.nodes@, self.root);
        }
        match i {
            Some(i) => crate::shape::find_attr(&self.nodes[i].attrs, name),
            None => None,
        }
    }

    /// The connector with this id, for a gesture on connectors:
    /// `NoSuchShape` for an id that names nothing, `Unsupported` for a
    /// shape that is not a connector.
    pub fn arrow(&self, id: &str, gesture: &'static str) -> (r: Result<&Shape, DrawingError>)
        requires
            self.wf(),
        ensures
            heads_target(shapes_in(self.text()), id@) is None ==> (r matches Err(
                DrawingError::NoSuchShape(s),
            ) && s@ == id@),
            heads_target(shapes_in(self.text()), id@) matches Some(t) && t is None ==> (r matches Err(
                DrawingError::Unsupported { gesture: g, kind },
            ) && g == gesture && kind == shape_named(shapes_in(self.text()), id@).unwrap().kind),
            heads_target(shapes_in(self.text()), id@) matches Some(Some(t)) ==> (r matches Ok(s)
                && s@ == t),
    {
        proof {
            self.lemma_wf();
        }
        let i = match self.shape_index(id) {
            Some(i) => i,
            None => return Err(DrawingError::NoSuchShape(crate::text::owned(id))),
        };
        let s = &self.shapes[i];
        assert(shapes_view(self.shapes@)[i as int] == s@);
        if crate::connector::is_connector(s) {
            Ok(s)
        } else {
            Err(DrawingError::Unsupported { gesture, kind: s.kind })
        }
    }

    /// The `<text>` with this id, for a label gesture: `NoSuchShape` for an
    /// id that names nothing, `Unsupported` for a shape that is not a
    /// label.
    pub fn label(&self, id: &str, gesture: &'static str) -> (r: Result<&Shape, DrawingError>)
        requires
            self.wf(),
        ensures
            label_target(shapes_in(self.text()), id@) is None ==> (r matches Err(
                DrawingError::NoSuchShape(s),
            ) && s@ == id@),
            label_target(shapes_in(self.text()), id@) matches Some(t) && t is None ==> (r matches Err(
                DrawingError::Unsupported { gesture: g, kind },
            ) && g == gesture && kind == shape_named(shapes_in(self.text()), id@).unwrap().kind),
            label_target(shapes_in(self.text()), id@) matches Some(Some(t)) ==> (r matches Ok(s)
                && s@ == t),
    {
        proof {
            self.lemma_wf();
        }
        let i = match self.shape_index(id) {
            Some(i) => i,
            None => return Err(DrawingError::NoSuchShape(crate::text::owned(id))),
        };
        let s = &self.shapes[i];
        assert(shapes_view(self.shapes@)[i as int] == s@);
        if s.kind == ShapeKind::Text {
            Ok(s)
        } else {
            Err(DrawingError::Unsupported { gesture, kind: s.kind })
        }
    }

    /// Bind an end of a connector to a shape — `data-from` or `data-to`
    /// written — or, with `None`, unbind it, folded into the gesture; where
    /// the bound end then sits on the shape's edge is the host's to work
    /// out and write in the same gesture. `Unsupported` for what is not a
    /// connector; `NoSuchShape` for a target that is not there, the arrow
    /// itself included.
    pub fn bind(&mut self, id: &str, end: End, target: Option<&str>, steps: &mut Steps) -> (r: Result<
        (),
        DrawingError,
    >)
        requires
            old(self).wf(),
            old(steps).holds(*old(self)),
        ensures
            final(steps).same_gesture(*old(steps)),
            final(self).pen_v() == old(self).pen_v(),
            heads_target(shapes_in(old(self).text()), id@) is None ==> (r matches Err(
                DrawingError::NoSuchShape(s),
            ) && s@ == id@) && *final(self) == *old(self),
            heads_target(shapes_in(old(self).text()), id@) matches Some(t) && t is None ==> (r matches Err(
                DrawingError::Unsupported { gesture, kind },
            ) && gesture@ == "bind"@) && *final(self) == *old(self),
            r matches Err(e) ==> (e is NoSuchShape && (heads_target(shapes_in(old(self).text()), id@)
                is None || (target matches Some(tg) && (tg@ == id@ || shape_named(
                shapes_in(old(self).text()),
                tg@,
            ) is None)))) || (e is Unsupported && heads_target(shapes_in(old(self).text()), id@)
                == Some(None::<ShapeView>)) || from_twig(e, final(self).text()),
            heads_target(shapes_in(old(self).text()), id@) matches Some(Some(a)) ==> {
                &&& (target matches Some(tg) && (tg@ == id@ || shape_named(
                    shapes_in(old(self).text()),
                    tg@,
                ) is None)) ==> (r matches Err(DrawingError::NoSuchShape(s)) && s@ == target.unwrap()@)
                    && *final(self) == *old(self)
                &&& r is Ok ==> {
                    &&& final(self).wf()
                    &&& final(steps).holds(*final(self))
                    &&& final(steps).made()
                    &&& final(self).text() == attrs_written(
                        old(self).text(),
                        a.node,
                        merged(a.attrs, seq![(binding_of(end), opt_str_view(target))]),
                    )
                }
            },
    {
        proof {
            self.lemma_wf();
            reveal_strlit("bind");
        }
        let a = self.arrow(id, "bind")?;
        if let Some(tg) = target {
            if crate::text::str_eq(tg, id) || self.shape(tg).is_none() {
                return Err(DrawingError::NoSuchShape(crate::text::owned(tg)));
            }
        }
        let node = a.node;
        let attrs = crate::tree::clone_attrs(&a.attrs);
        let mut updates: Vec<(String, Option<String>)> = Vec::new();
        updates.push(
            (
                crate::text::owned(end.binding()),
                match target {
                    Some(tg) => Some(crate::text::owned(tg)),
                    None => None,
                },
            ),
        );
        assert(attrs_view(updates@) =~= seq![(binding_of(end), opt_str_view(target))]);
        proof {
            let sv = shapes_in(self.text());
            lemma_find_shape(sv, id@);
            lemma_shape_has_attrs(self.text(), find_shape(sv, id@)->0);
        }
        self.write_attrs(node, &attrs, &updates, steps)
    }
}

// ----- the document a label is measured in --------------------------------

/// The groups a shape is in, innermost first, each found by the id the one
/// inside it names: at most `fuel` of them.
pub open spec fn enclosing(shapes: Seq<ShapeView>, group: Option<Seq<char>>, fuel: nat) -> Seq<ShapeView>
    decreases fuel,
{
    if fuel == 0 {
        Seq::empty()
    } else {
        match group {
            None => Seq::empty(),
            Some(g) => match shape_named(shapes, g) {
                None => Seq::empty(),
                Some(s) => seq![s] + enclosing(shapes, s.group, (fuel - 1) as nat),
            },
        }
    }
}

/// The opening tags of the groups `chain` lists innermost first, written
/// outermost first, each without its `transform`.
pub open spec fn group_opens(chain: Seq<ShapeView>) -> Seq<char>
    decreases chain.len(),
{
    if chain.len() == 0 {
        Seq::empty()
    } else {
        group_opens(chain.drop_first()) + "<g"@ + attrs_markup(chain[0].attrs, seq!["transform"@])
            + ">"@
    }
}

/// `n` closing `</g>` tags.
pub open spec fn group_closes(n: nat) -> Seq<char>
    decreases n,
{
    if n == 0 {
        Seq::empty()
    } else {
        group_closes((n - 1) as nat) + "</g>"@
    }
}

/// Whether a node is a `<style>` or a `<defs>`.
pub open spec fn styles_label(n: Node) -> bool {
    n.name matches Some(nm) && (nm@ == "style"@ || nm@ == "defs"@)
}

/// The source of each `<style>` and `<defs>` among the nodes `ids`, one
/// after the other.
pub open spec fn sheets_text(t: Seq<u8>, nodes: Seq<Node>, ids: Seq<u32>) -> Seq<char>
    decreases ids.len(),
{
    if ids.len() == 0 {
        Seq::empty()
    } else {
        sheets_text(t, nodes, ids.drop_last()) + match node_at(nodes, ids.last()) {
            Some(n) => if styles_label(n) {
                match text_at(t, n.span.start as int, n.span.end as int) {
                    Some(x) => x,
                    None => Seq::empty(),
                }
            } else {
                Seq::empty()
            },
            None => Seq::empty(),
        }
    }
}

/// The document a label is measured in, in the drawing whose text is `t`:
/// an `<svg>` of one unit with the root's attributes but its size and
/// namespace, every `<style>` and `<defs>` directly under the root, the
/// groups the label is in, and the label itself with `interior` as its
/// markup, each without its `transform`.
pub open spec fn label_doc(t: Seq<u8>, s: ShapeView, interior: Seq<char>) -> Seq<char> {
    let nodes = flat_nodes(t);
    let shapes = shapes_in(t);
    let chain = enclosing(shapes, s.group, shapes.len());
    "<svg xmlns=\"http://www.w3.org/2000/svg\" width=\"1\" height=\"1\""@ + attrs_markup(
        root_attrs_in(t),
        seq!["xmlns"@, "width"@, "height"@, "viewBox"@, "preserveAspectRatio"@],
    ) + ">"@ + sheets_text(t, nodes, children(nodes, root_of(nodes)->0)) + group_opens(chain)
        + "<text"@ + attrs_markup(s.attrs, seq!["transform"@]) + ">"@ + interior + "</text>"@
        + group_closes(chain.len()) + "</svg>"@
}

/// The first shape carrying an id comes no later than any that does.
proof fn lemma_find_shape_first(shapes: Seq<ShapeView>, id: Seq<char>, j: int)
    requires
        0 <= j < shapes.len(),
        shapes[j].id == Some(id),
    ensures
        find_shape(shapes, id) matches Some(f) && f <= j,
    decreases shapes.len(),
{
    if j < shapes.len() - 1 {
        assert(shapes.drop_last()[j] == shapes[j]);
        lemma_find_shape_first(shapes.drop_last(), id, j);
    } else {
        lemma_find_shape(shapes.drop_last(), id);
        assert(shapes.last() == shapes[j]);
    }
}

/// Following groups outwards from the shape at `i` ends within `i` steps.
proof fn lemma_enclosing_settles(shapes: Seq<ShapeView>, i: int, fuel: nat)
    requires
        crate::tree::groups_precede(shapes, None),
        0 <= i < shapes.len(),
        fuel > i,
    ensures
        enclosing(shapes, shapes[i].group, fuel) == enclosing(shapes, shapes[i].group, fuel + 1),
    decreases i,
{
    if let Some(y) = shapes[i].group {
        assert(shapes[i].group != None::<Seq<char>>);
        let j = choose|j: int| 0 <= j < i && shapes[j].id == shapes[i].group;
        lemma_find_shape_first(shapes, y, j);
        let f = find_shape(shapes, y)->0;
        lemma_find_shape(shapes, y);
        lemma_enclosing_settles(shapes, f, (fuel - 1) as nat);
        assert(enclosing(shapes, shapes[i].group, fuel + 1) == seq![shapes[f]] + enclosing(
            shapes,
            shapes[f].group,
            fuel,
        ));
        assert(((fuel - 1) as nat) + 1 == fuel);
    }
}

/// Following groups outwards from the shape at `i` to the outermost ends
/// within `i` steps.
proof fn lemma_outermost_settles(shapes: Seq<ShapeView>, i: int, fuel: nat)
    requires
        crate::tree::groups_precede(shapes, None),
        0 <= i < shapes.len(),
        fuel > i,
    ensures
        outermost_from(shapes, shapes[i], fuel) == outermost_from(shapes, shapes[i], fuel + 1),
    decreases i,
{
    if let Some(y) = shapes[i].group {
        assert(shapes[i].group != None::<Seq<char>>);
        let j = choose|j: int| 0 <= j < i && shapes[j].id == shapes[i].group;
        lemma_find_shape_first(shapes, y, j);
        let f = find_shape(shapes, y)->0;
        lemma_find_shape(shapes, y);
        lemma_outermost_settles(shapes, f, (fuel - 1) as nat);
        assert(((fuel - 1) as nat) + 1 == fuel);
    }
}

/// A drawing lists each group before its members.
proof fn lemma_shapes_groups_precede(t: Seq<u8>)
    ensures
        crate::tree::groups_precede(shapes_in(t), None),
{
    if let Some(r) = root_of(flat_nodes(t)) {
        let nodes = flat_nodes(t);
        crate::tree::lemma_walked_groups_precede(nodes, children(nodes, r), 0, None, nodes.len());
    }
}

/// Every group a shape of a drawing is in is found: the chain of enclosing
/// groups a label is measured under ends within as many steps as there are
/// shapes, so that one step more finds nothing further.
pub proof fn lemma_enclosing_complete(t: Seq<u8>, i: int)
    requires
        0 <= i < shapes_in(t).len(),
    ensures
        enclosing(shapes_in(t), shapes_in(t)[i].group, shapes_in(t).len()) == enclosing(
            shapes_in(t),
            shapes_in(t)[i].group,
            shapes_in(t).len() + 1,
        ),
{
    lemma_shapes_groups_precede(t);
    lemma_enclosing_settles(shapes_in(t), i, shapes_in(t).len());
}

/// The outermost group a click on a member selects is the outermost
/// there is: following groups outwards from a shape of a drawing ends
/// within as many steps as there are shapes.
pub proof fn lemma_outermost_complete(t: Seq<u8>, i: int)
    requires
        0 <= i < shapes_in(t).len(),
    ensures
        outermost_from(shapes_in(t), shapes_in(t)[i], shapes_in(t).len()) == outermost_from(
            shapes_in(t),
            shapes_in(t)[i],
            shapes_in(t).len() + 1,
        ),
{
    lemma_shapes_groups_precede(t);
    lemma_outermost_settles(shapes_in(t), i, shapes_in(t).len());
}

impl Drawing {
    /// The groups `shape` is in, innermost first.
    fn enclosing_groups(&self, shape: &Shape) -> (r: Vec<&Shape>)
        requires
            self.wf(),
        ensures
            r@.map_values(|s: &Shape| s@) == enclosing(
                shapes_in(self.text()),
                shape@.group,
                shapes_in(self.text()).len(),
            ),
    {
        proof {
            self.lemma_wf();
        }
        let ghost sv = shapes_view(self.shapes@);
        let mut out: Vec<&Shape> = Vec::new();
        let mut group: Option<&Shape> = match &shape.group {
            Some(g) => self.shape(g.as_str()),
            None => None,
        };
        let mut fuel: usize = self.shapes.len();
        proof {
            if fuel > 0 {
                assert(enclosing(sv, shape@.group, fuel as nat) == match shape@.group {
                    None => Seq::empty(),
                    Some(g) => match shape_named(sv, g) {
                        None => Seq::empty(),
                        Some(s) => seq![s] + enclosing(sv, s.group, (fuel - 1) as nat),
                    },
                });
            }
        }
        while fuel > 0
            invariant
                self.wf(),
                sv == shapes_in(self.text()),
                fuel <= sv.len(),
                fuel > 0 ==> out@.map_values(|s: &Shape| s@) + match group {
                    Some(g) => seq![g@] + enclosing(sv, g@.group, (fuel - 1) as nat),
                    None => Seq::empty(),
                } == enclosing(sv, shape@.group, sv.len()),
                fuel == 0 ==> out@.map_values(|s: &Shape| s@) == enclosing(sv, shape@.group, sv.len()),
            decreases fuel,
        {
            let g = match group {
                Some(g) => g,
                None => {
                    assert(out@.map_values(|s: &Shape| s@) + Seq::<ShapeView>::empty() =~= out@.map_values(
                        |s: &Shape| s@,
                    ));
                    return out;
                },
            };
            let ghost before = out@;
            out.push(g);
            assert(out@.map_values(|s: &Shape| s@) =~= before.map_values(|s: &Shape| s@).push(g@));
            let next: Option<&Shape> = match &g.group {
                Some(p) => self.shape(p.as_str()),
                None => None,
            };
            proof {
                let rest = enclosing(sv, g@.group, (fuel - 1) as nat);
                if fuel - 1 > 0 {
                    assert(rest == match g@.group {
                        None => Seq::empty(),
                        Some(p) => match shape_named(sv, p) {
                            None => Seq::empty(),
                            Some(s) => seq![s] + enclosing(sv, s.group, (fuel - 2) as nat),
                        },
                    });
                    if let Some(n) = next {
                        lemma_find_shape(sv, g@.group->0);
                        assert(rest == seq![n@] + enclosing(sv, n@.group, (fuel - 2) as nat));
                        assert(before.map_values(|s: &Shape| s@) + (seq![g@] + rest) =~= out@.map_values(
                            |s: &Shape| s@,
                        ) + (seq![n@] + enclosing(sv, n@.group, (fuel - 2) as nat)));
                    } else {
                        assert(rest =~= Seq::<ShapeView>::empty());
                        assert(before.map_values(|s: &Shape| s@) + (seq![g@] + rest) =~= out@.map_values(
                            |s: &Shape| s@,
                        ) + Seq::<ShapeView>::empty());
                    }
                } else {
                    assert(rest =~= Seq::<ShapeView>::empty());
                    assert(before.map_values(|s: &Shape| s@) + (seq![g@] + rest) =~= out@.map_values(
                        |s: &Shape| s@,
                    ));
                }
            }
            group = next;
            fuel -= 1;
        }
        out
    }

    /// The source of each `<style>` and `<defs>` directly under the root,
    /// one after the other.
    fn root_sheets_text(&self) -> (r: String)
        requires
            self.wf(),
        ensures
            r@ == sheets_text(
                self.text(),
                flat_nodes(self.text()),
                children(flat_nodes(self.text()), root_of(flat_nodes(self.text()))->0),
            ),
    {
        let kids = crate::tree::children_of(&self.nodes, self.root);
        let mut out = String::new();
        let mut k: usize = 0;
        while k < kids.len()
            invariant
                self.wf(),
                kids@ == children(self.nodes@, self.root),
                k <= kids@.len(),
                out@ == sheets_text(self.text(), self.nodes@, kids@.take(k as int)),
            decreases kids@.len() - k,
        {
            assert(kids@.take(k + 1).drop_last() =~= kids@.take(k as int));
            assert(kids@.take(k + 1).last() == kids@[k as int]);
            if let Some(i) = node_index(&self.nodes, kids[k]) {
                let n = &self.nodes[i];
                assert(node_at(self.nodes@, kids@[k as int]) == Some(self.nodes@[i as int]));
                let is_sheet = match &n.name {
                    Some(nm) => crate::text::str_eq(nm.as_str(), "style") || crate::text::str_eq(
                        nm.as_str(),
                        "defs",
                    ),
                    None => false,
                };
                if is_sheet {
                    if let Some(x) = self.text_between(n.span.start, n.span.end) {
                        push_str(&mut out, x);
                    } else {
                        assert(out@ + Seq::<char>::empty() =~= out@);
                    }
                } else {
                    assert(out@ + Seq::<char>::empty() =~= out@);
                }
            } else {
                proof {
                    crate::tree::lemma_find_node(self.nodes@, kids@[k as int]);
                }
                assert(out@ + Seq::<char>::empty() =~= out@);
            }
            k += 1;
        }
        assert(kids@.take(kids@.len() as int) =~= kids@);
        out
    }

    /// The document a label is measured in: an `<svg>` of one unit with
    /// the root's attributes but its size and namespace, every `<style>`
    /// and `<defs>` directly under the root, the groups the label is in,
    /// and the label with `interior` as its markup, each without its
    /// `transform` — so that a host's text layout sizes the label as the
    /// drawing styles it, in the label's own units.
    pub fn label_document(&self, shape: &Shape, interior: &str) -> (r: String)
        requires
            self.wf(),
        ensures
            r@ == label_doc(self.text(), shape@, interior@),
    {
        let mut doc = crate::text::owned("<svg xmlns=\"http://www.w3.org/2000/svg\" width=\"1\" height=\"1\"");
        let mut skip_root: Vec<&str> = Vec::new();
        skip_root.push("xmlns");
        skip_root.push("width");
        skip_root.push("height");
        skip_root.push("viewBox");
        skip_root.push("preserveAspectRatio");
        assert(crate::shape::views(skip_root@) =~= seq!["xmlns"@, "width"@, "height"@, "viewBox"@, "preserveAspectRatio"@]);
        let mut skip_own: Vec<&str> = Vec::new();
        skip_own.push("transform");
        assert(crate::shape::views(skip_own@) =~= seq!["transform"@]);
        write_attributes(&mut doc, self.root_attrs(), skip_root.as_slice());
        push_str(&mut doc, ">");
        let sheets = self.root_sheets_text();
        push_str(&mut doc, sheets.as_str());
        let chain = self.enclosing_groups(shape);
        let ghost cv = chain@.map_values(|s: &Shape| s@);
        let ghost head = doc@;
        let mut k: usize = chain.len();
        assert(cv.subrange(k as int, cv.len() as int) =~= Seq::<ShapeView>::empty());
        while k > 0
            invariant
                k <= chain@.len(),
                cv == chain@.map_values(|s: &Shape| s@),
                crate::shape::views(skip_own@) == seq!["transform"@],
                doc@ == head + group_opens(cv.subrange(k as int, cv.len() as int)),
            decreases k,
        {
            k -= 1;
            let ghost before = doc@;
            push_str(&mut doc, "<g");
            write_attributes(&mut doc, chain[k].attrs.as_slice(), skip_own.as_slice());
            push_str(&mut doc, ">");
            assert(cv.subrange(k as int, cv.len() as int).drop_first() =~= cv.subrange(k + 1, cv.len() as int));
            assert(cv.subrange(k as int, cv.len() as int)[0] == chain@[k as int]@);
        }
        assert(cv.subrange(0, cv.len() as int) =~= cv);
        let ghost opened = doc@;
        push_str(&mut doc, "<text");
        write_attributes(&mut doc, shape.attrs.as_slice(), skip_own.as_slice());
        push_str(&mut doc, ">");
        push_str(&mut doc, interior);
        push_str(&mut doc, "</text>");
        let mut j: usize = 0;
        let ghost tail = doc@;
        while j < chain.len()
            invariant
                j <= chain@.len(),
                doc@ == tail + group_closes(j as nat),
            decreases chain@.len() - j,
        {
            push_str(&mut doc, "</g>");
            j += 1;
        }
        push_str(&mut doc, "</svg>");
        proof {
            self.lemma_wf();
            let t = self.text();
            let nodes = flat_nodes(t);
            assert(head == "<svg xmlns=\"http://www.w3.org/2000/svg\" width=\"1\" height=\"1\""@
                + attrs_markup(root_attrs_in(t), seq!["xmlns"@, "width"@, "height"@, "viewBox"@, "preserveAspectRatio"@])
                + ">"@ + sheets_text(t, nodes, children(nodes, root_of(nodes)->0)));
            assert(opened == head + group_opens(cv));
            assert(tail == opened + "<text"@ + attrs_markup(shape@.attrs, seq!["transform"@]) + ">"@ + interior@
                + "</text>"@);
            assert(doc@ =~= label_doc(t, shape@, interior@));
        }
        doc
    }
}

} // verus!
