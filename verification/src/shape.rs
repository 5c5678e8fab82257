//! The shape model: which elements the editor treats as shapes, and the
//! words it reads off each. Everything is read from twig's flat node list
//! after every edit; the SVG is the model, and this is a view of it.

use vstd::prelude::*;

use crate::text::{str_eq, trim, trimmed};
use crate::tree::NodeId;

verus! {

/// What kind of shape an element is. The set the profile names; an element
/// with any other tag is preserved and not modelled.
#[derive(Clone, Copy, Debug, PartialEq, Eq, Hash, Structural)]
#[non_exhaustive]
pub enum ShapeKind {
    Rect,
    Ellipse,
    Circle,
    Line,
    Polyline,
    Polygon,
    /// A `<path>`: freehand ink, an arrow's shaft, or anything a hand wrote.
    Path,
    /// A `<text>` label.
    Text,
    /// A `<g>`: a group of shapes, itself selectable.
    Group,
    /// An `<image>`: a bitmap the drawing is marked up over.
    Image,
}

/// The tag that spells each kind.
pub open spec fn kind_tag(k: ShapeKind) -> Seq<char> {
    match k {
        ShapeKind::Rect => "rect"@,
        ShapeKind::Ellipse => "ellipse"@,
        ShapeKind::Circle => "circle"@,
        ShapeKind::Line => "line"@,
        ShapeKind::Polyline => "polyline"@,
        ShapeKind::Polygon => "polygon"@,
        ShapeKind::Path => "path"@,
        ShapeKind::Text => "text"@,
        ShapeKind::Group => "g"@,
        ShapeKind::Image => "image"@,
    }
}

/// The kind a tag spells, or `None` for a tag that is not a shape.
pub open spec fn kind_of_tag(t: Seq<char>) -> Option<ShapeKind> {
    if t == "rect"@ {
        Some(ShapeKind::Rect)
    } else if t == "ellipse"@ {
        Some(ShapeKind::Ellipse)
    } else if t == "circle"@ {
        Some(ShapeKind::Circle)
    } else if t == "line"@ {
        Some(ShapeKind::Line)
    } else if t == "polyline"@ {
        Some(ShapeKind::Polyline)
    } else if t == "polygon"@ {
        Some(ShapeKind::Polygon)
    } else if t == "path"@ {
        Some(ShapeKind::Path)
    } else if t == "text"@ {
        Some(ShapeKind::Text)
    } else if t == "g"@ {
        Some(ShapeKind::Group)
    } else if t == "image"@ {
        Some(ShapeKind::Image)
    } else {
        None
    }
}

/// The attributes that carry each kind's geometry.
pub open spec fn kind_geometry(k: ShapeKind) -> Seq<Seq<char>> {
    match k {
        ShapeKind::Rect | ShapeKind::Image => seq![
            "x"@,
            "y"@,
            "width"@,
            "height"@,
            "rx"@,
            "ry"@,
        ],
        ShapeKind::Ellipse => seq!["cx"@, "cy"@, "rx"@, "ry"@],
        ShapeKind::Circle => seq!["cx"@, "cy"@, "r"@],
        ShapeKind::Line => seq!["x1"@, "y1"@, "x2"@, "y2"@],
        ShapeKind::Text => seq!["x"@, "y"@, "data-width"@],
        _ => Seq::empty(),
    }
}

/// The views of a list of strings.
pub open spec fn views(v: Seq<&str>) -> Seq<Seq<char>> {
    v.map_values(|s: &str| s@)
}

impl ShapeKind {
    /// The tag that spells this kind.
    pub fn tag(self) -> (r: &'static str)
        ensures
            r@ == kind_tag(self),
    {
        match self {
            ShapeKind::Rect => "rect",
            ShapeKind::Ellipse => "ellipse",
            ShapeKind::Circle => "circle",
            ShapeKind::Line => "line",
            ShapeKind::Polyline => "polyline",
            ShapeKind::Polygon => "polygon",
            ShapeKind::Path => "path",
            ShapeKind::Text => "text",
            ShapeKind::Group => "g",
            ShapeKind::Image => "image",
        }
    }

    /// The kind an element tag spells, or `None` for a tag that is not a
    /// shape (`defs`, `style`, `title`, a `<marker>` inside `<defs>` …).
    pub fn from_tag(tag: &str) -> (r: Option<ShapeKind>)
        ensures
            r == kind_of_tag(tag@),
    {
        if str_eq(tag, "rect") {
            Some(ShapeKind::Rect)
        } else if str_eq(tag, "ellipse") {
            Some(ShapeKind::Ellipse)
        } else if str_eq(tag, "circle") {
            Some(ShapeKind::Circle)
        } else if str_eq(tag, "line") {
            Some(ShapeKind::Line)
        } else if str_eq(tag, "polyline") {
            Some(ShapeKind::Polyline)
        } else if str_eq(tag, "polygon") {
            Some(ShapeKind::Polygon)
        } else if str_eq(tag, "path") {
            Some(ShapeKind::Path)
        } else if str_eq(tag, "text") {
            Some(ShapeKind::Text)
        } else if str_eq(tag, "g") {
            Some(ShapeKind::Group)
        } else if str_eq(tag, "image") {
            Some(ShapeKind::Image)
        } else {
            None
        }
    }

    /// The attributes that carry this kind's geometry, which the profile
    /// requires in its number format and which move and resize rewrite.
    /// `points` and `d` are lists, checked as such; a group has none.
    pub fn geometry_attrs(self) -> (r: Vec<&'static str>)
        ensures
            views(r@) == kind_geometry(self),
    {
        let r: Vec<&'static str> = match self {
            ShapeKind::Rect | ShapeKind::Image => vec!["x", "y", "width", "height", "rx", "ry"],
            ShapeKind::Ellipse => vec!["cx", "cy", "rx", "ry"],
            ShapeKind::Circle => vec!["cx", "cy", "r"],
            ShapeKind::Line => vec!["x1", "y1", "x2", "y2"],
            ShapeKind::Text => vec!["x", "y", "data-width"],
            _ => Vec::new(),
        };
        assert(views(r@) =~= kind_geometry(self));
        r
    }
}

/// Which ends of an arrow have a head: the values `data-arrow` takes.
#[derive(Clone, Copy, Debug, PartialEq, Eq, Hash, Structural)]
pub enum Heads {
    /// A head at `(x2, y2)`: the arrow the tool draws.
    End,
    /// A head at `(x1, y1)`.
    Start,
    Both,
}

pub open spec fn heads_value(h: Heads) -> Seq<char> {
    match h {
        Heads::End => "end"@,
        Heads::Start => "start"@,
        Heads::Both => "both"@,
    }
}

/// Whether an arrow has a head at its start, `(x1, y1)`.
pub open spec fn head_at_start(h: Option<Heads>) -> bool {
    h == Some(Heads::Start) || h == Some(Heads::Both)
}

/// Whether an arrow has a head at its end, `(x2, y2)`.
pub open spec fn head_at_end(h: Option<Heads>) -> bool {
    h == Some(Heads::End) || h == Some(Heads::Both)
}

/// The heads a `data-arrow` value names, surrounding whitespace aside.
pub open spec fn heads_of(v: Seq<char>) -> Option<Heads> {
    let t = trim(v);
    if t == "end"@ {
        Some(Heads::End)
    } else if t == "start"@ {
        Some(Heads::Start)
    } else if t == "both"@ {
        Some(Heads::Both)
    } else {
        None
    }
}

impl Heads {
    /// The value `data-arrow` spells this as.
    pub fn value(self) -> (r: &'static str)
        ensures
            r@ == heads_value(self),
    {
        match self {
            Heads::End => "end",
            Heads::Start => "start",
            Heads::Both => "both",
        }
    }

    /// The heads a `data-arrow` value names, or `None` for a value the
    /// profile does not admit.
    pub fn from_value(value: &str) -> (r: Option<Heads>)
        ensures
            r == heads_of(value@),
    {
        let t = trimmed(value);
        if str_eq(t.as_str(), "end") {
            Some(Heads::End)
        } else if str_eq(t.as_str(), "start") {
            Some(Heads::Start)
        } else if str_eq(t.as_str(), "both") {
            Some(Heads::Both)
        } else {
            None
        }
    }
}

/// How a stroke is broken: the values `data-dash` takes. Solid is the
/// word's absence.
#[derive(Clone, Copy, Debug, PartialEq, Eq, Hash, Structural)]
pub enum Dash {
    Dashed,
    Dotted,
}

pub open spec fn dash_value(d: Dash) -> Seq<char> {
    match d {
        Dash::Dashed => "dashed"@,
        Dash::Dotted => "dotted"@,
    }
}

/// The dash a `data-dash` value names, surrounding whitespace aside.
pub open spec fn dash_of(v: Seq<char>) -> Option<Dash> {
    let t = trim(v);
    if t == "dashed"@ {
        Some(Dash::Dashed)
    } else if t == "dotted"@ {
        Some(Dash::Dotted)
    } else {
        None
    }
}

impl Dash {
    /// The value `data-dash` spells this as.
    pub fn value(self) -> (r: &'static str)
        ensures
            r@ == dash_value(self),
    {
        match self {
            Dash::Dashed => "dashed",
            Dash::Dotted => "dotted",
        }
    }

    /// The dash a `data-dash` value names, or `None` for a value the
    /// profile does not admit.
    pub fn from_value(value: &str) -> (r: Option<Dash>)
        ensures
            r == dash_of(value@),
    {
        let t = trimmed(value);
        if str_eq(t.as_str(), "dashed") {
            Some(Dash::Dashed)
        } else if str_eq(t.as_str(), "dotted") {
            Some(Dash::Dotted)
        } else {
            None
        }
    }
}

/// How heavy a stroke is: the values `data-weight` takes. The template's
/// width is the word's absence.
#[derive(Clone, Copy, Debug, PartialEq, Eq, Hash, Structural)]
pub enum Weight {
    Thin,
    Bold,
}

pub open spec fn weight_value(w: Weight) -> Seq<char> {
    match w {
        Weight::Thin => "thin"@,
        Weight::Bold => "bold"@,
    }
}

/// The weight a `data-weight` value names, surrounding whitespace aside.
pub open spec fn weight_of(v: Seq<char>) -> Option<Weight> {
    let t = trim(v);
    if t == "thin"@ {
        Some(Weight::Thin)
    } else if t == "bold"@ {
        Some(Weight::Bold)
    } else {
        None
    }
}

impl Weight {
    /// The value `data-weight` spells this as.
    pub fn value(self) -> (r: &'static str)
        ensures
            r@ == weight_value(self),
    {
        match self {
            Weight::Thin => "thin",
            Weight::Bold => "bold",
        }
    }

    /// The weight a `data-weight` value names, or `None` for a value the
    /// profile does not admit.
    pub fn from_value(value: &str) -> (r: Option<Weight>)
        ensures
            r == weight_of(value@),
    {
        let t = trimmed(value);
        if str_eq(t.as_str(), "thin") {
            Some(Weight::Thin)
        } else if str_eq(t.as_str(), "bold") {
            Some(Weight::Bold)
        } else {
            None
        }
    }
}

/// A colour of the palette: the values `data-color` and `data-fill` take.
/// A name, not a hex, so the drawing's `<style>` can say what red is on a
/// light page and on a dark one.
#[derive(Clone, Copy, Debug, PartialEq, Eq, Hash, Structural)]
pub enum Hue {
    Red,
    Orange,
    Yellow,
    Green,
    Blue,
    Violet,
    Pink,
    Grey,
}

pub open spec fn hue_value(h: Hue) -> Seq<char> {
    match h {
        Hue::Red => "red"@,
        Hue::Orange => "orange"@,
        Hue::Yellow => "yellow"@,
        Hue::Green => "green"@,
        Hue::Blue => "blue"@,
        Hue::Violet => "violet"@,
        Hue::Pink => "pink"@,
        Hue::Grey => "grey"@,
    }
}

/// The hue a value names, surrounding whitespace aside.
pub open spec fn hue_of(v: Seq<char>) -> Option<Hue> {
    let t = trim(v);
    if t == "red"@ {
        Some(Hue::Red)
    } else if t == "orange"@ {
        Some(Hue::Orange)
    } else if t == "yellow"@ {
        Some(Hue::Yellow)
    } else if t == "green"@ {
        Some(Hue::Green)
    } else if t == "blue"@ {
        Some(Hue::Blue)
    } else if t == "violet"@ {
        Some(Hue::Violet)
    } else if t == "pink"@ {
        Some(Hue::Pink)
    } else if t == "grey"@ {
        Some(Hue::Grey)
    } else {
        None
    }
}

/// The palette in the order it is shown.
pub open spec fn hue_order() -> Seq<Hue> {
    seq![
        Hue::Red,
        Hue::Orange,
        Hue::Yellow,
        Hue::Green,
        Hue::Blue,
        Hue::Violet,
        Hue::Pink,
        Hue::Grey,
    ]
}

/// What the template draws a `data-color` as, light page then dark.
pub open spec fn hue_stroke(h: Hue, dark: bool) -> Seq<char> {
    match (h, dark) {
        (Hue::Red, false) => "#c62828"@,
        (Hue::Red, true) => "#ef5350"@,
        (Hue::Orange, false) => "#ef6c00"@,
        (Hue::Orange, true) => "#ffa726"@,
        (Hue::Yellow, false) => "#f9a825"@,
        (Hue::Yellow, true) => "#ffee58"@,
        (Hue::Green, false) => "#2e7d32"@,
        (Hue::Green, true) => "#66bb6a"@,
        (Hue::Blue, false) => "#1565c0"@,
        (Hue::Blue, true) => "#42a5f5"@,
        (Hue::Violet, false) => "#6a1b9a"@,
        (Hue::Violet, true) => "#ab47bc"@,
        (Hue::Pink, false) => "#ad1457"@,
        (Hue::Pink, true) => "#ec407a"@,
        (Hue::Grey, false) => "#757575"@,
        (Hue::Grey, true) => "#9e9e9e"@,
    }
}

/// What the template draws a `data-fill` as, light page then dark.
pub open spec fn hue_tint(h: Hue, dark: bool) -> Seq<char> {
    match (h, dark) {
        (Hue::Red, false) => "#ffcdd2"@,
        (Hue::Red, true) => "#4e1c1c"@,
        (Hue::Orange, false) => "#ffe0b2"@,
        (Hue::Orange, true) => "#4e2f0f"@,
        (Hue::Yellow, false) => "#fff9c4"@,
        (Hue::Yellow, true) => "#4a4210"@,
        (Hue::Green, false) => "#c8e6c9"@,
        (Hue::Green, true) => "#1b3d1f"@,
        (Hue::Blue, false) => "#bbdefb"@,
        (Hue::Blue, true) => "#10305a"@,
        (Hue::Violet, false) => "#e1bee7"@,
        (Hue::Violet, true) => "#3a1550"@,
        (Hue::Pink, false) => "#f8bbd0"@,
        (Hue::Pink, true) => "#4a1330"@,
        (Hue::Grey, false) => "#e0e0e0"@,
        (Hue::Grey, true) => "#3a3a3a"@,
    }
}

impl Hue {
    /// Every hue, in the order a palette shows them.
    pub fn all() -> (r: [Hue; 8])
        ensures
            r@ == hue_order(),
    {
        let r = [
            Hue::Red,
            Hue::Orange,
            Hue::Yellow,
            Hue::Green,
            Hue::Blue,
            Hue::Violet,
            Hue::Pink,
            Hue::Grey,
        ];
        assert(r@ =~= hue_order());
        r
    }

    /// The value `data-color` or `data-fill` spells this as.
    pub fn value(self) -> (r: &'static str)
        ensures
            r@ == hue_value(self),
    {
        match self {
            Hue::Red => "red",
            Hue::Orange => "orange",
            Hue::Yellow => "yellow",
            Hue::Green => "green",
            Hue::Blue => "blue",
            Hue::Violet => "violet",
            Hue::Pink => "pink",
            Hue::Grey => "grey",
        }
    }

    /// The hue a value names, or `None` for one the profile does not admit.
    pub fn from_value(value: &str) -> (r: Option<Hue>)
        ensures
            r == hue_of(value@),
    {
        let t = trimmed(value);
        let t = t.as_str();
        if str_eq(t, "red") {
            Some(Hue::Red)
        } else if str_eq(t, "orange") {
            Some(Hue::Orange)
        } else if str_eq(t, "yellow") {
            Some(Hue::Yellow)
        } else if str_eq(t, "green") {
            Some(Hue::Green)
        } else if str_eq(t, "blue") {
            Some(Hue::Blue)
        } else if str_eq(t, "violet") {
            Some(Hue::Violet)
        } else if str_eq(t, "pink") {
            Some(Hue::Pink)
        } else if str_eq(t, "grey") {
            Some(Hue::Grey)
        } else {
            None
        }
    }

    /// What the template draws a `data-color` of this hue as: the `color`
    /// a stroke, an ink stroke, a label and an arrowhead take, on a light
    /// page and on a dark one.
    pub fn stroke(self, dark: bool) -> (r: &'static str)
        ensures
            r@ == hue_stroke(self, dark),
    {
        match (self, dark) {
            (Hue::Red, false) => "#c62828",
            (Hue::Red, true) => "#ef5350",
            (Hue::Orange, false) => "#ef6c00",
            (Hue::Orange, true) => "#ffa726",
            (Hue::Yellow, false) => "#f9a825",
            (Hue::Yellow, true) => "#ffee58",
            (Hue::Green, false) => "#2e7d32",
            (Hue::Green, true) => "#66bb6a",
            (Hue::Blue, false) => "#1565c0",
            (Hue::Blue, true) => "#42a5f5",
            (Hue::Violet, false) => "#6a1b9a",
            (Hue::Violet, true) => "#ab47bc",
            (Hue::Pink, false) => "#ad1457",
            (Hue::Pink, true) => "#ec407a",
            (Hue::Grey, false) => "#757575",
            (Hue::Grey, true) => "#9e9e9e",
        }
    }

    /// What the template draws a `data-fill` of this hue as: a tint, on a
    /// light page and on a dark one.
    pub fn tint(self, dark: bool) -> (r: &'static str)
        ensures
            r@ == hue_tint(self, dark),
    {
        match (self, dark) {
            (Hue::Red, false) => "#ffcdd2",
            (Hue::Red, true) => "#4e1c1c",
            (Hue::Orange, false) => "#ffe0b2",
            (Hue::Orange, true) => "#4e2f0f",
            (Hue::Yellow, false) => "#fff9c4",
            (Hue::Yellow, true) => "#4a4210",
            (Hue::Green, false) => "#c8e6c9",
            (Hue::Green, true) => "#1b3d1f",
            (Hue::Blue, false) => "#bbdefb",
            (Hue::Blue, true) => "#10305a",
            (Hue::Violet, false) => "#e1bee7",
            (Hue::Violet, true) => "#3a1550",
            (Hue::Pink, false) => "#f8bbd0",
            (Hue::Pink, true) => "#4a1330",
            (Hue::Grey, false) => "#e0e0e0",
            (Hue::Grey, true) => "#3a3a3a",
        }
    }
}

/// Each word's spelling reads back as the word, whitespace around it or
/// not: `from_value(value(w)) == Some(w)`, for heads, dashes, weights and
/// hues, and `from_tag(tag(k)) == Some(k)` for every kind.
pub proof fn lemma_words_read_back(h: Heads, d: Dash, w: Weight, c: Hue, k: ShapeKind)
    ensures
        heads_of(heads_value(h)) == Some(h),
        dash_of(dash_value(d)) == Some(d),
        weight_of(weight_value(w)) == Some(w),
        hue_of(hue_value(c)) == Some(c),
        kind_of_tag(kind_tag(k)) == Some(k),
{
    reveal_strlit("end");
    reveal_strlit("start");
    reveal_strlit("both");
    reveal_strlit("dashed");
    reveal_strlit("dotted");
    reveal_strlit("thin");
    reveal_strlit("bold");
    reveal_strlit("red");
    reveal_strlit("orange");
    reveal_strlit("yellow");
    reveal_strlit("green");
    reveal_strlit("blue");
    reveal_strlit("violet");
    reveal_strlit("pink");
    reveal_strlit("grey");
    reveal_strlit("rect");
    reveal_strlit("ellipse");
    reveal_strlit("circle");
    reveal_strlit("line");
    reveal_strlit("polyline");
    reveal_strlit("polygon");
    reveal_strlit("path");
    reveal_strlit("text");
    reveal_strlit("g");
    reveal_strlit("image");
    assert("dashed"@[1] != "dotted"@[1]);
    assert("ellipse"@[0] != "polygon"@[0]);
    assert("rect"@[0] != "line"@[0] && "rect"@[0] != "path"@[0] && "rect"@[0] != "text"@[0]);
    assert("line"@[0] != "path"@[0] && "line"@[0] != "text"@[0] && "path"@[0] != "text"@[0]);
    match k {
        ShapeKind::Rect => {},
        ShapeKind::Ellipse => assert("ellipse"@.len() != "rect"@.len()),
        ShapeKind::Circle => assert("circle"@.len() != "rect"@.len() && "circle"@.len() != "ellipse"@.len()),
        ShapeKind::Line => assert("line"@ != "rect"@ && "line"@.len() != "ellipse"@.len() && "line"@.len() != "circle"@.len()),
        ShapeKind::Polyline => assert("polyline"@.len() != "rect"@.len() && "polyline"@.len() != "ellipse"@.len() && "polyline"@.len() != "circle"@.len() && "polyline"@.len() != "line"@.len()),
        ShapeKind::Polygon => assert("polygon"@ != "ellipse"@ && "polygon"@.len() != "rect"@.len() && "polygon"@.len() != "circle"@.len() && "polygon"@.len() != "line"@.len() && "polygon"@.len() != "polyline"@.len()),
        ShapeKind::Path => assert("path"@ != "rect"@ && "path"@ != "line"@ && "path"@.len() != "ellipse"@.len() && "path"@.len() != "circle"@.len() && "path"@.len() != "polyline"@.len() && "path"@.len() != "polygon"@.len()),
        ShapeKind::Text => assert("text"@ != "rect"@ && "text"@ != "line"@ && "text"@ != "path"@ && "text"@.len() != "ellipse"@.len() && "text"@.len() != "circle"@.len() && "text"@.len() != "polyline"@.len() && "text"@.len() != "polygon"@.len()),
        ShapeKind::Group => assert("g"@.len() != "rect"@.len() && "g"@.len() != "ellipse"@.len() && "g"@.len() != "circle"@.len() && "g"@.len() != "polyline"@.len() && "g"@.len() != "polygon"@.len() && "g"@.len() != "line"@.len() && "g"@.len() != "path"@.len() && "g"@.len() != "text"@.len()),
        ShapeKind::Image => assert("image"@.len() != "rect"@.len() && "image"@.len() != "ellipse"@.len() && "image"@.len() != "circle"@.len() && "image"@.len() != "polyline"@.len() && "image"@.len() != "polygon"@.len() && "image"@.len() != "line"@.len() && "image"@.len() != "path"@.len() && "image"@.len() != "text"@.len() && "image"@.len() != "g"@.len()),
    }
    lemma_trim_word(heads_value(h));
    lemma_trim_word(dash_value(d));
    lemma_trim_word(weight_value(w));
    lemma_trim_word(hue_value(c));
}

/// A word with no whitespace at either end is its own trim.
pub proof fn lemma_trim_word(s: Seq<char>)
    requires
        s.len() > 0,
        !crate::text::is_ws(s[0]),
        !crate::text::is_ws(s.last()),
    ensures
        trim(s) == s,
{
    assert(crate::text::trim_start(s) == s);
}

/// One shape, as read from the tree: the node's identity and its
/// attributes as strings.
#[derive(Clone, Debug, PartialEq)]
pub struct Shape {
    /// twig's node, valid until the next edit.
    pub node: NodeId,
    pub kind: ShapeKind,
    /// The `data-id` the profile requires; `None` is a profile finding, not
    /// an editor error, because the file may have been written by hand.
    pub id: Option<String>,
    /// The enclosing group's `data-id`, when the shape is inside a `<g>`
    /// that is itself a shape; `None` for a shape directly under `<svg>`.
    pub group: Option<String>,
    /// Nesting depth below `<svg>`: 0 for a direct child.
    pub depth: usize,
    /// Every attribute, in source order, bare ones as `None`.
    pub attrs: Vec<(String, Option<String>)>,
    /// A `<text>`'s characters, whitespace collapsed as SVG lays it out, a
    /// `data-break` line as `\n`. `None` for every other kind, and for an
    /// empty label.
    pub text: Option<String>,
}

/// An attribute list as plain values: each name and value by its view.
pub open spec fn attrs_view(a: Seq<(String, Option<String>)>) -> Seq<(Seq<char>, Option<Seq<char>>)> {
    a.map_values(|p: (String, Option<String>)| (p.0@, opt_view(p.1)))
}

/// An optional string by its view.
pub open spec fn opt_view(o: Option<String>) -> Option<Seq<char>> {
    match o {
        Some(s) => Some(s@),
        None => None,
    }
}

/// An optional `&str` by its view.
pub open spec fn opt_str_view(o: Option<&str>) -> Option<Seq<char>> {
    match o {
        Some(s) => Some(s@),
        None => None,
    }
}

/// The index of the first attribute named `name`.
pub open spec fn attr_index(a: Seq<(Seq<char>, Option<Seq<char>>)>, name: Seq<char>) -> Option<int>
    decreases a.len(),
{
    if a.len() == 0 {
        None
    } else {
        match attr_index(a.drop_last(), name) {
            Some(i) => Some(i),
            None => if a.last().0 == name {
                Some(a.len() - 1)
            } else {
                None
            },
        }
    }
}

/// The value of the first attribute named `name`, when present and not
/// bare.
pub open spec fn attr_value(a: Seq<(Seq<char>, Option<Seq<char>>)>, name: Seq<char>) -> Option<Seq<char>> {
    match attr_index(a, name) {
        Some(i) => a[i].1,
        None => None,
    }
}

pub proof fn lemma_attr_index_bounds(a: Seq<(Seq<char>, Option<Seq<char>>)>, name: Seq<char>)
    ensures
        attr_index(a, name) matches Some(i) ==> 0 <= i < a.len() && a[i].0 == name,
        attr_index(a, name) is None ==> forall|j: int| 0 <= j < a.len() ==> a[j].0 != name,
    decreases a.len(),
{
    if a.len() > 0 {
        lemma_attr_index_bounds(a.drop_last(), name);
        assert forall|j: int| 0 <= j < a.len() - 1 implies a[j] == a.drop_last()[j] by {}
    }
}

/// The first `name` attribute's value in `attrs`, if present and not bare.
pub fn find_attr<'a>(attrs: &'a Vec<(String, Option<String>)>, name: &str) -> (r: Option<&'a str>)
    ensures
        opt_str_view(r) == attr_value(attrs_view(attrs@), name@),
{
    match attr_position(attrs, name) {
        Some(i) => match &attrs[i].1 {
            Some(v) => Some(v.as_str()),
            None => None,
        },
        None => None,
    }
}

/// The index of the first attribute named `name`.
pub fn attr_position(attrs: &Vec<(String, Option<String>)>, name: &str) -> (r: Option<usize>)
    ensures
        (match r {
            Some(i) => Some(i as int),
            None => None,
        }) == attr_index(attrs_view(attrs@), name@),
        r matches Some(i) ==> i < attrs@.len(),
{
    let ghost av = attrs_view(attrs@);
    let mut i: usize = 0;
    while i < attrs.len()
        invariant
            av == attrs_view(attrs@),
            i <= attrs@.len(),
            attr_index(av.subrange(0, i as int), name@) is None,
        decreases attrs@.len() - i,
    {
        assert(av.subrange(0, i + 1).drop_last() =~= av.subrange(0, i as int));
        if str_eq(attrs[i].0.as_str(), name) {
            proof {
                lemma_attr_prefix(av, name@, i as int);
            }
            return Some(i);
        }
        i += 1;
    }
    assert(av.subrange(0, attrs@.len() as int) =~= av);
    None
}

/// The first match in `a` is the first match in a prefix that holds it.
proof fn lemma_attr_prefix(a: Seq<(Seq<char>, Option<Seq<char>>)>, name: Seq<char>, i: int)
    requires
        0 <= i < a.len(),
        a[i].0 == name,
        attr_index(a.subrange(0, i), name) is None,
    ensures
        attr_index(a, name) == Some(i),
    decreases a.len(),
{
    if i < a.len() - 1 {
        assert(a.drop_last().subrange(0, i) =~= a.subrange(0, i));
        lemma_attr_prefix(a.drop_last(), name, i);
    } else {
        assert(a.drop_last() =~= a.subrange(0, i));
    }
}

/// Whether a kind is drawn as a closed figure.
pub open spec fn kind_closed(k: ShapeKind) -> bool {
    k == ShapeKind::Rect || k == ShapeKind::Ellipse || k == ShapeKind::Circle || k
        == ShapeKind::Polygon
}

impl Shape {
    /// The attributes as plain values.
    pub open spec fn attrs_v(&self) -> Seq<(Seq<char>, Option<Seq<char>>)> {
        attrs_view(self.attrs@)
    }

    /// The value of attribute `name`, if present and not bare.
    pub open spec fn attr_of(&self, name: Seq<char>) -> Option<Seq<char>> {
        attr_value(self.attrs_v(), name)
    }

    /// Whether the shape is drawn as a stroke.
    pub open spec fn stroked(&self) -> bool {
        match self.kind {
            ShapeKind::Rect | ShapeKind::Ellipse | ShapeKind::Circle | ShapeKind::Line
            | ShapeKind::Polyline | ShapeKind::Polygon => true,
            ShapeKind::Path => self.attr_of("data-ink"@) is None,
            _ => false,
        }
    }

    /// Which heads the shape says it has.
    pub open spec fn heads_said(&self) -> Option<Heads> {
        match self.attr_of("data-arrow"@) {
            Some(v) => heads_of(v),
            None => match (self.attr_of("marker-start"@), self.attr_of("marker-end"@)) {
                (Some(_), Some(_)) => Some(Heads::Both),
                (Some(_), None) => Some(Heads::Start),
                (None, Some(_)) => Some(Heads::End),
                (None, None) => None,
            },
        }
    }

    /// Without `data-arrow`, the heads are the markers the file spells: a
    /// head at the start exactly when `marker-start` is there, one at the
    /// end exactly when `marker-end` is — both give both, and neither gives
    /// no arrow at all.
    pub proof fn lemma_heads_follow_markers(&self)
        requires
            self.attr_of("data-arrow"@) is None,
        ensures
            head_at_start(self.heads_said()) <==> self.attr_of("marker-start"@) is Some,
            head_at_end(self.heads_said()) <==> self.attr_of("marker-end"@) is Some,
            self.heads_said() is None <==> self.attr_of("marker-start"@) is None && self.attr_of(
                "marker-end"@,
            ) is None,
    {
    }

    /// `data-arrow` decides over the markers: a shape whose `data-arrow`
    /// spells heads `h` has those heads, whatever `marker-start` and
    /// `marker-end` say.
    pub proof fn lemma_arrow_word_decides(&self, h: Heads)
        requires
            self.attr_of("data-arrow"@) == Some(heads_value(h)),
        ensures
            self.heads_said() == Some(h),
    {
        lemma_words_read_back(h, Dash::Dashed, Weight::Thin, Hue::Red, ShapeKind::Rect);
    }

    /// Whether the editor draws this shape as a closed figure — a box, an
    /// ellipse, a polygon — and so whether a `data-fill` means anything on
    /// it.
    pub fn is_closed(&self) -> (r: bool)
        ensures
            r == kind_closed(self.kind),
    {
        match self.kind {
            ShapeKind::Rect | ShapeKind::Ellipse | ShapeKind::Circle | ShapeKind::Polygon => true,
            _ => false,
        }
    }

    /// Whether a `data-color` means anything on this shape: every kind
    /// drawn in `currentColor` — everything but a group, which is coloured
    /// through its members, and an image.
    pub fn takes_color(&self) -> (r: bool)
        ensures
            r == !(self.kind == ShapeKind::Group || self.kind == ShapeKind::Image),
    {
        match self.kind {
            ShapeKind::Group | ShapeKind::Image => false,
            _ => true,
        }
    }

    /// The value of an attribute, if present and not bare.
    pub fn attr(&self, name: &str) -> (r: Option<&str>)
        ensures
            opt_str_view(r) == self.attr_of(name@),
    {
        find_attr(&self.attrs, name)
    }

    /// How heavy the stroke is, from `data-weight`; `None` for the
    /// template's width, or a value the profile does not admit.
    pub fn weight(&self) -> (r: Option<Weight>)
        ensures
            r == (match self.attr_of("data-weight"@) {
                Some(v) => weight_of(v),
                None => None,
            }),
    {
        match self.attr("data-weight") {
            Some(v) => Weight::from_value(v),
            None => None,
        }
    }

    /// The hue of `data-color`; `None` for the drawing's ink, or a value
    /// the profile does not admit.
    pub fn hue(&self) -> (r: Option<Hue>)
        ensures
            r == (match self.attr_of("data-color"@) {
                Some(v) => hue_of(v),
                None => None,
            }),
    {
        match self.attr("data-color") {
            Some(v) => Hue::from_value(v),
            None => None,
        }
    }

    /// The hue of `data-fill`; `None` for no background, or a value the
    /// profile does not admit.
    pub fn fill(&self) -> (r: Option<Hue>)
        ensures
            r == (match self.attr_of("data-fill"@) {
                Some(v) => hue_of(v),
                None => None,
            }),
    {
        match self.attr("data-fill") {
            Some(v) => Hue::from_value(v),
            None => None,
        }
    }

    /// Whether the editor draws this shape as a stroke — a box, a line, a
    /// connector — and so whether a `data-dash` or a `data-weight` means
    /// anything on it. Ink is a filled outline, a label is glyphs, a group
    /// and an image are neither.
    pub fn is_stroked(&self) -> (r: bool)
        ensures
            r == self.stroked(),
    {
        match self.kind {
            ShapeKind::Rect | ShapeKind::Ellipse | ShapeKind::Circle | ShapeKind::Line
            | ShapeKind::Polyline | ShapeKind::Polygon => true,
            ShapeKind::Path => self.attr("data-ink").is_none(),
            _ => false,
        }
    }

    /// How the stroke is broken, from `data-dash`; `None` for solid, or a
    /// value the profile does not admit.
    pub fn dash(&self) -> (r: Option<Dash>)
        ensures
            r == (match self.attr_of("data-dash"@) {
                Some(v) => dash_of(v),
                None => None,
            }),
    {
        match self.attr("data-dash") {
            Some(v) => Dash::from_value(v),
            None => None,
        }
    }

    /// Whether this is an arrow, and which ends have a head: what
    /// `data-arrow` says, or, failing that, a `marker-end`/`marker-start`
    /// the file spells itself. `None` for a line with no head.
    pub fn heads(&self) -> (r: Option<Heads>)
        ensures
            r == self.heads_said(),
            self.attr_of("data-arrow"@) is None ==> (head_at_start(r) <==> self.attr_of(
                "marker-start"@,
            ) is Some) && (head_at_end(r) <==> self.attr_of("marker-end"@) is Some),
    {
        proof {
            if self.attr_of("data-arrow"@) is None {
                self.lemma_heads_follow_markers();
            }
        }
        if let Some(v) = self.attr("data-arrow") {
            return Heads::from_value(v);
        }
        match (self.attr("marker-start"), self.attr("marker-end")) {
            (Some(_), Some(_)) => Some(Heads::Both),
            (Some(_), None) => Some(Heads::Start),
            (None, Some(_)) => Some(Heads::End),
            (None, None) => None,
        }
    }
}

} // verus!
