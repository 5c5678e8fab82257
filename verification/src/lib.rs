//! thorn-svg-core: a drawing editor's model over an SVG that twig edits.
//!
//! A drawing editor over an SVG is a tree editor: the user drags a `<rect>`
//! and the edit is its `x` and `y`; brings it forward and the edit is its
//! place among its siblings; deletes a stroke and a `<path>` is gone. This
//! crate is that model. It knows what a rectangle is; twig knows how XML
//! spells one.
//!
//! - [`profile`]: what a Diaryx drawing SVG is — the root marker, `data-id`
//!   on every shape, the number format — and [`profile::check`], which
//!   holds a file to it.
//! - [`shape`]: which elements are shapes, and the words (`data-dash`,
//!   `data-arrow`, `data-color` …) read off them; [`tree`] reads them out of
//!   twig's flat node list in paint order.
//! - [`drawing`]: the editor — a `twig::Editor` over the bytes, the shapes
//!   read back after every edit, and the gestures, each one undo step;
//!   [`document`] is the tree around the shapes: the root, locators,
//!   siblings, attribute updates, fresh ids.
//! - [`style`]: the drawing's `<style>`, read just far enough to widen its
//!   line rules to paths and to bring the template's rules for a word.
//! - [`connector`], [`ink`], [`hit`]: connectors and their ends, the nibs,
//!   the resize handles; [`settle`]: which arrows a gesture disturbs.
//! - [`number`], [`markup`], [`text`]: the number format as a grammar,
//!   escaping and attribute writing, and the character-level vocabulary
//!   every contract is stated in.
//! - [`twig_spec`]: what the editor believes of twig.

pub mod connector;
pub mod document;
pub mod drawing;
pub mod flow;
pub mod hit;
pub mod ink;
pub mod markup;
pub mod number;
pub mod profile;
pub mod settle;
pub mod shape;
pub mod style;
pub mod text;
pub mod tree;
pub mod twig_spec;

pub use connector::End;
pub use drawing::{Drawing, DrawingError, Note, Order, Pen, Steps};
pub use hit::Handle;
pub use ink::Nib;
pub use profile::{Finding, Rule};
pub use shape::{Dash, Heads, Hue, Shape, ShapeKind, Weight};
