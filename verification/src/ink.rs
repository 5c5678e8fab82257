//! Freehand ink's vocabulary: the nibs a stroke's outline is drawn with,
//! by the value `data-ink` takes. The outline itself is arithmetic on a
//! centreline and widths, and is the host's to compute.
//!
//! The one nib so far is **monoline** — a round nib at one width, what a
//! mouse can draw. The profile admits only the nibs the editor draws, so
//! the vocabulary grows with the rules and not ahead of them.

use vstd::prelude::*;

use crate::text::{str_eq, trim, trimmed};

verus! {

/// A nib: the rule that turns a centreline and its widths into an
/// outline. The value `data-ink` takes.
#[derive(Clone, Copy, Debug, PartialEq, Eq, Hash, Structural)]
#[non_exhaustive]
pub enum Nib {
    /// A round nib at one width, whatever the pressure.
    Monoline,
}

/// The value `data-ink` spells a nib as.
pub open spec fn nib_value(n: Nib) -> Seq<char> {
    match n {
        Nib::Monoline => "monoline"@,
    }
}

/// The nib a `data-ink` value names, surrounding whitespace aside.
pub open spec fn nib_of(v: Seq<char>) -> Option<Nib> {
    if trim(v) == "monoline"@ {
        Some(Nib::Monoline)
    } else {
        None
    }
}

impl Nib {
    /// The value `data-ink` spells this as.
    pub fn value(self) -> (r: &'static str)
        ensures
            r@ == nib_value(self),
    {
        match self {
            Nib::Monoline => "monoline",
        }
    }

    /// The nib a `data-ink` value names, or `None` for one this crate
    /// cannot draw.
    pub fn from_value(value: &str) -> (r: Option<Nib>)
        ensures
            r == nib_of(value@),
    {
        let t = trimmed(value);
        if str_eq(t.as_str(), "monoline") {
            Some(Nib::Monoline)
        } else {
            None
        }
    }
}

/// A nib's value reads back as the nib.
pub proof fn lemma_nib_reads_back(n: Nib)
    ensures
        nib_of(nib_value(n)) == Some(n),
{
    reveal_strlit("monoline");
    crate::shape::lemma_trim_word(nib_value(n));
}

} // verus!
