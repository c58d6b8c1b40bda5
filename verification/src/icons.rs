//! The glyphs the table and list views mark rows with.

use vstd::prelude::*;

verus! {

/// The marks a listing can show beside a row.
#[derive(Debug, Clone, Copy)]
pub enum Icons {
    Star,
    Tick,
    CircleEmpty,
    Deleted,
    Note,
}

impl Icons {
    /// The glyph a mark renders as.
    pub fn glyph(&self) -> (r: &'static str)
        ensures
            r@ == (match *self {
                Icons::Star => "\u{f005}"@,
                Icons::Tick => "\u{eab2}"@,
                Icons::CircleEmpty => "\u{f4c3}"@,
                Icons::Deleted => "\u{f00d}"@,
                Icons::Note => "\u{f249}"@,
            }),
    {
        match self {
            Icons::Star => "\u{f005}",
            Icons::Tick => "\u{eab2}",
            Icons::CircleEmpty => "\u{f4c3}",
            Icons::Deleted => "\u{f00d}",
            Icons::Note => "\u{f249}",
        }
    }
}

} // verus!
