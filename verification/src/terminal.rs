//! The height of the terminal that the table is drawn on.

use vstd::prelude::*;

verus! {

/// The number of rows to assume where the height of the terminal is unknown.
pub const DEFAULT_VISIBLE_ROWS: usize = 24;

/// The number of rows that can be seen, given what the terminal says of its
/// width and height: the height where it is known, the default where it is
/// not.
pub open spec fn rows_of(dimensions: Option<(usize, usize)>) -> usize {
    match dimensions {
        Some((_, height)) => height,
        None => DEFAULT_VISIBLE_ROWS,
    }
}

/// What the terminal said of its size, and the number of rows that follows
/// from it.
#[derive(Clone, Copy, Debug, PartialEq, Eq)]
pub struct Viewport {
    /// The width and the height of the terminal in characters, if it is known.
    pub dimensions: Option<(usize, usize)>,
    /// The number of rows to lay the table out for.
    pub visible_rows: usize,
}

/// `term_size::dimensions`: the width and height of the terminal in
/// characters, or nothing where no stream of the process is a terminal. The
/// answer depends on the terminal at the moment of the call, so nothing is
/// claimed of it.
#[verifier::external_body]
fn terminal_dimensions() -> (dimensions: Option<(usize, usize)>) {
    term_size::dimensions()
}

/// The number of rows to lay the table out for: the height of the terminal
/// where it is known, the default where it is not.
pub fn visible_rows(dimensions: Option<(usize, usize)>) -> (rows: usize)
    ensures
        rows == rows_of(dimensions),
{
    match dimensions {
        Some((_, height)) => height,
        None => DEFAULT_VISIBLE_ROWS,
    }
}

/// Asks the terminal of this process for its size and works out the number of
/// rows to lay the table out for.
pub fn viewport() -> (view: Viewport)
    ensures
        view.visible_rows == rows_of(view.dimensions),
{
    let dimensions = terminal_dimensions();
    Viewport { dimensions, visible_rows: visible_rows(dimensions) }
}

} // verus!
