//! A board written out as text, one letter for each field.

use vstd::prelude::*;
use crate::board::{Board, BoardView};
use crate::field::Field;

verus! {

/// One column of a grid as a line of text: the letter of each field, then a line feed.
pub open spec fn line_of(fields: Seq<Field>) -> Seq<char> {
    Seq::new(fields.len(), |i: int| fields[i].field_type.letter()).push('\n')
}

/// The first `n` columns of a grid as text, a line for each.
pub open spec fn lines_of(grid: Seq<Seq<Field>>, n: nat) -> Seq<char>
    decreases n,
{
    if n == 0 {
        Seq::empty()
    } else {
        lines_of(grid, (n - 1) as nat) + line_of(grid[n - 1])
    }
}

impl BoardView {
    /// The first `n` segments as text, grid after grid.
    pub open spec fn text_before(self, n: nat) -> Seq<char>
        decreases n,
    {
        if n == 0 {
            Seq::empty()
        } else {
            self.text_before((n - 1) as nat) + lines_of(
                self.segments[n - 1].fields,
                self.segments[n - 1].fields.len(),
            )
        }
    }

    /// The whole board as text.
    pub open spec fn text(self) -> Seq<char> {
        self.text_before(self.segments.len())
    }
}

/// Appends `c` to `text` with `String::push`, which adds the character at the end of the
/// string and leaves the rest as it was.
#[verifier::external_body]
fn push_char(text: &mut String, c: char)
    ensures
        final(text)@ == old(text)@.push(c),
{
    text.push(c)
}

impl Board {
    /// Returns the board as text: for each segment in course order, a line for each column
    /// of its grid, made of the letters of the column's fields.
    pub fn pretty_text(&self) -> (text: String)
        ensures
            text@ == self@.text(),
    {
        let mut text = String::new();
        let mut i: usize = 0;
        while i < self.segments.len()
            invariant
                i <= self.segments.len(),
                text@ == self@.text_before(i as nat),
            decreases self.segments.len() - i,
        {
            let grid = &self.segments[i].fields;
            let ghost before = text@;
            let mut x: usize = 0;
            while x < grid.len()
                invariant
                    i < self.segments.len(),
                    grid == &self.segments[i as int].fields,
                    x <= grid.len(),
                    text@ == before + lines_of(self@.segments[i as int].fields, x as nat),
                decreases grid.len() - x,
            {
                let column = &grid[x];
                let ghost start = text@;
                let mut y: usize = 0;
                while y < column.len()
                    invariant
                        y <= column.len(),
                        text@ == start + Seq::new(
                            y as nat,
                            |k: int| column@[k].field_type.letter(),
                        ),
                    decreases column.len() - y,
                {
                    push_char(&mut text, column[y].field_type.code());
                    y += 1;
                }
                push_char(&mut text, '\n');
                assert(text@ == start + line_of(column@));
                x += 1;
            }
            i += 1;
        }
        text
    }
}

} // verus!
