//! The board as text: a line of column numbers, then one line per row, as
//! ASCII bytes.

use vstd::prelude::*;
use crate::board::{Board, BoardView};
use crate::cell::Cell;
use crate::geometry::Position;

verus! {

pub const SPACE: u8 = 32;

pub const NEWLINE: u8 = 10;

pub const DIGIT_ZERO: u8 = 48;

/// The mark of a flagged cell, `F`.
pub const FLAG_MARK: u8 = 70;

/// The mark of a hidden cell, `.`.
pub const HIDDEN_MARK: u8 = 46;

/// The decimal digits of `n`, most significant first.
pub open spec fn decimal(n: nat) -> Seq<u8>
    decreases n,
{
    if n < 10 {
        seq![(DIGIT_ZERO + n) as u8]
    } else {
        decimal(n / 10).push((DIGIT_ZERO + n % 10) as u8)
    }
}

/// The digits of `n`, with a zero in front of a single digit.
pub open spec fn padded(n: nat) -> Seq<u8> {
    if n < 10 {
        seq![DIGIT_ZERO] + decimal(n)
    } else {
        decimal(n)
    }
}

/// The number of a column or row as it is drawn: padded, then a space.
pub open spec fn label(n: nat) -> Seq<u8> {
    padded(n).push(SPACE)
}

impl Cell {
    /// The cell as it is drawn: a mark and two spaces. A flag shows as `F`,
    /// a hidden cell as `.`, an open cell as its count, or as a space where
    /// the count is zero.
    pub open spec fn text(self) -> Seq<u8> {
        if self.is_flagged {
            seq![FLAG_MARK, SPACE, SPACE]
        } else if !self.is_revealed {
            seq![HIDDEN_MARK, SPACE, SPACE]
        } else if self.adjacent_mines == 0 {
            seq![SPACE, SPACE, SPACE]
        } else {
            decimal(self.adjacent_mines as nat) + seq![SPACE, SPACE]
        }
    }
}

impl BoardView {
    /// The labels of the first `upto` columns, which count from one.
    pub open spec fn column_labels(self, upto: nat) -> Seq<u8>
        decreases upto,
    {
        if upto == 0 {
            Seq::empty()
        } else {
            self.column_labels((upto - 1) as nat) + label(upto)
        }
    }

    /// The first `upto` cells of row `y` as they are drawn.
    pub open spec fn row_cells(self, y: nat, upto: nat) -> Seq<u8>
        decreases upto,
    {
        if upto == 0 {
            Seq::empty()
        } else {
            self.row_cells(y, (upto - 1) as nat) + self.cells[Position {
                x: (upto - 1) as usize,
                y: y as usize,
            }].text()
        }
    }

    /// The line above the grid: three spaces, then the column labels.
    pub open spec fn header_line(self) -> Seq<u8> {
        (seq![SPACE, SPACE, SPACE] + self.column_labels(self.width as nat)).push(NEWLINE)
    }

    /// The line of row `y`: its label, then its cells.
    pub open spec fn row_line(self, y: nat) -> Seq<u8> {
        (label(y + 1) + self.row_cells(y, self.width as nat)).push(NEWLINE)
    }

    /// The lines of the first `upto` rows.
    pub open spec fn row_lines(self, upto: nat) -> Seq<u8>
        decreases upto,
    {
        if upto == 0 {
            Seq::empty()
        } else {
            self.row_lines((upto - 1) as nat) + self.row_line((upto - 1) as nat)
        }
    }

    /// The whole board as it is drawn.
    pub open spec fn drawing(self) -> Seq<u8> {
        self.header_line() + self.row_lines(self.height as nat)
    }
}

/// Appends the bytes of `more` to `out`.
fn push_all(out: &mut Vec<u8>, more: &Vec<u8>)
    ensures
        final(out)@ == old(out)@ + more@,
{
    let mut i: usize = 0;
    while i < more.len()
        invariant
            i <= more.len(),
            out@ == old(out)@ + more@.take(i as int),
        decreases more.len() - i,
    {
        out.push(more[i]);
        proof {
            assert(more@.take(i + 1) =~= more@.take(i as int).push(more@[i as int]));
            assert(out@ =~= old(out)@ + more@.take(i + 1));
        }
        i += 1;
    }
    proof {
        assert(more@.take(more@.len() as int) =~= more@);
    }
}

/// The decimal digits of `n`.
pub fn decimal_digits(n: usize) -> (digits: Vec<u8>)
    ensures
        digits@ == decimal(n as nat),
    decreases n,
{
    if n < 10 {
        let mut digits: Vec<u8> = Vec::new();
        digits.push(DIGIT_ZERO + n as u8);
        assert(digits@ =~= decimal(n as nat));
        digits
    } else {
        let mut digits = decimal_digits(n / 10);
        digits.push(DIGIT_ZERO + (n % 10) as u8);
        digits
    }
}

/// The label of column or row number `n`.
pub fn label_bytes(n: usize) -> (text: Vec<u8>)
    ensures
        text@ == label(n as nat),
{
    let mut text: Vec<u8> = Vec::new();
    if n < 10 {
        text.push(DIGIT_ZERO);
    }
    let digits = decimal_digits(n);
    push_all(&mut text, &digits);
    text.push(SPACE);
    proof {
        assert(text@ =~= label(n as nat));
    }
    text
}

impl Cell {
    /// The three or more bytes that show this cell.
    pub fn draw(&self) -> (text: Vec<u8>)
        ensures
            text@ == self.text(),
    {
        let mut text: Vec<u8> = Vec::new();
        if self.is_flagged {
            text.push(FLAG_MARK);
        } else if !self.is_revealed {
            text.push(HIDDEN_MARK);
        } else if self.adjacent_mines == 0 {
            text.push(SPACE);
        } else {
            let digits = decimal_digits(self.adjacent_mines as usize);
            push_all(&mut text, &digits);
        }
        text.push(SPACE);
        text.push(SPACE);
        proof {
            assert(text@ =~= self.text());
        }
        text
    }
}

impl Board {
    /// The board as text: the header line and one line per row, each ended
    /// by a newline.
    pub fn draw(&self) -> (text: Vec<u8>)
        requires
            self.shaped(),
        ensures
            text@ == self@.drawing(),
    {
        let mut text: Vec<u8> = Vec::new();
        text.push(SPACE);
        text.push(SPACE);
        text.push(SPACE);
        proof {
            self.lemma_view();
        }
        let mut x: usize = 0;
        while x < self.width
            invariant
                self.shaped(),
                x <= self.width,
                text@ == seq![SPACE, SPACE, SPACE] + self@.column_labels(x as nat),
            decreases self.width - x,
        {
            let part = label_bytes(x + 1);
            push_all(&mut text, &part);
            x += 1;
            proof {
                assert(text@ =~= seq![SPACE, SPACE, SPACE] + self@.column_labels(x as nat));
            }
        }
        text.push(NEWLINE);
        let mut y: usize = 0;
        while y < self.height
            invariant
                self.shaped(),
                y <= self.height,
                text@ == self@.header_line() + self@.row_lines(y as nat),
            decreases self.height - y,
        {
            let ghost above = text@;
            let part = label_bytes(y + 1);
            push_all(&mut text, &part);
            let mut x: usize = 0;
            while x < self.width
                invariant
                    self.shaped(),
                    y < self.height,
                    x <= self.width,
                    text@ == above + (label((y + 1) as nat) + self@.row_cells(y as nat, x as nat)),
                decreases self.width - x,
            {
                let p = Position { x, y };
                proof {
                    self.lemma_view();
                }
                let at = self.offset(p);
                let part = self.cells[at].draw();
                push_all(&mut text, &part);
                x += 1;
                proof {
                    assert(text@ =~= above + (label((y + 1) as nat) + self@.row_cells(
                        y as nat,
                        x as nat,
                    )));
                }
            }
            text.push(NEWLINE);
            y += 1;
            proof {
                self.lemma_view();
                assert(text@ =~= self@.header_line() + self@.row_lines(y as nat));
            }
        }
        proof {
            self.lemma_view();
        }
        text
    }
}

} // verus!
