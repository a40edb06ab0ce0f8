//! The text that paints a frame on a terminal: cursor addressing and coloured glyphs.
//!
//! Nothing here writes anywhere. Each function returns the characters to be
//! sent, so that a cell `(x, y)` of the grid maps to the two terminal columns
//! `2x + 1` and `2x + 2` of line `y + 1`.
use vstd::prelude::*;
use vstd::string::StringExecFns;
use crate::screen::{grid, DisplayPoint};

verus! {

/// The decimal digit for a number below ten.
pub open spec fn digit(n: nat) -> char {
    if n == 0 {
        '0'
    } else if n == 1 {
        '1'
    } else if n == 2 {
        '2'
    } else if n == 3 {
        '3'
    } else if n == 4 {
        '4'
    } else if n == 5 {
        '5'
    } else if n == 6 {
        '6'
    } else if n == 7 {
        '7'
    } else if n == 8 {
        '8'
    } else {
        '9'
    }
}

/// The decimal numeral of `n`, without leading zeros.
pub open spec fn decimal(n: nat) -> Seq<char>
    decreases n,
{
    if n < 10 {
        seq![digit(n)]
    } else {
        decimal(n / 10).push(digit(n % 10))
    }
}

/// What is drawn for a symbol: a block in the colour of its face, two spaces for a blank
/// cell, and a reset followed by a placeholder for any other symbol.
pub open spec fn glyph(d: char) -> Seq<char> {
    if d == '#' {
        "\x1b[31m\u{2588}\u{2588}"@
    } else if d == '@' {
        "\x1b[32m\u{2588}\u{2588}"@
    } else if d == ';' {
        "\x1b[33m\u{2588}\u{2588}"@
    } else if d == '"' {
        "\x1b[34m\u{2588}\u{2588}"@
    } else if d == '.' {
        "\x1b[35m\u{2588}\u{2588}"@
    } else if d == '$' {
        "\x1b[36m\u{2588}\u{2588}"@
    } else if d == ' ' {
        "  "@
    } else {
        "\x1b[0m!?"@
    }
}

/// The sequence that moves the cursor to a line and a column, both counted from one.
pub open spec fn cursor_to(line: nat, column: nat) -> Seq<char> {
    "\x1b["@ + decimal(line) + ";"@ + decimal(column) + "H"@
}

/// The text that paints the cell `(x, y)` with the symbol `d`: move the cursor to the cell,
/// draw the glyph, and park the cursor in the top left corner.
pub open spec fn put_at_text(x: nat, y: nat, d: char) -> Seq<char> {
    cursor_to(y + 1, 2 * x + 1) + glyph(d) + "\x1b[1;1H"@
}

/// The text that paints the first `n` cells of row `y`.
pub open spec fn row_text(row: Seq<DisplayPoint>, y: nat, n: nat) -> Seq<char>
    decreases n,
{
    if n == 0 {
        Seq::empty()
    } else {
        row_text(row, y, (n - 1) as nat) + put_at_text((n - 1) as nat, y, row[n - 1].d)
    }
}

/// The text that paints the first `n` rows of a grid, row after row.
pub open spec fn display_text(g: Seq<Seq<DisplayPoint>>, n: nat) -> Seq<char>
    decreases n,
{
    if n == 0 {
        Seq::empty()
    } else {
        display_text(g, (n - 1) as nat) + row_text(g[n - 1], (n - 1) as nat, g[n - 1].len())
    }
}

/// The text that clears the terminal and parks the cursor in the top left corner.
pub open spec fn clear_text() -> Seq<char> {
    "\x1b[2J\x1b[1;1H"@
}

/// The one-character string of a decimal digit.
fn digit_str(n: u128) -> (s: &'static str)
    requires
        n < 10,
    ensures
        s@ == seq![digit(n as nat)],
{
    proof {
        reveal_strlit("0");
        reveal_strlit("1");
        reveal_strlit("2");
        reveal_strlit("3");
        reveal_strlit("4");
        reveal_strlit("5");
        reveal_strlit("6");
        reveal_strlit("7");
        reveal_strlit("8");
        reveal_strlit("9");
    }
    let s = if n == 0 {
        "0"
    } else if n == 1 {
        "1"
    } else if n == 2 {
        "2"
    } else if n == 3 {
        "3"
    } else if n == 4 {
        "4"
    } else if n == 5 {
        "5"
    } else if n == 6 {
        "6"
    } else if n == 7 {
        "7"
    } else if n == 8 {
        "8"
    } else {
        "9"
    };
    proof {
        assert(s@ =~= seq![digit(n as nat)]);
    }
    s
}

/// Writes a number in decimal.
pub fn decimal_text(n: u128) -> (s: String)
    ensures
        s@ == decimal(n as nat),
    decreases n,
{
    if n < 10 {
        String::from_str(digit_str(n))
    } else {
        let mut s = decimal_text(n / 10);
        s.append(digit_str(n % 10));
        proof {
            assert(s@ =~= decimal((n / 10) as nat).push(digit((n % 10) as nat)));
        }
        s
    }
}

/// The glyph of a symbol as a string.
fn glyph_str(d: char) -> (s: &'static str)
    ensures
        s@ == glyph(d),
{
    if d == '#' {
        "\x1b[31m\u{2588}\u{2588}"
    } else if d == '@' {
        "\x1b[32m\u{2588}\u{2588}"
    } else if d == ';' {
        "\x1b[33m\u{2588}\u{2588}"
    } else if d == '"' {
        "\x1b[34m\u{2588}\u{2588}"
    } else if d == '.' {
        "\x1b[35m\u{2588}\u{2588}"
    } else if d == '$' {
        "\x1b[36m\u{2588}\u{2588}"
    } else if d == ' ' {
        "  "
    } else {
        "\x1b[0m!?"
    }
}

/// The text that paints the cell `(x, y)` with the symbol `d`.
pub fn put_at(x: usize, y: usize, d: char) -> (s: String)
    ensures
        s@ == put_at_text(x as nat, y as nat, d),
{
    let line = decimal_text((y as u128) + 1);
    let column = decimal_text(2 * (x as u128) + 1);
    let mut s = String::from_str("\x1b[");
    s.append(line.as_str());
    s.append(";");
    s.append(column.as_str());
    s.append("H");
    s.append(glyph_str(d));
    s.append("\x1b[1;1H");
    s
}

/// The text that paints a whole frame: every cell of every row, rows first.
pub fn display(dpv: &Vec<Vec<DisplayPoint>>) -> (s: String)
    ensures
        s@ == display_text(grid(*dpv), dpv@.len()),
{
    let mut s = String::new();
    let mut y: usize = 0;
    while y < dpv.len()
        invariant
            0 <= y <= dpv@.len(),
            s@ == display_text(grid(*dpv), y as nat),
        decreases dpv@.len() - y,
    {
        let row = &dpv[y];
        let ghost above = s@;
        let mut x: usize = 0;
        while x < row.len()
            invariant
                0 <= x <= row@.len(),
                s@ == above + row_text(row@, y as nat, x as nat),
            decreases row@.len() - x,
        {
            let cell = put_at(x, y, row[x].d);
            s.append(cell.as_str());
            proof {
                assert(above + row_text(row@, y as nat, x as nat) + put_at_text(
                    x as nat,
                    y as nat,
                    row@[x as int].d,
                ) =~= above + row_text(row@, y as nat, (x + 1) as nat));
            }
            x += 1;
        }
        proof {
            assert(grid(*dpv)[y as int] == row@);
        }
        y += 1;
    }
    s
}

/// The text that clears the terminal before the next frame.
pub fn clear() -> (s: String)
    ensures
        s@ == clear_text(),
{
    String::from_str("\x1b[2J\x1b[1;1H")
}

} // verus!
