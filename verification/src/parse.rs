//! Parsing a grid from its textual description.
//!
//! The first line gives `width height` as space-separated decimal numbers.
//! Each of the next `height` lines describes one row: `@` marks a live cell,
//! a space a dead one. Short lines, missing lines, and characters beyond the
//! declared width are treated as dead or ignored; any other character inside
//! the declared width is an error. Lines end at a line feed; one carriage
//! return directly before the line feed belongs to the line break.

use vstd::prelude::*;

use crate::screen::Screen;

verus! {

pub const LINE_FEED: u8 = 10;

pub const CARRIAGE_RETURN: u8 = 13;

pub const SPACE: u8 = 32;

pub const ALIVE_GLYPH: u8 = 64;

/// Why a description was rejected.
#[derive(Debug, Clone, Copy, PartialEq, Eq, Structural)]
pub enum ParseError {
    /// The description is empty: there is no dimension line to read.
    MissingHeader,
    /// The dimension line has no second number.
    MissingHeight,
    /// A dimension token is empty or holds a character that is no digit.
    InvalidNumber,
    /// A dimension does not fit the machine's word.
    NumberTooLarge,
    /// A row holds this character inside the declared width, and it is
    /// neither the live glyph nor a space.
    InvalidSymbol(u8),
}

/// Index of the first occurrence of `stop` at or after `from`, or the length
/// of `s` when there is none.
pub open spec fn scan_to(s: Seq<u8>, from: nat, stop: u8) -> nat
    decreases s.len() - from,
{
    if from >= s.len() {
        s.len()
    } else if s[from as int] == stop {
        from
    } else {
        scan_to(s, from + 1, stop)
    }
}

proof fn lemma_scan_to_bounds(s: Seq<u8>, from: nat, stop: u8)
    requires
        from <= s.len(),
    ensures
        from <= scan_to(s, from, stop) <= s.len(),
        scan_to(s, from, stop) < s.len() ==> s[scan_to(s, from, stop) as int] == stop,
        forall|k: int| from <= k < scan_to(s, from, stop) ==> s[k] != stop,
    decreases s.len() - from,
{
    if from < s.len() && s[from as int] != stop {
        lemma_scan_to_bounds(s, from + 1, stop);
    }
}

/// Start of line `k` (line 0 starts the text); the text's length when the
/// text has fewer lines.
pub open spec fn line_start(s: Seq<u8>, k: nat) -> nat
    decreases k,
{
    if k == 0 {
        0
    } else {
        let e = scan_to(s, line_start(s, (k - 1) as nat), LINE_FEED);
        if e >= s.len() {
            s.len()
        } else {
            e + 1
        }
    }
}

proof fn lemma_line_start_le(s: Seq<u8>, k: nat)
    ensures
        line_start(s, k) <= s.len(),
    decreases k,
{
    if k > 0 {
        lemma_line_start_le(s, (k - 1) as nat);
        lemma_scan_to_bounds(s, line_start(s, (k - 1) as nat), LINE_FEED);
    }
}

/// A line's content without a trailing carriage return.
pub open spec fn strip_cr(l: Seq<u8>) -> Seq<u8> {
    if l.len() > 0 && l.last() == CARRIAGE_RETURN {
        l.drop_last()
    } else {
        l
    }
}

/// Content of line `k`: empty when the text has no such line.
pub open spec fn line_at(s: Seq<u8>, k: nat) -> Seq<u8> {
    let start = line_start(s, k);
    let end = scan_to(s, start, LINE_FEED);
    strip_cr(s.subrange(start as int, end as int))
}

pub open spec fn is_digit(b: u8) -> bool {
    48 <= b <= 57
}

/// A token that a dimension accepts: one or more decimal digits.
pub open spec fn valid_number(s: Seq<u8>) -> bool {
    s.len() > 0 && forall|i: int| 0 <= i < s.len() ==> is_digit(#[trigger] s[i])
}

/// The number the digits denote, most significant first.
pub open spec fn digits_value(s: Seq<u8>) -> nat
    decreases s.len(),
{
    if s.len() == 0 {
        0
    } else {
        digits_value(s.drop_last()) * 10 + (s.last() - 48) as nat
    }
}

/// The dimension line.
pub open spec fn header_line(s: Seq<u8>) -> Seq<u8> {
    line_at(s, 0)
}

/// The width token: the dimension line up to its first space.
pub open spec fn width_token(s: Seq<u8>) -> Seq<u8> {
    let h = header_line(s);
    h.subrange(0, scan_to(h, 0, SPACE) as int)
}

/// Whether anything follows the first space of the dimension line.
pub open spec fn has_height_token(s: Seq<u8>) -> bool {
    scan_to(header_line(s), 0, SPACE) < header_line(s).len()
}

/// The height token: from after the first space to the next space or the
/// line's end.
pub open spec fn height_token(s: Seq<u8>) -> Seq<u8> {
    let h = header_line(s);
    let hs = scan_to(h, 0, SPACE) + 1;
    h.subrange(hs as int, scan_to(h, hs, SPACE) as int)
}

/// A usable width token: digits denoting a number the machine can hold.
pub open spec fn width_ok(s: Seq<u8>) -> bool {
    valid_number(width_token(s)) && digits_value(width_token(s)) <= usize::MAX
}

/// A usable dimension line.
pub open spec fn header_ok(s: Seq<u8>) -> bool {
    &&& s.len() > 0
    &&& width_ok(s)
    &&& has_height_token(s)
    &&& valid_number(height_token(s))
    &&& digits_value(height_token(s)) <= usize::MAX
}

pub open spec fn spec_width(s: Seq<u8>) -> nat {
    digits_value(width_token(s))
}

pub open spec fn spec_height(s: Seq<u8>) -> nat {
    digits_value(height_token(s))
}

/// The row of cells for grid row `y` is line `1 + y`.
pub open spec fn row_line(s: Seq<u8>, y: int) -> Seq<u8> {
    line_at(s, (1 + y) as nat)
}

pub open spec fn valid_symbol(b: u8) -> bool {
    b == ALIVE_GLYPH || b == SPACE
}

/// Whether the description marks the cell at `(x, y)` alive: its row's line
/// exists, reaches past column `x`, and holds the live glyph there.
pub open spec fn cell_alive(s: Seq<u8>, x: int, y: int) -> bool {
    let l = row_line(s, y);
    0 <= x < l.len() && l[x] == ALIVE_GLYPH
}

/// An unusable character: inside the declared dimensions, provided by its
/// line, and neither the live glyph nor a space.
pub open spec fn cell_bad(s: Seq<u8>, x: int, y: int) -> bool {
    &&& 0 <= y < spec_height(s)
    &&& 0 <= x < spec_width(s)
    &&& x < row_line(s, y).len()
    &&& !valid_symbol(row_line(s, y)[x])
}

pub open spec fn rows_ok(s: Seq<u8>) -> bool {
    forall|x: int, y: int| !cell_bad(s, x, y)
}

/// The first unusable character, reading each row left to right, rows top to
/// bottom.
pub open spec fn first_bad_cell(s: Seq<u8>, x: int, y: int) -> bool {
    &&& cell_bad(s, x, y)
    &&& forall|x2: int, y2: int| y2 < y || (y2 == y && x2 < x) ==> !cell_bad(s, x2, y2)
}

/// A description the parser accepts.
pub open spec fn description_ok(s: Seq<u8>) -> bool {
    header_ok(s) && rows_ok(s)
}

/// Appending digits to a token never shrinks its value.
proof fn lemma_digits_value_prefix_le(s: Seq<u8>, i: int, j: int)
    requires
        0 <= i <= j <= s.len(),
    ensures
        digits_value(s.subrange(0, i)) <= digits_value(s.subrange(0, j)),
    decreases j - i,
{
    if i < j {
        lemma_digits_value_prefix_le(s, i, j - 1);
        let p = s.subrange(0, j - 1);
        let q = s.subrange(0, j);
        assert(q.drop_last() =~= p);
        assert(digits_value(q) == digits_value(p) * 10 + (q.last() - 48) as nat);
        assert(digits_value(p) * 10 >= digits_value(p) * 1);
    }
}

/// Index of the first `stop` byte at or after `from`, or the length.
fn scan(text: &[u8], from: usize, stop: u8) -> (r: usize)
    requires
        from <= text@.len(),
    ensures
        r as nat == scan_to(text@, from as nat, stop),
        from <= r <= text@.len(),
        r < text@.len() ==> text@[r as int] == stop,
        forall|k: int| from <= k < r ==> text@[k] != stop,
{
    let mut i: usize = from;
    while i < text.len() && text[i] != stop
        invariant
            from <= i <= text@.len(),
            scan_to(text@, from as nat, stop) == scan_to(text@, i as nat, stop),
            forall|k: int| from <= k < i ==> text@[k] != stop,
        decreases text@.len() - i,
    {
        i = i + 1;
    }
    proof {
        lemma_scan_to_bounds(text@, from as nat, stop);
    }
    i
}

/// The number a token of digits denotes, or the error that disqualifies it.
pub fn parse_usize(tok: &[u8]) -> (r: Result<usize, ParseError>)
    ensures
        match r {
            Ok(v) => valid_number(tok@) && v as nat == digits_value(tok@),
            Err(e) => match e {
                ParseError::InvalidNumber => !valid_number(tok@),
                ParseError::NumberTooLarge => valid_number(tok@) && digits_value(tok@)
                    > usize::MAX,
                _ => false,
            },
        },
{
    if tok.len() == 0 {
        return Err(ParseError::InvalidNumber);
    }
    let ghost s = tok@;
    let mut value: usize = 0;
    let mut i: usize = 0;
    while i < tok.len()
        invariant
            0 < tok@.len(),
            i <= tok@.len(),
            forall|k: int| 0 <= k < i ==> is_digit(#[trigger] tok@[k]),
            value as nat == digits_value(tok@.subrange(0, i as int)),
        decreases tok@.len() - i,
    {
        let b = tok[i];
        if b < 48 || b > 57 {
            return Err(ParseError::InvalidNumber);
        }
        let d = (b - 48) as usize;
        let wide: u128 = value as u128 * 10 + d as u128;
        proof {
            assert(tok@.subrange(0, i + 1).drop_last() =~= tok@.subrange(0, i as int));
        }
        if wide > usize::MAX as u128 {
            // The value no longer fits; the rest must still be digits for
            // the token to be an oversized number rather than no number.
            let mut j: usize = i + 1;
            while j < tok.len()
                invariant
                    i < j <= tok@.len(),
                    forall|k: int| 0 <= k < j ==> is_digit(#[trigger] tok@[k]),
                decreases tok@.len() - j,
            {
                let c = tok[j];
                if c < 48 || c > 57 {
                    return Err(ParseError::InvalidNumber);
                }
                j = j + 1;
            }
            proof {
                lemma_digits_value_prefix_le(tok@, i + 1, tok@.len() as int);
                assert(tok@.subrange(0, tok@.len() as int) =~= tok@);
            }
            return Err(ParseError::NumberTooLarge);
        }
        value = wide as usize;
        i = i + 1;
    }
    proof {
        assert(tok@.subrange(0, tok@.len() as int) =~= tok@);
    }
    Ok(value)
}

/// Builds the grid a textual description denotes, or says exactly why the
/// description is unusable.
pub fn parse_screen(text: &[u8]) -> (r: Result<Screen, ParseError>)
    ensures
        match r {
            Ok(grid) => {
                &&& description_ok(text@)
                &&& grid@.wf()
                &&& grid@.width == spec_width(text@)
                &&& grid@.height == spec_height(text@)
                &&& forall|x: int, y: int|
                    grid@.in_bounds(x, y) ==> grid@.cell(x, y) == cell_alive(text@, x, y)
            },
            Err(e) => match e {
                ParseError::MissingHeader => text@.len() == 0,
                ParseError::InvalidNumber => text@.len() > 0 && (!valid_number(width_token(text@))
                    || (width_ok(text@) && has_height_token(text@) && !valid_number(
                    height_token(text@),
                ))),
                ParseError::NumberTooLarge => text@.len() > 0 && ((valid_number(width_token(text@))
                    && digits_value(width_token(text@)) > usize::MAX) || (width_ok(text@)
                    && has_height_token(text@) && valid_number(height_token(text@))
                    && digits_value(height_token(text@)) > usize::MAX)),
                ParseError::MissingHeight => text@.len() > 0 && width_ok(text@)
                    && !has_height_token(text@),
                ParseError::InvalidSymbol(b) => header_ok(text@) && exists|x: int, y: int|
                    first_bad_cell(text@, x, y) && row_line(text@, y)[x] == b,
            },
        },
{
    let ghost s = text@;
    if text.len() == 0 {
        return Err(ParseError::MissingHeader);
    }
    // The dimension line and its two tokens.
    let header_end = scan(text, 0, LINE_FEED);
    let header_content_end = if header_end > 0 && text[header_end - 1] == CARRIAGE_RETURN {
        header_end - 1
    } else {
        header_end
    };
    let header = &text[0..header_content_end];
    proof {
        assert(header@ =~= header_line(s));
    }
    let width_end = scan(header, 0, SPACE);
    let width_tok = &header[0..width_end];
    proof {
        assert(width_tok@ =~= width_token(s));
    }
    let width = match parse_usize(width_tok) {
        Ok(v) => v,
        Err(e) => {
            return Err(e);
        },
    };
    if width_end == header.len() {
        return Err(ParseError::MissingHeight);
    }
    let height_start = width_end + 1;
    let height_end = scan(header, height_start, SPACE);
    let height_tok = &header[height_start..height_end];
    proof {
        assert(height_tok@ =~= height_token(s));
    }
    let height = match parse_usize(height_tok) {
        Ok(v) => v,
        Err(e) => {
            return Err(e);
        },
    };
    // The rows. Row y is line 1 + y; missing or short lines stay dead.
    let mut grid = Screen::new(width, height);
    let mut pos: usize = if header_end == text.len() {
        text.len()
    } else {
        header_end + 1
    };
    proof {
        assert(pos as nat == line_start(s, 1));
    }
    let mut y: usize = 0;
    while y < height
        invariant
            text@ == s,
            header_ok(s),
            width as nat == spec_width(s),
            height as nat == spec_height(s),
            y <= height,
            pos <= text@.len(),
            pos as nat == line_start(s, (1 + y) as nat),
            grid@.wf(),
            grid@.width == width as nat,
            grid@.height == height as nat,
            forall|x2: int, y2: int| y2 < y ==> !cell_bad(s, x2, y2),
            forall|x2: int, y2: int|
                grid@.in_bounds(x2, y2) ==> #[trigger] grid@.cell(x2, y2) == (y2 < y
                    && cell_alive(s, x2, y2)),
        decreases height - y,
    {
        let line_end = scan(text, pos, LINE_FEED);
        let content_end = if line_end > pos && text[line_end - 1] == CARRIAGE_RETURN {
            line_end - 1
        } else {
            line_end
        };
        let row = &text[pos..content_end];
        proof {
            lemma_line_start_le(s, (1 + y) as nat);
            assert(row@ =~= row_line(s, y as int));
        }
        let mut x: usize = 0;
        while x < width && x < row.len()
            invariant
                text@ == s,
                header_ok(s),
                width as nat == spec_width(s),
                height as nat == spec_height(s),
                y < height,
                x <= width,
                row@ == row_line(s, y as int),
                grid@.wf(),
                grid@.width == width as nat,
                grid@.height == height as nat,
                forall|x2: int, y2: int| y2 < y ==> !cell_bad(s, x2, y2),
                forall|x2: int| 0 <= x2 < x ==> !cell_bad(s, x2, y as int),
                forall|x2: int, y2: int|
                    grid@.in_bounds(x2, y2) ==> #[trigger] grid@.cell(x2, y2) == ((y2 < y || (y2
                        == y && x2 < x)) && cell_alive(s, x2, y2)),
            decreases width - x,
        {
            let b = row[x];
            let ghost before = grid@;
            if b == ALIVE_GLYPH {
                grid.set(x, y, true);
                proof {
                    assert(cell_alive(s, x as int, y as int));
                    assert forall|x2: int, y2: int| grid@.in_bounds(x2, y2) implies #[trigger] grid@.cell(
                        x2,
                        y2,
                    ) == ((y2 < y || (y2 == y && x2 < x + 1)) && cell_alive(s, x2, y2)) by {
                        if x2 == x && y2 == y {
                            assert(grid@.cell(x2, y2));
                        } else {
                            assert(grid@.cell(x2, y2) == before.cell(x2, y2));
                        }
                    }
                }
            } else if b != SPACE {
                proof {
                    assert(cell_bad(s, x as int, y as int));
                    assert(first_bad_cell(s, x as int, y as int));
                }
                return Err(ParseError::InvalidSymbol(b));
            } else {
                proof {
                    assert(!cell_alive(s, x as int, y as int));
                }
            }
            x = x + 1;
        }
        proof {
            assert forall|x2: int| 0 <= x2 implies !cell_bad(s, x2, y as int) by {
                if x2 < x {
                } else {
                    assert(!(x2 < spec_width(s) && x2 < row_line(s, y as int).len()));
                }
            }
            assert forall|x2: int, y2: int| grid@.in_bounds(x2, y2) implies #[trigger] grid@.cell(
                x2,
                y2,
            ) == (y2 < y + 1 && cell_alive(s, x2, y2)) by {
                if y2 == y && x2 >= x {
                    assert(!cell_alive(s, x2, y2));
                }
            }
        }
        pos = if line_end == text.len() {
            text.len()
        } else {
            line_end + 1
        };
        proof {
            assert(pos as nat == line_start(s, (1 + (y + 1)) as nat));
        }
        y = y + 1;
    }
    Ok(grid)
}

} // verus!
