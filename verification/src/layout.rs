//! Small computations of the screen layout: padding a label to a column
//! width and centring a box in an area.

use vstd::prelude::*;
use vstd::string::{StrSliceExecFns, StringExecFns};

verus! {

/// A rectangle of character cells.
#[derive(Debug, Clone, Copy, PartialEq, Eq, Structural)]
pub struct Area {
    pub x: u16,
    pub y: u16,
    pub width: u16,
    pub height: u16,
}

/// `n` spaces.
pub open spec fn spaces(n: int) -> Seq<char> {
    Seq::new(
        if n > 0 {
            n as nat
        } else {
            0
        },
        |i: int| ' ',
    )
}

/// `text`, followed by as many spaces as it takes to reach `width`
/// characters.
pub open spec fn padded(text: Seq<char>, width: int) -> Seq<char> {
    text + spaces(width - text.len())
}

/// `s`, padded with spaces on the right to `len` characters. A text of at
/// least `len` bytes is left as it is.
pub fn pad_right(s: &str, len: usize) -> (out: String)
    ensures
        out@ == if s.len() >= len {
            s@
        } else {
            padded(s@, len as int)
        },
{
    let mut out = String::from_str(s);
    if s.len() >= len {
        return out;
    }
    let mut n: usize = s.unicode_len();
    assert(out@ =~= s@ + spaces(n - s@.len()));
    while n < len
        invariant
            n >= s@.len(),
            n <= len || n == s@.len(),
            out@ == s@ + spaces(n - s@.len()),
        decreases len - n,
    {
        out.append(" ");
        proof {
            reveal_strlit(" ");
            assert(" "@ =~= seq![' ']);
            assert(s@ + spaces(n - s@.len()) + seq![' '] =~= s@ + spaces(n + 1 - s@.len()));
        }
        n += 1;
    }
    assert(spaces(n - s@.len()) =~= spaces(len - s@.len()));
    out
}

/// The smaller of two numbers.
pub open spec fn least(a: int, b: int) -> int {
    if a <= b {
        a
    } else {
        b
    }
}

/// Where a box of the wished size goes in `area`: centred, with the size
/// cut to what the area has, and no coordinate beyond the largest number.
pub open spec fn centered_in(width: int, height: int, area: Area) -> Area {
    Area {
        x: least(area.x + (area.width - least(width, area.width as int)) / 2, u16::MAX as int) as u16,
        y: least(
            area.y + (area.height - least(height, area.height as int)) / 2,
            u16::MAX as int,
        ) as u16,
        width: least(width, area.width as int) as u16,
        height: least(height, area.height as int) as u16,
    }
}

/// Start of a span of `wished` cells centred in the span of `have` cells
/// that starts at `origin`.
fn centered_start(origin: u16, have: u16, wished: u16) -> (start: u16)
    ensures
        start == least(origin + (have - least(wished as int, have as int)) / 2, u16::MAX as int),
{
    let slack: u16 = if have > wished {
        (have - wished) / 2
    } else {
        0
    };
    if slack > u16::MAX - origin {
        u16::MAX
    } else {
        origin + slack
    }
}

/// A box of the wished size, centred in `area`.
pub fn centered_rect(width: u16, height: u16, area: Area) -> (r: Area)
    ensures
        r == centered_in(width as int, height as int, area),
{
    Area {
        x: centered_start(area.x, area.width, width),
        y: centered_start(area.y, area.height, height),
        width: if width < area.width {
            width
        } else {
            area.width
        },
        height: if height < area.height {
            height
        } else {
            area.height
        },
    }
}

} // verus!
