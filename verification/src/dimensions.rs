//! Width and height of a raster region, in pixels.

use vstd::prelude::*;

verus! {

/// The character for one decimal digit.
pub open spec fn dec_digit_char(d: int) -> char {
    if d == 0 {
        '0'
    } else if d == 1 {
        '1'
    } else if d == 2 {
        '2'
    } else if d == 3 {
        '3'
    } else if d == 4 {
        '4'
    } else if d == 5 {
        '5'
    } else if d == 6 {
        '6'
    } else if d == 7 {
        '7'
    } else if d == 8 {
        '8'
    } else {
        '9'
    }
}

/// The decimal representation of a nonnegative integer, most significant
/// digit first, with no leading zeros (a lone zero for 0).
pub open spec fn dec_chars_of(n: int) -> Seq<char>
    decreases n,
{
    if n < 10 {
        seq![dec_digit_char(n)]
    } else {
        dec_chars_of(n / 10).push(dec_digit_char(n % 10))
    }
}

/// The one-character string for a decimal digit.
fn dec_digit_str(d: u32) -> (r: &'static str)
    requires
        d < 10,
    ensures
        r@ =~= seq![dec_digit_char(d as int)],
{
    proof {
        reveal_strlit("0");
        reveal_strlit("1");
        reveal_strlit("2");
        reveal_strlit("3");
        reveal_strlit("4");
        reveal_strlit("5");
        reveal_strlit("6");
        reveal_strlit("7");
        reveal_strlit("8");
        reveal_strlit("9");
    }
    if d == 0 {
        "0"
    } else if d == 1 {
        "1"
    } else if d == 2 {
        "2"
    } else if d == 3 {
        "3"
    } else if d == 4 {
        "4"
    } else if d == 5 {
        "5"
    } else if d == 6 {
        "6"
    } else if d == 7 {
        "7"
    } else if d == 8 {
        "8"
    } else {
        "9"
    }
}

/// The decimal representation of `n`, as a string.
pub fn u32_to_decimal(n: u32) -> (r: String)
    ensures
        r@ == dec_chars_of(n as int),
    decreases n,
{
    if n < 10 {
        String::from_str(dec_digit_str(n))
    } else {
        let mut s = u32_to_decimal(n / 10);
        s.append(dec_digit_str(n % 10));
        proof {
            assert(s@ =~= dec_chars_of(n as int / 10).push(dec_digit_char(n as int % 10)));
        }
        s
    }
}

/// A width and a height, both in pixels.
#[derive(Copy, Clone, Debug, PartialEq, Eq, Structural)]
pub struct Dimensions {
    pub width: u32,
    pub height: u32,
}

impl Dimensions {
    /// True iff both dimensions independently fit inside `other`.
    pub fn fits_in(&self, other: &Dimensions) -> (r: bool)
        ensures
            r == (self.width <= other.width && self.height <= other.height),
    {
        self.width <= other.width && self.height <= other.height
    }

    /// The number of pixels covered by this region.
    pub fn area(&self) -> (r: u32)
        requires
            self.width * self.height <= u32::MAX,
        ensures
            r == self.width * self.height,
    {
        self.width * self.height
    }

    /// The dimensions as text: width and height in decimal, joined by `x`.
    pub fn display_string(&self) -> (r: String)
        ensures
            r@ == dec_chars_of(self.width as int) + seq!['x'] + dec_chars_of(self.height as int),
    {
        let mut s = u32_to_decimal(self.width);
        s.append("x");
        let t = u32_to_decimal(self.height);
        s.append(t.as_str());
        proof {
            reveal_strlit("x");
            assert(s@ =~= dec_chars_of(self.width as int) + seq!['x'] + dec_chars_of(
                self.height as int,
            ));
        }
        s
    }
}

} // verus!
