//! Decimal field values and their text form.
//!
//! A reading's numeric value is held as a signed fixed-point decimal
//! with a thousandth resolution, so that the wire encoding of a value
//! is a pure function of plain integers.

use vstd::prelude::*;

verus! {

/// The character for one decimal digit.
pub open spec fn digit_char(d: int) -> char {
    if d == 0 {
        '0'
    } else if d == 1 {
        '1'
    } else if d == 2 {
        '2'
    } else if d == 3 {
        '3'
    } else if d == 4 {
        '4'
    } else if d == 5 {
        '5'
    } else if d == 6 {
        '6'
    } else if d == 7 {
        '7'
    } else if d == 8 {
        '8'
    } else {
        '9'
    }
}

/// The decimal digits of a non-negative integer, most significant
/// first, with no leading zero except for the number zero itself.
pub open spec fn dec_of(n: int) -> Seq<char>
    decreases n,
{
    if n < 10 {
        seq![digit_char(n)]
    } else {
        dec_of(n / 10).push(digit_char(n % 10))
    }
}

/// One decimal digit as a string slice.
fn digit_str(d: u64) -> (r: &'static str)
    requires
        d < 10,
    ensures
        r@ == seq![digit_char(d as int)],
{
    proof {
        reveal_strlit("0");
        reveal_strlit("1");
        reveal_strlit("2");
        reveal_strlit("3");
        reveal_strlit("4");
        reveal_strlit("5");
        reveal_strlit("6");
        reveal_strlit("7");
        reveal_strlit("8");
        reveal_strlit("9");
    }
    match d {
        0 => "0",
        1 => "1",
        2 => "2",
        3 => "3",
        4 => "4",
        5 => "5",
        6 => "6",
        7 => "7",
        8 => "8",
        _ => "9",
    }
}

/// Formats a non-negative integer in decimal.
pub fn u64_dec(n: u64) -> (r: String)
    ensures
        r@ == dec_of(n as int),
    decreases n,
{
    if n < 10 {
        String::from_str(digit_str(n))
    } else {
        let prefix = u64_dec(n / 10);
        prefix.concat(digit_str(n % 10))
    }
}

/// A signed fixed-point decimal value with three fractional digits:
/// `units + thousandths / 1000`, negated when `negative` holds.
#[derive(Clone, Copy, Debug, PartialEq, Eq, Structural)]
pub struct FieldValue {
    pub negative: bool,
    pub units: u64,
    pub thousandths: u16,
}

impl FieldValue {
    /// A well-formed value keeps its fractional part below one.
    pub open spec fn wf(self) -> bool {
        self.thousandths < 1000
    }

    /// Whether this value is numerically zero (of either sign).
    pub open spec fn spec_is_zero(self) -> bool {
        self.units == 0 && self.thousandths == 0
    }

    /// Builds a value from its parts.
    pub fn new(negative: bool, units: u64, thousandths: u16) -> (r: FieldValue)
        requires
            thousandths < 1000,
        ensures
            r == (FieldValue { negative, units, thousandths }),
            r.wf(),
    {
        FieldValue { negative, units, thousandths }
    }

    /// Whether this value is numerically zero.
    pub fn is_zero(&self) -> (r: bool)
        ensures
            r == self.spec_is_zero(),
    {
        self.units == 0 && self.thousandths == 0
    }
}

/// The fractional suffix of a value's text: empty for a whole
/// number, else a point followed by the fractional digits with
/// trailing zeros dropped.
pub open spec fn frac_text(thousandths: int) -> Seq<char> {
    if thousandths == 0 {
        Seq::empty()
    } else if thousandths % 10 != 0 {
        seq![
            '.',
            digit_char(thousandths / 100),
            digit_char((thousandths / 10) % 10),
            digit_char(thousandths % 10),
        ]
    } else if thousandths % 100 != 0 {
        seq!['.', digit_char(thousandths / 100), digit_char((thousandths / 10) % 10)]
    } else {
        seq!['.', digit_char(thousandths / 100)]
    }
}

/// The text of a value: an optional minus sign, the whole part in
/// decimal, and the fractional suffix.
pub open spec fn spec_value_text(v: FieldValue) -> Seq<char> {
    let magnitude = dec_of(v.units as int) + frac_text(v.thousandths as int);
    if v.negative {
        seq!['-'] + magnitude
    } else {
        magnitude
    }
}

impl FieldValue {
    /// Formats this value as a decimal literal.
    pub fn text(&self) -> (r: String)
        requires
            self.wf(),
        ensures
            r@ == spec_value_text(*self),
    {
        proof {
            reveal_strlit("-");
            reveal_strlit(".");
        }
        let mut out = if self.negative {
            String::from_str("-")
        } else {
            String::new()
        };
        out.append(u64_dec(self.units).as_str());
        let th = self.thousandths as u64;
        if th != 0 {
            out.append(".");
            out.append(digit_str(th / 100));
            if th % 10 != 0 {
                out.append(digit_str((th / 10) % 10));
                out.append(digit_str(th % 10));
            } else if th % 100 != 0 {
                out.append(digit_str((th / 10) % 10));
            }
        }
        proof {
            assert(out@ =~= spec_value_text(*self));
        }
        out
    }
}

} // verus!
