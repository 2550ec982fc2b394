//! Elements as text, in decimal digits.

use vstd::prelude::*;
use vstd::string::*;
use crate::even::EvenVersor;
use crate::exact::UNIT;
use crate::model::{EvenModel, OddModel};
use crate::odd::OddVersor;

verus! {

/// The character for a decimal digit.
pub open spec fn digit_char(d: int) -> char {
    if d == 0 {
        '0'
    } else if d == 1 {
        '1'
    } else if d == 2 {
        '2'
    } else if d == 3 {
        '3'
    } else if d == 4 {
        '4'
    } else if d == 5 {
        '5'
    } else if d == 6 {
        '6'
    } else if d == 7 {
        '7'
    } else if d == 8 {
        '8'
    } else {
        '9'
    }
}

/// The decimal digits of a natural number, the most significant first.
pub open spec fn natural_text(n: int) -> Seq<char>
    decreases n,
{
    if n < 10 {
        seq![digit_char(n)]
    } else {
        natural_text(n / 10) + seq![digit_char(n % 10)]
    }
}

/// Ten to the power of the number of decimal places that are written.
pub const DECIMALS: u64 = 10_000_000_000_000;

/// Half of `UNIT`, which rounds to the nearest decimal place.
pub const HALF_UNIT: i64 = 0x800_0000_0000;

/// The magnitude `a / UNIT` in units of the last decimal place written,
/// rounded to the nearest.
pub open spec fn decimal_scaled(a: int) -> int {
    (a * DECIMALS + HALF_UNIT) / (UNIT as int)
}

/// The last `width` decimal digits of `f`, with leading zeros.
pub open spec fn padded_text(f: int, width: nat) -> Seq<char>
    decreases width,
{
    if width == 0 {
        Seq::empty()
    } else {
        padded_text(f / 10, (width - 1) as nat) + seq![digit_char(f % 10)]
    }
}

/// The digits after the decimal point: the last `width` decimal digits of
/// `f` without the zeros at their end.
pub open spec fn fraction_text(f: int, width: nat) -> Seq<char>
    decreases width,
{
    if width == 0 {
        Seq::empty()
    } else if f % 10 == 0 {
        fraction_text(f / 10, (width - 1) as nat)
    } else {
        padded_text(f, width)
    }
}

/// A magnitude given in units of the last decimal place: the whole part,
/// and after a point the fraction, if there is one.
pub open spec fn magnitude_text(q: int) -> Seq<char> {
    if q % (DECIMALS as int) == 0 {
        natural_text(q / (DECIMALS as int))
    } else {
        natural_text(q / (DECIMALS as int)) + seq!['.'] + fraction_text(q % (DECIMALS as int), 13)
    }
}

/// A stored component in decimal digits, rounded to thirteen places: `1.5`
/// for one and a half, `-2` for minus two, `0` for zero.
pub open spec fn component_text(n: int) -> Seq<char> {
    let q = decimal_scaled(if n < 0 { -n } else { n });
    if n < 0 && q != 0 {
        seq!['-'] + magnitude_text(q)
    } else {
        magnitude_text(q)
    }
}

/// An even element as text: each component, by name, in decimal digits.
pub open spec fn even_text(e: EvenModel) -> Seq<char> {
    "sca: "@ + component_text(e.sca) + ", yz: "@ + component_text(e.yz) + ", zx: "@
        + component_text(e.zx) + ", xy: "@ + component_text(e.xy)
}

/// An odd element as text: each component, by name, in decimal digits.
pub open spec fn odd_text(o: OddModel) -> Seq<char> {
    "xyz: "@ + component_text(o.xyz) + ", x: "@ + component_text(o.x) + ", y: "@
        + component_text(o.y) + ", z: "@ + component_text(o.z)
}

/// One decimal digit as text.
fn digit_str(d: u64) -> (s: &'static str)
    requires
        d < 10,
    ensures
        s@ == seq![digit_char(d as int)],
{
    proof {
        reveal_strlit("0");
        reveal_strlit("1");
        reveal_strlit("2");
        reveal_strlit("3");
        reveal_strlit("4");
        reveal_strlit("5");
        reveal_strlit("6");
        reveal_strlit("7");
        reveal_strlit("8");
        reveal_strlit("9");
    }
    let s = if d == 0 {
        "0"
    } else if d == 1 {
        "1"
    } else if d == 2 {
        "2"
    } else if d == 3 {
        "3"
    } else if d == 4 {
        "4"
    } else if d == 5 {
        "5"
    } else if d == 6 {
        "6"
    } else if d == 7 {
        "7"
    } else if d == 8 {
        "8"
    } else {
        "9"
    };
    assert(s@ =~= seq![digit_char(d as int)]);
    s
}

/// A natural number in decimal digits.
pub fn natural_string(n: u64) -> (s: String)
    ensures
        s@ == natural_text(n as int),
    decreases n,
{
    if n < 10 {
        String::from_str(digit_str(n))
    } else {
        let mut s = natural_string(n / 10);
        s.append(digit_str(n % 10));
        s
    }
}

/// The last `width` decimal digits of `f`, with leading zeros.
fn padded_string(f: u64, width: u32) -> (s: String)
    ensures
        s@ == padded_text(f as int, width as nat),
    decreases width,
{
    if width == 0 {
        let s = String::new();
        assert(s@ =~= Seq::<char>::empty());
        s
    } else {
        let mut s = padded_string(f / 10, width - 1);
        s.append(digit_str(f % 10));
        s
    }
}

/// The digits after the decimal point, without the zeros at their end.
fn fraction_string(f: u64, width: u32) -> (s: String)
    ensures
        s@ == fraction_text(f as int, width as nat),
    decreases width,
{
    if width == 0 {
        let s = String::new();
        assert(s@ =~= Seq::<char>::empty());
        s
    } else if f % 10 == 0 {
        fraction_string(f / 10, width - 1)
    } else {
        padded_string(f, width)
    }
}

/// A stored component in decimal digits, rounded to thirteen places.
pub fn component_string(n: i64) -> (s: String)
    ensures
        s@ == component_text(n as int),
{
    proof {
        reveal_strlit("-");
        reveal_strlit(".");
        assert("-"@ =~= seq!['-']);
        assert("."@ =~= seq!['.']);
    }
    let magnitude: u128 = if n < 0 {
        (-(n as i128)) as u128
    } else {
        n as u128
    };
    let q: u128 = (magnitude * (DECIMALS as u128) + (HALF_UNIT as u128)) / (UNIT as u128);
    let whole: u64 = (q / (DECIMALS as u128)) as u64;
    let fraction: u64 = (q % (DECIMALS as u128)) as u64;
    let mut s = if n < 0 && q != 0 {
        String::from_str("-")
    } else {
        let e = String::new();
        assert(e@ =~= Seq::<char>::empty());
        e
    };
    s.append(natural_string(whole).as_str());
    if fraction != 0 {
        s.append(".");
        s.append(fraction_string(fraction, 13).as_str());
    }
    proof {
        let m = magnitude_text(q as int);
        assert(Seq::<char>::empty() + natural_text(whole as int) =~= natural_text(whole as int));
        assert(s@ =~= component_text(n as int));
    }
    s
}

impl EvenVersor {
    /// The element as text, such as `sca: 1.5, yz: 0, zx: -2, xy: 0.25`.
    pub fn to_string(self) -> (s: String)
        ensures
            s@ == even_text(self@),
    {
        let mut s = String::from_str("sca: ");
        s.append(component_string(self.sca).as_str());
        s.append(", yz: ");
        s.append(component_string(self.yz).as_str());
        s.append(", zx: ");
        s.append(component_string(self.zx).as_str());
        s.append(", xy: ");
        s.append(component_string(self.xy).as_str());
        s
    }
}

impl OddVersor {
    /// The element as text, such as `xyz: 0, x: 1, y: 2.5, z: -3`.
    pub fn to_string(self) -> (s: String)
        ensures
            s@ == odd_text(self@),
    {
        let mut s = String::from_str("xyz: ");
        s.append(component_string(self.xyz).as_str());
        s.append(", x: ");
        s.append(component_string(self.x).as_str());
        s.append(", y: ");
        s.append(component_string(self.y).as_str());
        s.append(", z: ");
        s.append(component_string(self.z).as_str());
        s
    }
}

} // verus!
