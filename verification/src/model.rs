//! The mathematical elements that the stored ones stand for.
//!
//! An element is four integer numerators over one denominator; its value is
//! the quadruple of quotients. All arithmetic here is on unbounded integers
//! and exact. A stored element has the denominator `UNIT`; `rounded` brings
//! an exact result back to that denominator, and `normalize` divides by a
//! square root: these are the only places where anything is lost.

use vstd::prelude::*;
use crate::exact::{in_range, trunc_div, unit_part, wide_range, UNIT};

verus! {

/// A rational number `num / den`.
pub struct RatioModel {
    pub num: int,
    pub den: int,
}

/// A scalar plus a bivector: `(sca + yz e_yz + zx e_zx + xy e_xy) / den`.
pub struct EvenModel {
    pub sca: int,
    pub yz: int,
    pub zx: int,
    pub xy: int,
    pub den: int,
}

/// A vector plus a trivector: `(xyz e_xyz + x e_x + y e_y + z e_z) / den`.
pub struct OddModel {
    pub xyz: int,
    pub x: int,
    pub y: int,
    pub z: int,
    pub den: int,
}

impl RatioModel {
    /// The denominator is positive.
    pub open spec fn valid(self) -> bool {
        self.den > 0
    }

    /// Valid, and every part can be stored.
    pub open spec fn bounded(self) -> bool {
        self.valid() && wide_range(self.num) && wide_range(self.den)
    }

    /// Both stand for the same rational number.
    pub open spec fn same_value(self, other: RatioModel) -> bool {
        self.num * other.den == other.num * self.den
    }
}

impl EvenModel {
    /// The scalar one.
    pub open spec fn one() -> EvenModel {
        EvenModel { sca: 1, yz: 0, zx: 0, xy: 0, den: 1 }
    }

    /// The denominator is positive.
    pub open spec fn valid(self) -> bool {
        self.den > 0
    }

    /// Can be stored: the denominator is `UNIT` and every numerator fits.
    pub open spec fn bounded(self) -> bool {
        &&& self.den == UNIT
        &&& in_range(self.sca)
        &&& in_range(self.yz)
        &&& in_range(self.zx)
        &&& in_range(self.xy)
    }

    /// The element over the denominator `UNIT`, each numerator rounded
    /// towards zero: less than `1 / UNIT` is lost in each component.
    pub open spec fn rounded(self) -> EvenModel {
        EvenModel {
            sca: trunc_div(self.sca * UNIT, self.den),
            yz: trunc_div(self.yz * UNIT, self.den),
            zx: trunc_div(self.zx * UNIT, self.den),
            xy: trunc_div(self.xy * UNIT, self.den),
            den: UNIT as int,
        }
    }

    /// Both stand for the same element: equal quotients, component by
    /// component.
    pub open spec fn same_value(self, other: EvenModel) -> bool {
        &&& self.sca * other.den == other.sca * self.den
        &&& self.yz * other.den == other.yz * self.den
        &&& self.zx * other.den == other.zx * self.den
        &&& self.xy * other.den == other.xy * self.den
    }

    /// The sum of the squares of the numerators.
    pub open spec fn norm(self) -> int {
        self.sca * self.sca + self.yz * self.yz + self.zx * self.zx + self.xy * self.xy
    }

    /// The squared magnitude: the sum of the squares of the four components.
    pub open spec fn mag2(self) -> RatioModel {
        RatioModel { num: self.norm(), den: self.den * self.den }
    }

    /// Reversion: the bivector part changes sign.
    pub open spec fn rev(self) -> EvenModel {
        EvenModel { sca: self.sca, yz: -self.yz, zx: -self.zx, xy: -self.xy, den: self.den }
    }

    /// The pure scalar `s`.
    pub open spec fn from_sca(s: RatioModel) -> EvenModel {
        EvenModel { sca: s.num, yz: 0, zx: 0, xy: 0, den: s.den }
    }

    /// The pure bivector with whole components.
    pub open spec fn from_bivec(yz: int, zx: int, xy: int) -> EvenModel {
        EvenModel { sca: 0, yz: yz * UNIT, zx: zx * UNIT, xy: xy * UNIT, den: UNIT as int }
    }

    /// The scalar part.
    pub open spec fn sca(self) -> EvenModel {
        EvenModel { sca: self.sca, yz: 0, zx: 0, xy: 0, den: self.den }
    }

    /// The bivector part.
    pub open spec fn bivec(self) -> EvenModel {
        EvenModel { sca: 0, yz: self.yz, zx: self.zx, xy: self.xy, den: self.den }
    }

    /// The sum. Over one denominator the numerators are added; otherwise
    /// each side is first brought over the product of the two denominators.
    pub open spec fn add(self, rhs: EvenModel) -> EvenModel {
        if self.den == rhs.den {
            EvenModel {
                sca: self.sca + rhs.sca,
                yz: self.yz + rhs.yz,
                zx: self.zx + rhs.zx,
                xy: self.xy + rhs.xy,
                den: self.den,
            }
        } else {
            EvenModel {
                sca: self.sca * rhs.den + rhs.sca * self.den,
                yz: self.yz * rhs.den + rhs.yz * self.den,
                zx: self.zx * rhs.den + rhs.zx * self.den,
                xy: self.xy * rhs.den + rhs.xy * self.den,
                den: self.den * rhs.den,
            }
        }
    }

    /// The difference, formed as the sum is.
    pub open spec fn sub(self, rhs: EvenModel) -> EvenModel {
        if self.den == rhs.den {
            EvenModel {
                sca: self.sca - rhs.sca,
                yz: self.yz - rhs.yz,
                zx: self.zx - rhs.zx,
                xy: self.xy - rhs.xy,
                den: self.den,
            }
        } else {
            EvenModel {
                sca: self.sca * rhs.den - rhs.sca * self.den,
                yz: self.yz * rhs.den - rhs.yz * self.den,
                zx: self.zx * rhs.den - rhs.zx * self.den,
                xy: self.xy * rhs.den - rhs.xy * self.den,
                den: self.den * rhs.den,
            }
        }
    }

    /// The geometric product of two even elements.
    pub open spec fn mul_even(self, rhs: EvenModel) -> EvenModel {
        EvenModel {
            sca: self.sca * rhs.sca - self.yz * rhs.yz - self.zx * rhs.zx - self.xy * rhs.xy,
            yz: self.yz * rhs.sca + self.sca * rhs.yz + self.xy * rhs.zx - self.zx * rhs.xy,
            zx: self.zx * rhs.sca + self.sca * rhs.zx + self.yz * rhs.xy - self.xy * rhs.yz,
            xy: self.xy * rhs.sca + self.sca * rhs.xy + self.zx * rhs.yz - self.yz * rhs.zx,
            den: self.den * rhs.den,
        }
    }

    /// The geometric product of an even element with an odd one.
    pub open spec fn mul_odd(self, rhs: OddModel) -> OddModel {
        OddModel {
            xyz: self.sca * rhs.xyz + self.yz * rhs.x + self.zx * rhs.y + self.xy * rhs.z,
            x: self.sca * rhs.x - self.yz * rhs.xyz + self.xy * rhs.y - self.zx * rhs.z,
            y: self.sca * rhs.y - self.zx * rhs.xyz + self.yz * rhs.z - self.xy * rhs.x,
            z: self.sca * rhs.z - self.xy * rhs.xyz + self.zx * rhs.x - self.yz * rhs.y,
            den: self.den * rhs.den,
        }
    }

    /// The inverse: the reverse divided by the squared magnitude, which
    /// brings the sum of squares into the denominator.
    pub open spec fn inv(self) -> EvenModel {
        EvenModel {
            sca: self.sca * self.den,
            yz: -self.yz * self.den,
            zx: -self.zx * self.den,
            xy: -self.xy * self.den,
            den: self.norm(),
        }
    }

    /// The element divided by its magnitude, over the denominator `UNIT`,
    /// each numerator rounded towards zero. The denominator of `self` does
    /// not matter: the magnitude cancels it.
    pub open spec fn normalize(self) -> EvenModel {
        EvenModel {
            sca: unit_part(self.sca, self.norm()),
            yz: unit_part(self.yz, self.norm()),
            zx: unit_part(self.zx, self.norm()),
            xy: unit_part(self.xy, self.norm()),
            den: UNIT as int,
        }
    }

    /// Conjugation of an even element: `self * value * inv(self)`.
    pub open spec fn sandwich_even(self, value: EvenModel) -> EvenModel {
        self.mul_even(value).mul_even(self.inv())
    }

    /// Conjugation of an odd element: `self * value * inv(self)`.
    pub open spec fn sandwich_odd(self, value: OddModel) -> OddModel {
        self.mul_odd(value).mul_even(self.inv())
    }

    /// The conjugate as it is computed: each of the inverse, the first
    /// product and the second product is rounded to the denominator `UNIT`.
    pub open spec fn stored_sandwich_even(self, value: EvenModel) -> EvenModel {
        self.mul_even(value).rounded().mul_even(self.inv().rounded()).rounded()
    }

    /// The conjugate as it is computed: each of the inverse, the first
    /// product and the second product is rounded to the denominator `UNIT`.
    pub open spec fn stored_sandwich_odd(self, value: OddModel) -> OddModel {
        self.mul_odd(value).rounded().mul_even(self.inv().rounded()).rounded()
    }

    /// The inverse, the first product and the conjugate can all be stored.
    pub open spec fn sandwich_even_fits(self, value: EvenModel) -> bool {
        &&& self.inv().rounded().bounded()
        &&& self.mul_even(value).rounded().bounded()
        &&& self.stored_sandwich_even(value).bounded()
    }

    /// The inverse, the first product and the conjugate can all be stored.
    pub open spec fn sandwich_odd_fits(self, value: OddModel) -> bool {
        &&& self.inv().rounded().bounded()
        &&& self.mul_odd(value).rounded().bounded()
        &&& self.stored_sandwich_odd(value).bounded()
    }
}

impl OddModel {
    /// The denominator is positive.
    pub open spec fn valid(self) -> bool {
        self.den > 0
    }

    /// Can be stored: the denominator is `UNIT` and every numerator fits.
    pub open spec fn bounded(self) -> bool {
        &&& self.den == UNIT
        &&& in_range(self.xyz)
        &&& in_range(self.x)
        &&& in_range(self.y)
        &&& in_range(self.z)
    }

    /// The element over the denominator `UNIT`, each numerator rounded
    /// towards zero: less than `1 / UNIT` is lost in each component.
    pub open spec fn rounded(self) -> OddModel {
        OddModel {
            xyz: trunc_div(self.xyz * UNIT, self.den),
            x: trunc_div(self.x * UNIT, self.den),
            y: trunc_div(self.y * UNIT, self.den),
            z: trunc_div(self.z * UNIT, self.den),
            den: UNIT as int,
        }
    }

    /// Both stand for the same element: equal quotients, component by
    /// component.
    pub open spec fn same_value(self, other: OddModel) -> bool {
        &&& self.xyz * other.den == other.xyz * self.den
        &&& self.x * other.den == other.x * self.den
        &&& self.y * other.den == other.y * self.den
        &&& self.z * other.den == other.z * self.den
    }

    /// The sum of the squares of the numerators.
    pub open spec fn norm(self) -> int {
        self.xyz * self.xyz + self.x * self.x + self.y * self.y + self.z * self.z
    }

    /// The squared magnitude: the sum of the squares of the four components.
    pub open spec fn mag2(self) -> RatioModel {
        RatioModel { num: self.norm(), den: self.den * self.den }
    }

    /// Reversion: the trivector part changes sign.
    pub open spec fn rev(self) -> OddModel {
        OddModel { xyz: -self.xyz, x: self.x, y: self.y, z: self.z, den: self.den }
    }

    /// The pure vector with whole components.
    pub open spec fn from_vec(x: int, y: int, z: int) -> OddModel {
        OddModel { xyz: 0, x: x * UNIT, y: y * UNIT, z: z * UNIT, den: UNIT as int }
    }

    /// The vector part.
    pub open spec fn vec(self) -> OddModel {
        OddModel { xyz: 0, x: self.x, y: self.y, z: self.z, den: self.den }
    }

    /// The sum. Over one denominator the numerators are added; otherwise
    /// each side is first brought over the product of the two denominators.
    pub open spec fn add(self, rhs: OddModel) -> OddModel {
        if self.den == rhs.den {
            OddModel {
                xyz: self.xyz + rhs.xyz,
                x: self.x + rhs.x,
                y: self.y + rhs.y,
                z: self.z + rhs.z,
                den: self.den,
            }
        } else {
            OddModel {
                xyz: self.xyz * rhs.den + rhs.xyz * self.den,
                x: self.x * rhs.den + rhs.x * self.den,
                y: self.y * rhs.den + rhs.y * self.den,
                z: self.z * rhs.den + rhs.z * self.den,
                den: self.den * rhs.den,
            }
        }
    }

    /// The difference, formed as the sum is.
    pub open spec fn sub(self, rhs: OddModel) -> OddModel {
        if self.den == rhs.den {
            OddModel {
                xyz: self.xyz - rhs.xyz,
                x: self.x - rhs.x,
                y: self.y - rhs.y,
                z: self.z - rhs.z,
                den: self.den,
            }
        } else {
            OddModel {
                xyz: self.xyz * rhs.den - rhs.xyz * self.den,
                x: self.x * rhs.den - rhs.x * self.den,
                y: self.y * rhs.den - rhs.y * self.den,
                z: self.z * rhs.den - rhs.z * self.den,
                den: self.den * rhs.den,
            }
        }
    }

    /// The geometric product of two odd elements, which is even.
    pub open spec fn mul_odd(self, rhs: OddModel) -> EvenModel {
        EvenModel {
            sca: self.x * rhs.x + self.y * rhs.y + self.z * rhs.z - self.xyz * rhs.xyz,
            yz: self.x * rhs.xyz + self.xyz * rhs.x + self.y * rhs.z - self.z * rhs.y,
            zx: self.y * rhs.xyz + self.xyz * rhs.y + self.z * rhs.x - self.x * rhs.z,
            xy: self.z * rhs.xyz + self.xyz * rhs.z + self.x * rhs.y - self.y * rhs.x,
            den: self.den * rhs.den,
        }
    }

    /// The geometric product of an odd element with an even one.
    pub open spec fn mul_even(self, rhs: EvenModel) -> OddModel {
        OddModel {
            xyz: self.xyz * rhs.sca + self.x * rhs.yz + self.y * rhs.zx + self.z * rhs.xy,
            x: self.x * rhs.sca - self.xyz * rhs.yz + self.z * rhs.zx - self.y * rhs.xy,
            y: self.y * rhs.sca - self.xyz * rhs.zx + self.x * rhs.xy - self.z * rhs.yz,
            z: self.z * rhs.sca - self.xyz * rhs.xy + self.y * rhs.yz - self.x * rhs.zx,
            den: self.den * rhs.den,
        }
    }

    /// The inverse: the reverse divided by the squared magnitude, which
    /// brings the sum of squares into the denominator.
    pub open spec fn inv(self) -> OddModel {
        OddModel {
            xyz: -self.xyz * self.den,
            x: self.x * self.den,
            y: self.y * self.den,
            z: self.z * self.den,
            den: self.norm(),
        }
    }

    /// The element divided by its magnitude, over the denominator `UNIT`,
    /// each numerator rounded towards zero.
    pub open spec fn normalize(self) -> OddModel {
        OddModel {
            xyz: unit_part(self.xyz, self.norm()),
            x: unit_part(self.x, self.norm()),
            y: unit_part(self.y, self.norm()),
            z: unit_part(self.z, self.norm()),
            den: UNIT as int,
        }
    }

    /// Conjugation of an even element: `self * value * inv(self)`.
    pub open spec fn sandwich_even(self, value: EvenModel) -> EvenModel {
        self.mul_even(value).mul_odd(self.inv())
    }

    /// Conjugation of an odd element: `self * value * inv(self)`.
    pub open spec fn sandwich_odd(self, value: OddModel) -> OddModel {
        self.mul_odd(value).mul_odd(self.inv())
    }

    /// The conjugate as it is computed: each of the inverse, the first
    /// product and the second product is rounded to the denominator `UNIT`.
    pub open spec fn stored_sandwich_even(self, value: EvenModel) -> EvenModel {
        self.mul_even(value).rounded().mul_odd(self.inv().rounded()).rounded()
    }

    /// The conjugate as it is computed: each of the inverse, the first
    /// product and the second product is rounded to the denominator `UNIT`.
    pub open spec fn stored_sandwich_odd(self, value: OddModel) -> OddModel {
        self.mul_odd(value).rounded().mul_odd(self.inv().rounded()).rounded()
    }

    /// The inverse, the first product and the conjugate can all be stored.
    pub open spec fn sandwich_even_fits(self, value: EvenModel) -> bool {
        &&& self.inv().rounded().bounded()
        &&& self.mul_even(value).rounded().bounded()
        &&& self.stored_sandwich_even(value).bounded()
    }

    /// The inverse, the first product and the conjugate can all be stored.
    pub open spec fn sandwich_odd_fits(self, value: OddModel) -> bool {
        &&& self.inv().rounded().bounded()
        &&& self.mul_odd(value).rounded().bounded()
        &&& self.stored_sandwich_odd(value).bounded()
    }
}

} // verus!
