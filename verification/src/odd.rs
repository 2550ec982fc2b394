//! Odd elements: a vector plus a trivector.

use vstd::prelude::*;
use crate::error::VersorError;
use crate::exact::{
    in_range, int_sqrt, lemma_isqrt, lemma_root_at_least, lemma_trunc_cancel, lemma_unit, lift_up,
    narrow, sum4_scaled, sum_of_squares, wide_mul, wide_shl_div, LIMIT, PLACES, UNIT,
};
use crate::laws::lemma_rev_odd;
use crate::model::{OddModel, RatioModel};
use crate::normalize_laws::lemma_normalize_odd;
use crate::rounding::{
    lemma_inverse_identity_stored_odd, lemma_same_denominator,
    lemma_sandwich_magnitude_stored_odd_even, lemma_sandwich_magnitude_stored_odd_odd,
    near_identity, spread_odd,
};
use crate::even::{pack_even, EvenVersor};
use crate::ratio::Ratio;
use crate::versor::{Element, Versor};

verus! {

/// The element `xyz e_xyz + x e_x + y e_y + z e_z`, each component
/// held as a whole number of `1 / UNIT`.
#[derive(Clone, Copy, Debug, PartialEq, Eq, Structural)]
pub struct OddVersor {
    pub xyz: i64,
    pub x: i64,
    pub y: i64,
    pub z: i64,
}

impl View for OddVersor {
    type V = OddModel;

    open spec fn view(&self) -> OddModel {
        OddModel {
            xyz: self.xyz as int,
            x: self.x as int,
            y: self.y as int,
            z: self.z as int,
            den: UNIT as int,
        }
    }
}

/// Puts the parts of a result together, if every one of them fits.
pub(crate) fn pack_odd(
    xyz: Option<i64>,
    x: Option<i64>,
    y: Option<i64>,
    z: Option<i64>,
) -> (r: Result<OddVersor, VersorError>)
    ensures
        r is Ok <==> xyz is Some && x is Some && y is Some && z is Some,
        r matches Ok(e) ==> xyz == Some(e.xyz) && x == Some(e.x) && y == Some(e.y)
            && z == Some(e.z),
        r matches Err(e) ==> e == VersorError::Overflow,
{
    match (xyz, x, y, z) {
        (Some(xyz), Some(x), Some(y), Some(z)) => Ok(OddVersor { xyz, x, y, z }),
        _ => Err(VersorError::Overflow),
    }
}

impl Element for OddVersor {
    open spec fn wf(self) -> bool {
        self@.bounded()
    }

    open spec fn magnitude(self) -> RatioModel {
        self@.mag2()
    }
}

impl Versor for OddVersor {
    type Even = EvenVersor;

    type Odd = OddVersor;

    /// The sum of the squares of the components, exactly: the sum of the
    /// squares of the numerators over the square of `UNIT`.
    fn mag2(self) -> (r: Result<Ratio, VersorError>)
        ensures
            r matches Ok(q) ==> q.num == self@.norm() && q.den == UNIT * UNIT,
    {
        let num: u128 = sum_of_squares(self.xyz, self.x, self.y, self.z);
        if num <= 0x7fff_ffff_ffff_ffff_ffff_ffff_ffff_ffff {
            Ok(Ratio { num: num as i128, den: (UNIT as i128) * (UNIT as i128) })
        } else {
            Err(VersorError::Overflow)
        }
    }

    /// The element with its trivector part negated.
    fn rev(self) -> (r: OddVersor)
        ensures
            r@ == self@.rev(),
            r@.rev() == self@,
    {
        proof {
            lemma_rev_odd(self@);
        }
        OddVersor { xyz: -self.xyz, x: self.x, y: self.y, z: self.z }
    }

    /// The reverse divided by the squared magnitude, rounded. The element
    /// times what is returned is one within a few units of `1 / UNIT`.
    fn inv(self) -> (r: Result<OddVersor, VersorError>)
        ensures
            self@.norm() == 0 ==> r == Err::<OddVersor, VersorError>(
                VersorError::DegenerateVersor,
            ),
            self@.norm() != 0 && !self@.inv().rounded().bounded() ==> r == Err::<
                OddVersor,
                VersorError,
            >(VersorError::Overflow),
            self@.norm() != 0 && self@.inv().rounded().bounded() ==> (r matches Ok(i) && i@
                == self@.inv().rounded()),
            r matches Ok(i) ==> near_identity(self@.mul_odd(i@).rounded(), spread_odd(self@)),
    {
        proof {
            if self@.norm() != 0 {
                lemma_inverse_identity_stored_odd(self@);
            }
        }
        let norm: u128 = sum_of_squares(self.xyz, self.x, self.y, self.z);
        if norm == 0 {
            Err(VersorError::DegenerateVersor)
        } else {
            proof {
                lemma_unit(self@.inv().xyz);
                lemma_unit(self@.inv().x);
                lemma_unit(self@.inv().y);
                lemma_unit(self@.inv().z);
            }
            pack_odd(
                wide_shl_div(wide_mul(-self.xyz, UNIT), PLACES, norm),
                wide_shl_div(wide_mul(self.x, UNIT), PLACES, norm),
                wide_shl_div(wide_mul(self.y, UNIT), PLACES, norm),
                wide_shl_div(wide_mul(self.z, UNIT), PLACES, norm),
            )
        }
    }

    /// The element divided by its magnitude, rounded.
    fn normalize(self) -> (r: Result<OddVersor, VersorError>)
        ensures
            self@.norm() == 0 ==> r == Err::<OddVersor, VersorError>(
                VersorError::DegenerateVersor,
            ),
            self@.norm() != 0 ==> (r matches Ok(u) && u@ == self@.normalize()),
    {
        let norm: u128 = sum_of_squares(self.xyz, self.x, self.y, self.z);
        if norm == 0 {
            return Err(VersorError::DegenerateVersor);
        }
        let (lifted, places) = lift_up(norm);
        proof {
            lemma_isqrt(lifted as int);
            lemma_root_at_least(lifted as int, 1);
            lemma_normalize_odd(self@);
        }
        let root: u64 = int_sqrt(lifted);
        pack_odd(
                wide_shl_div(self.xyz as i128, PLACES + places, root as u128),
                wide_shl_div(self.x as i128, PLACES + places, root as u128),
                wide_shl_div(self.y as i128, PLACES + places, root as u128),
                wide_shl_div(self.z as i128, PLACES + places, root as u128),
        )
    }

    /// `self * value * inv(self)` for an even `value`, rounded after each
    /// step.
    fn sandwich_even(self, value: EvenVersor) -> (r: Result<EvenVersor, VersorError>)
        ensures
            self@.norm() == 0 ==> r == Err::<EvenVersor, VersorError>(
                VersorError::DegenerateVersor,
            ),
            self@.norm() != 0 && !self@.sandwich_even_fits(value@) ==> r == Err::<
                EvenVersor,
                VersorError,
            >(VersorError::Overflow),
            self@.norm() != 0 && self@.sandwich_even_fits(value@) ==> (r matches Ok(w) && w@
                == self@.stored_sandwich_even(value@)),
    {
        proof {
            if self@.norm() != 0 {
                lemma_sandwich_magnitude_stored_odd_even(self@, value@);
                lemma_same_denominator(
                    self@.stored_sandwich_even(value@).norm(),
                    value@.norm(),
                    UNIT * UNIT,
                );
            }
        }
        match self.inv() {
            Err(e) => Err(e),
            Ok(inverse) => match self.mul_even(value) {
                Err(e) => Err(e),
                Ok(product) => product.mul_odd(inverse),
            },
        }
    }

    /// `self * value * inv(self)` for an odd `value`, rounded after each
    /// step.
    fn sandwich_odd(self, value: OddVersor) -> (r: Result<OddVersor, VersorError>)
        ensures
            self@.norm() == 0 ==> r == Err::<OddVersor, VersorError>(
                VersorError::DegenerateVersor,
            ),
            self@.norm() != 0 && !self@.sandwich_odd_fits(value@) ==> r == Err::<
                OddVersor,
                VersorError,
            >(VersorError::Overflow),
            self@.norm() != 0 && self@.sandwich_odd_fits(value@) ==> (r matches Ok(w) && w@
                == self@.stored_sandwich_odd(value@)),
    {
        proof {
            if self@.norm() != 0 {
                lemma_sandwich_magnitude_stored_odd_odd(self@, value@);
                lemma_same_denominator(
                    self@.stored_sandwich_odd(value@).norm(),
                    value@.norm(),
                    UNIT * UNIT,
                );
            }
        }
        match self.inv() {
            Err(e) => Err(e),
            Ok(inverse) => match self.mul_odd(value) {
                Err(e) => Err(e),
                Ok(product) => product.mul_odd(inverse),
            },
        }
    }

}

impl OddVersor {
    /// The element with the given components, each a whole number of
    /// `1 / UNIT`, unless one of them cannot be negated.
    pub fn new(xyz: i64, x: i64, y: i64, z: i64) -> (r: Option<OddVersor>)
        ensures
            r is Some <==> (OddVersor { xyz, x, y, z }).wf(),
            r matches Some(e) ==> e == (OddVersor { xyz, x, y, z }),
    {
        if xyz >= -LIMIT && x >= -LIMIT && y >= -LIMIT && z >= -LIMIT {
            Some(OddVersor { xyz, x, y, z })
        } else {
            None
        }
    }

    /// The pure vector `x e_x + y e_y + z e_z` with whole components.
    pub fn from_vec(x: i64, y: i64, z: i64) -> (r: OddVersor)
        requires
            in_range(x * UNIT),
            in_range(y * UNIT),
            in_range(z * UNIT),
        ensures
            r@ == OddModel::from_vec(x as int, y as int, z as int),
            r.wf(),
    {
        OddVersor { xyz: 0, x: x * UNIT, y: y * UNIT, z: z * UNIT }
    }

    /// The vector part: the trivector component becomes zero.
    pub fn vec(self) -> (r: OddVersor)
        ensures
            r@ == self@.vec(),
            self.wf() ==> r.wf(),
    {
        OddVersor { xyz: 0, x: self.x, y: self.y, z: self.z }
    }

    /// The sum of two odd elements, which is exact.
    pub fn add(self, rhs: OddVersor) -> (r: Result<OddVersor, VersorError>)
        requires
            self.wf(),
            rhs.wf(),
        ensures
            r is Ok <==> self@.add(rhs@).bounded(),
            r matches Ok(e) ==> e@ == self@.add(rhs@),
            r matches Err(e) ==> e == VersorError::Overflow,
    {
        pack_odd(
            narrow(self.xyz as i128 + rhs.xyz as i128),
            narrow(self.x as i128 + rhs.x as i128),
            narrow(self.y as i128 + rhs.y as i128),
            narrow(self.z as i128 + rhs.z as i128),
        )
    }

    /// The difference of two odd elements, which is exact.
    pub fn sub(self, rhs: OddVersor) -> (r: Result<OddVersor, VersorError>)
        requires
            self.wf(),
            rhs.wf(),
        ensures
            r is Ok <==> self@.sub(rhs@).bounded(),
            r matches Ok(e) ==> e@ == self@.sub(rhs@),
            r matches Err(e) ==> e == VersorError::Overflow,
    {
        pack_odd(
            narrow(self.xyz as i128 - rhs.xyz as i128),
            narrow(self.x as i128 - rhs.x as i128),
            narrow(self.y as i128 - rhs.y as i128),
            narrow(self.z as i128 - rhs.z as i128),
        )
    }

    /// The geometric product with an odd element, which is even, rounded.
    pub fn mul_odd(self, rhs: OddVersor) -> (r: Result<EvenVersor, VersorError>)
        requires
            self.wf(),
            rhs.wf(),
        ensures
            r is Ok <==> self@.mul_odd(rhs@).rounded().bounded(),
            r matches Ok(e) ==> e@ == self@.mul_odd(rhs@).rounded(),
            r matches Err(e) ==> e == VersorError::Overflow,
    {
        proof {
            lemma_trunc_cancel(self@.mul_odd(rhs@).sca);
            lemma_trunc_cancel(self@.mul_odd(rhs@).yz);
            lemma_trunc_cancel(self@.mul_odd(rhs@).zx);
            lemma_trunc_cancel(self@.mul_odd(rhs@).xy);
        }
        pack_even(
            sum4_scaled(
                wide_mul(self.x, rhs.x),
                wide_mul(self.y, rhs.y),
                wide_mul(self.z, rhs.z),
                -wide_mul(self.xyz, rhs.xyz),
            ),
            sum4_scaled(
                wide_mul(self.x, rhs.xyz),
                wide_mul(self.xyz, rhs.x),
                wide_mul(self.y, rhs.z),
                -wide_mul(self.z, rhs.y),
            ),
            sum4_scaled(
                wide_mul(self.y, rhs.xyz),
                wide_mul(self.xyz, rhs.y),
                wide_mul(self.z, rhs.x),
                -wide_mul(self.x, rhs.z),
            ),
            sum4_scaled(
                wide_mul(self.z, rhs.xyz),
                wide_mul(self.xyz, rhs.z),
                wide_mul(self.x, rhs.y),
                -wide_mul(self.y, rhs.x),
            ),
        )
    }

    /// The geometric product with an even element, rounded.
    pub fn mul_even(self, rhs: EvenVersor) -> (r: Result<OddVersor, VersorError>)
        requires
            self.wf(),
            rhs.wf(),
        ensures
            r is Ok <==> self@.mul_even(rhs@).rounded().bounded(),
            r matches Ok(e) ==> e@ == self@.mul_even(rhs@).rounded(),
            r matches Err(e) ==> e == VersorError::Overflow,
    {
        proof {
            lemma_trunc_cancel(self@.mul_even(rhs@).xyz);
            lemma_trunc_cancel(self@.mul_even(rhs@).x);
            lemma_trunc_cancel(self@.mul_even(rhs@).y);
            lemma_trunc_cancel(self@.mul_even(rhs@).z);
        }
        pack_odd(
            sum4_scaled(
                wide_mul(self.xyz, rhs.sca),
                wide_mul(self.x, rhs.yz),
                wide_mul(self.y, rhs.zx),
                wide_mul(self.z, rhs.xy),
            ),
            sum4_scaled(
                wide_mul(self.x, rhs.sca),
                -wide_mul(self.xyz, rhs.yz),
                wide_mul(self.z, rhs.zx),
                -wide_mul(self.y, rhs.xy),
            ),
            sum4_scaled(
                wide_mul(self.y, rhs.sca),
                -wide_mul(self.xyz, rhs.zx),
                wide_mul(self.x, rhs.xy),
                -wide_mul(self.z, rhs.yz),
            ),
            sum4_scaled(
                wide_mul(self.z, rhs.sca),
                -wide_mul(self.xyz, rhs.xy),
                wide_mul(self.y, rhs.yz),
                -wide_mul(self.x, rhs.zx),
            ),
        )
    }
}

} // verus!
