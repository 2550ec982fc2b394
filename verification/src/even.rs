//! Even elements: a scalar plus a bivector.

use vstd::prelude::*;
use crate::error::VersorError;
use crate::exact::{
    in_range, int_sqrt, lemma_isqrt, lemma_root_at_least, lemma_trunc_cancel, lemma_unit, lift_up,
    narrow, sum4_scaled, sum_of_squares, wide_mul, wide_shl_div, LIMIT, PLACES, UNIT,
};
use crate::identities::lemma_zero_quotient;
use crate::laws::lemma_rev_even;
use crate::model::{EvenModel, RatioModel};
use crate::normalize_laws::lemma_normalize_even;
use crate::rounding::{
    lemma_inverse_identity_stored_even, lemma_same_denominator,
    lemma_sandwich_magnitude_stored_even_even, lemma_sandwich_magnitude_stored_even_odd,
    near_identity, spread_even,
};
use crate::odd::{pack_odd, OddVersor};
use crate::ratio::Ratio;
use crate::versor::{Element, Versor};

verus! {

/// The element `sca + yz e_yz + zx e_zx + xy e_xy`, each component
/// held as a whole number of `1 / UNIT`.
#[derive(Clone, Copy, Debug, PartialEq, Eq, Structural)]
pub struct EvenVersor {
    pub sca: i64,
    pub yz: i64,
    pub zx: i64,
    pub xy: i64,
}

impl View for EvenVersor {
    type V = EvenModel;

    open spec fn view(&self) -> EvenModel {
        EvenModel {
            sca: self.sca as int,
            yz: self.yz as int,
            zx: self.zx as int,
            xy: self.xy as int,
            den: UNIT as int,
        }
    }
}

/// Puts the parts of a result together, if every one of them fits.
pub(crate) fn pack_even(
    sca: Option<i64>,
    yz: Option<i64>,
    zx: Option<i64>,
    xy: Option<i64>,
) -> (r: Result<EvenVersor, VersorError>)
    ensures
        r is Ok <==> sca is Some && yz is Some && zx is Some && xy is Some,
        r matches Ok(e) ==> sca == Some(e.sca) && yz == Some(e.yz) && zx == Some(e.zx)
            && xy == Some(e.xy),
        r matches Err(e) ==> e == VersorError::Overflow,
{
    match (sca, yz, zx, xy) {
        (Some(sca), Some(yz), Some(zx), Some(xy)) => Ok(EvenVersor { sca, yz, zx, xy }),
        _ => Err(VersorError::Overflow),
    }
}

impl Element for EvenVersor {
    open spec fn wf(self) -> bool {
        self@.bounded()
    }

    open spec fn magnitude(self) -> RatioModel {
        self@.mag2()
    }
}

impl Versor for EvenVersor {
    type Even = EvenVersor;

    type Odd = OddVersor;

    /// The sum of the squares of the components, exactly: the sum of the
    /// squares of the numerators over the square of `UNIT`.
    fn mag2(self) -> (r: Result<Ratio, VersorError>)
        ensures
            r matches Ok(q) ==> q.num == self@.norm() && q.den == UNIT * UNIT,
    {
        let num: u128 = sum_of_squares(self.sca, self.yz, self.zx, self.xy);
        if num <= 0x7fff_ffff_ffff_ffff_ffff_ffff_ffff_ffff {
            Ok(Ratio { num: num as i128, den: (UNIT as i128) * (UNIT as i128) })
        } else {
            Err(VersorError::Overflow)
        }
    }

    /// The element with its bivector part negated.
    fn rev(self) -> (r: EvenVersor)
        ensures
            r@ == self@.rev(),
            r@.rev() == self@,
    {
        proof {
            lemma_rev_even(self@);
        }
        EvenVersor { sca: self.sca, yz: -self.yz, zx: -self.zx, xy: -self.xy }
    }

    /// The reverse divided by the squared magnitude, rounded. The element
    /// times what is returned is one within a few units of `1 / UNIT`.
    fn inv(self) -> (r: Result<EvenVersor, VersorError>)
        ensures
            self@.norm() == 0 ==> r == Err::<EvenVersor, VersorError>(
                VersorError::DegenerateVersor,
            ),
            self@.norm() != 0 && !self@.inv().rounded().bounded() ==> r == Err::<
                EvenVersor,
                VersorError,
            >(VersorError::Overflow),
            self@.norm() != 0 && self@.inv().rounded().bounded() ==> (r matches Ok(i) && i@
                == self@.inv().rounded()),
            r matches Ok(i) ==> near_identity(self@.mul_even(i@).rounded(), spread_even(self@)),
    {
        proof {
            if self@.norm() != 0 {
                lemma_inverse_identity_stored_even(self@);
            }
        }
        let norm: u128 = sum_of_squares(self.sca, self.yz, self.zx, self.xy);
        if norm == 0 {
            Err(VersorError::DegenerateVersor)
        } else {
            proof {
                lemma_unit(self@.inv().sca);
                lemma_unit(self@.inv().yz);
                lemma_unit(self@.inv().zx);
                lemma_unit(self@.inv().xy);
            }
            pack_even(
                wide_shl_div(wide_mul(self.sca, UNIT), PLACES, norm),
                wide_shl_div(wide_mul(-self.yz, UNIT), PLACES, norm),
                wide_shl_div(wide_mul(-self.zx, UNIT), PLACES, norm),
                wide_shl_div(wide_mul(-self.xy, UNIT), PLACES, norm),
            )
        }
    }

    /// The element divided by its magnitude, rounded.
    fn normalize(self) -> (r: Result<EvenVersor, VersorError>)
        ensures
            self@.norm() == 0 ==> r == Err::<EvenVersor, VersorError>(
                VersorError::DegenerateVersor,
            ),
            self@.norm() != 0 ==> (r matches Ok(u) && u@ == self@.normalize()),
    {
        let norm: u128 = sum_of_squares(self.sca, self.yz, self.zx, self.xy);
        if norm == 0 {
            return Err(VersorError::DegenerateVersor);
        }
        let (lifted, places) = lift_up(norm);
        proof {
            lemma_isqrt(lifted as int);
            lemma_root_at_least(lifted as int, 1);
            lemma_normalize_even(self@);
        }
        let root: u64 = int_sqrt(lifted);
        pack_even(
                wide_shl_div(self.sca as i128, PLACES + places, root as u128),
                wide_shl_div(self.yz as i128, PLACES + places, root as u128),
                wide_shl_div(self.zx as i128, PLACES + places, root as u128),
                wide_shl_div(self.xy as i128, PLACES + places, root as u128),
        )
    }

    /// `self * value * inv(self)` for an even `value`, rounded after each
    /// step.
    fn sandwich_even(self, value: EvenVersor) -> (r: Result<EvenVersor, VersorError>)
        ensures
            self@.norm() == 0 ==> r == Err::<EvenVersor, VersorError>(
                VersorError::DegenerateVersor,
            ),
            self@.norm() != 0 && !self@.sandwich_even_fits(value@) ==> r == Err::<
                EvenVersor,
                VersorError,
            >(VersorError::Overflow),
            self@.norm() != 0 && self@.sandwich_even_fits(value@) ==> (r matches Ok(w) && w@
                == self@.stored_sandwich_even(value@)),
    {
        proof {
            if self@.norm() != 0 {
                lemma_sandwich_magnitude_stored_even_even(self@, value@);
                lemma_same_denominator(
                    self@.stored_sandwich_even(value@).norm(),
                    value@.norm(),
                    UNIT * UNIT,
                );
            }
        }
        match self.inv() {
            Err(e) => Err(e),
            Ok(inverse) => match self.mul_even(value) {
                Err(e) => Err(e),
                Ok(product) => product.mul_even(inverse),
            },
        }
    }

    /// `self * value * inv(self)` for an odd `value`, rounded after each
    /// step.
    fn sandwich_odd(self, value: OddVersor) -> (r: Result<OddVersor, VersorError>)
        ensures
            self@.norm() == 0 ==> r == Err::<OddVersor, VersorError>(
                VersorError::DegenerateVersor,
            ),
            self@.norm() != 0 && !self@.sandwich_odd_fits(value@) ==> r == Err::<
                OddVersor,
                VersorError,
            >(VersorError::Overflow),
            self@.norm() != 0 && self@.sandwich_odd_fits(value@) ==> (r matches Ok(w) && w@
                == self@.stored_sandwich_odd(value@)),
    {
        proof {
            if self@.norm() != 0 {
                lemma_sandwich_magnitude_stored_even_odd(self@, value@);
                lemma_same_denominator(
                    self@.stored_sandwich_odd(value@).norm(),
                    value@.norm(),
                    UNIT * UNIT,
                );
            }
        }
        match self.inv() {
            Err(e) => Err(e),
            Ok(inverse) => match self.mul_odd(value) {
                Err(e) => Err(e),
                Ok(product) => product.mul_even(inverse),
            },
        }
    }

}

impl EvenVersor {
    /// The element with the given components, each a whole number of
    /// `1 / UNIT`, unless one of them cannot be negated.
    pub fn new(sca: i64, yz: i64, zx: i64, xy: i64) -> (r: Option<EvenVersor>)
        ensures
            r is Some <==> (EvenVersor { sca, yz, zx, xy }).wf(),
            r matches Some(e) ==> e == (EvenVersor { sca, yz, zx, xy }),
    {
        if sca >= -LIMIT && yz >= -LIMIT && zx >= -LIMIT && xy >= -LIMIT {
            Some(EvenVersor { sca, yz, zx, xy })
        } else {
            None
        }
    }

    /// The pure scalar `s`, rounded towards zero to a whole number of
    /// `1 / UNIT`.
    pub fn from_sca(s: Ratio) -> (r: Result<EvenVersor, VersorError>)
        requires
            s.wf(),
        ensures
            r is Ok <==> EvenModel::from_sca(s@).rounded().bounded(),
            r matches Ok(e) ==> e@ == EvenModel::from_sca(s@).rounded(),
            r matches Err(e) ==> e == VersorError::Overflow,
    {
        proof {
            lemma_unit(s.num as int);
            lemma_zero_quotient(s.den as int);
        }
        pack_even(wide_shl_div(s.num, PLACES, s.den as u128), Some(0), Some(0), Some(0))
    }

    /// The pure bivector `yz e_yz + zx e_zx + xy e_xy` with whole components.
    pub fn from_bivec(yz: i64, zx: i64, xy: i64) -> (r: EvenVersor)
        requires
            in_range(yz * UNIT),
            in_range(zx * UNIT),
            in_range(xy * UNIT),
        ensures
            r@ == EvenModel::from_bivec(yz as int, zx as int, xy as int),
            r.wf(),
    {
        EvenVersor { sca: 0, yz: yz * UNIT, zx: zx * UNIT, xy: xy * UNIT }
    }

    /// The scalar part: the bivector components become zero.
    pub fn sca(self) -> (r: EvenVersor)
        ensures
            r@ == self@.sca(),
            self.wf() ==> r.wf(),
    {
        EvenVersor { sca: self.sca, yz: 0, zx: 0, xy: 0 }
    }

    /// The bivector part: the scalar component becomes zero.
    pub fn bivec(self) -> (r: EvenVersor)
        ensures
            r@ == self@.bivec(),
            self.wf() ==> r.wf(),
    {
        EvenVersor { sca: 0, yz: self.yz, zx: self.zx, xy: self.xy }
    }

    /// The sum of two even elements, which is exact.
    pub fn add(self, rhs: EvenVersor) -> (r: Result<EvenVersor, VersorError>)
        requires
            self.wf(),
            rhs.wf(),
        ensures
            r is Ok <==> self@.add(rhs@).bounded(),
            r matches Ok(e) ==> e@ == self@.add(rhs@),
            r matches Err(e) ==> e == VersorError::Overflow,
    {
        pack_even(
            narrow(self.sca as i128 + rhs.sca as i128),
            narrow(self.yz as i128 + rhs.yz as i128),
            narrow(self.zx as i128 + rhs.zx as i128),
            narrow(self.xy as i128 + rhs.xy as i128),
        )
    }

    /// The difference of two even elements, which is exact.
    pub fn sub(self, rhs: EvenVersor) -> (r: Result<EvenVersor, VersorError>)
        requires
            self.wf(),
            rhs.wf(),
        ensures
            r is Ok <==> self@.sub(rhs@).bounded(),
            r matches Ok(e) ==> e@ == self@.sub(rhs@),
            r matches Err(e) ==> e == VersorError::Overflow,
    {
        pack_even(
            narrow(self.sca as i128 - rhs.sca as i128),
            narrow(self.yz as i128 - rhs.yz as i128),
            narrow(self.zx as i128 - rhs.zx as i128),
            narrow(self.xy as i128 - rhs.xy as i128),
        )
    }

    /// The geometric product with an even element, rounded.
    pub fn mul_even(self, rhs: EvenVersor) -> (r: Result<EvenVersor, VersorError>)
        requires
            self.wf(),
            rhs.wf(),
        ensures
            r is Ok <==> self@.mul_even(rhs@).rounded().bounded(),
            r matches Ok(e) ==> e@ == self@.mul_even(rhs@).rounded(),
            r matches Err(e) ==> e == VersorError::Overflow,
    {
        proof {
            lemma_trunc_cancel(self@.mul_even(rhs@).sca);
            lemma_trunc_cancel(self@.mul_even(rhs@).yz);
            lemma_trunc_cancel(self@.mul_even(rhs@).zx);
            lemma_trunc_cancel(self@.mul_even(rhs@).xy);
        }
        pack_even(
            sum4_scaled(
                wide_mul(self.sca, rhs.sca),
                -wide_mul(self.yz, rhs.yz),
                -wide_mul(self.zx, rhs.zx),
                -wide_mul(self.xy, rhs.xy),
            ),
            sum4_scaled(
                wide_mul(self.yz, rhs.sca),
                wide_mul(self.sca, rhs.yz),
                wide_mul(self.xy, rhs.zx),
                -wide_mul(self.zx, rhs.xy),
            ),
            sum4_scaled(
                wide_mul(self.zx, rhs.sca),
                wide_mul(self.sca, rhs.zx),
                wide_mul(self.yz, rhs.xy),
                -wide_mul(self.xy, rhs.yz),
            ),
            sum4_scaled(
                wide_mul(self.xy, rhs.sca),
                wide_mul(self.sca, rhs.xy),
                wide_mul(self.zx, rhs.yz),
                -wide_mul(self.yz, rhs.zx),
            ),
        )
    }

    /// The geometric product with an odd element, rounded.
    pub fn mul_odd(self, rhs: OddVersor) -> (r: Result<OddVersor, VersorError>)
        requires
            self.wf(),
            rhs.wf(),
        ensures
            r is Ok <==> self@.mul_odd(rhs@).rounded().bounded(),
            r matches Ok(e) ==> e@ == self@.mul_odd(rhs@).rounded(),
            r matches Err(e) ==> e == VersorError::Overflow,
    {
        proof {
            lemma_trunc_cancel(self@.mul_odd(rhs@).xyz);
            lemma_trunc_cancel(self@.mul_odd(rhs@).x);
            lemma_trunc_cancel(self@.mul_odd(rhs@).y);
            lemma_trunc_cancel(self@.mul_odd(rhs@).z);
        }
        pack_odd(
            sum4_scaled(
                wide_mul(self.sca, rhs.xyz),
                wide_mul(self.yz, rhs.x),
                wide_mul(self.zx, rhs.y),
                wide_mul(self.xy, rhs.z),
            ),
            sum4_scaled(
                wide_mul(self.sca, rhs.x),
                -wide_mul(self.yz, rhs.xyz),
                wide_mul(self.xy, rhs.y),
                -wide_mul(self.zx, rhs.z),
            ),
            sum4_scaled(
                wide_mul(self.sca, rhs.y),
                -wide_mul(self.zx, rhs.xyz),
                wide_mul(self.yz, rhs.z),
                -wide_mul(self.xy, rhs.x),
            ),
            sum4_scaled(
                wide_mul(self.sca, rhs.z),
                -wide_mul(self.xy, rhs.xyz),
                wide_mul(self.zx, rhs.x),
                -wide_mul(self.yz, rhs.y),
            ),
        )
    }
}

} // verus!
