//! Rotors: even elements of unit magnitude, which turn what they conjugate.

use vstd::prelude::*;
use crate::error::VersorError;
use crate::even::EvenVersor;
use crate::exact::{wide_mul, UNIT};
use crate::model::{EvenModel, OddModel, RatioModel};
use crate::odd::OddVersor;
use crate::ratio::Ratio;
use crate::rotor_laws::{
    identity_within, lemma_angle_rotor_magnitude, lemma_identity_rotor, lemma_rotor_fits,
    lemma_rotor_magnitude,
};
use crate::versor::{near_one_product, Element, Versor};

verus! {

/// An even element meant to have magnitude one.
pub type Rotor = EvenVersor;

/// `m` itself if it can be stored, the overflow error if not.
pub open spec fn stored_even(m: EvenModel) -> Result<EvenModel, VersorError> {
    if m.bounded() {
        Ok(m)
    } else {
        Err(VersorError::Overflow)
    }
}

/// `m` itself if it can be stored, the overflow error if not.
pub open spec fn stored_odd(m: OddModel) -> Result<OddModel, VersorError> {
    if m.bounded() {
        Ok(m)
    } else {
        Err(VersorError::Overflow)
    }
}

/// The vector parts point in exactly opposite directions: they are
/// parallel, and their inner product is negative.
pub open spec fn opposed(a: OddModel, b: OddModel) -> bool {
    &&& a.y * b.z - a.z * b.y == 0
    &&& a.z * b.x - a.x * b.z == 0
    &&& a.x * b.y - a.y * b.x == 0
    &&& a.x * b.x + a.y * b.y + a.z * b.z < 0
}

/// The rotor between the directions of `a` and `b` along the shorter arc:
/// the product of the unit vector along `a` with the unit vector halfway
/// between the two directions, each rounded as it is stored.
///
/// Conjugation by this rotor turns the direction of `b` into that of `a`.
///
/// A vector part that is zero has no direction, and opposite directions
/// have no halfway direction: both are degenerate. So is a pair whose
/// rounded unit vectors cancel. Nothing else can go wrong: every step
/// fits.
pub open spec fn rotor_from_vectors(a: OddModel, b: OddModel) -> Result<EvenModel, VersorError> {
    if a.vec().norm() == 0 || b.vec().norm() == 0 || opposed(a, b) {
        Err(VersorError::DegenerateVersor)
    } else {
        let unit_a = a.vec().normalize();
        let unit_b = b.vec().normalize();
        match stored_odd(unit_a.add(unit_b)) {
            Err(e) => Err(e),
            Ok(sum) => if sum.norm() == 0 {
                Err(VersorError::DegenerateVersor)
            } else {
                stored_even(unit_a.mul_odd(sum.normalize()).rounded())
            },
        }
    }
}

/// The rotor about the plane of the bivector part of `plane`, given the
/// cosine and the sine of half the angle: `cos + unit_plane * sin`, each
/// step rounded as it is stored.
///
/// An element without a bivector part names no plane. After that each step
/// can fail to fit, and the first failure is the result.
pub open spec fn rotor_from_bivector_angle(
    plane: EvenModel,
    cos_half: RatioModel,
    sin_half: RatioModel,
) -> Result<EvenModel, VersorError> {
    if plane.bivec().norm() == 0 {
        Err(VersorError::DegenerateVersor)
    } else {
        let unit = plane.bivec().normalize();
        match stored_even(EvenModel::from_sca(sin_half).rounded()) {
            Err(e) => Err(e),
            Ok(sine) => match stored_even(unit.mul_even(sine).rounded()) {
                Err(e) => Err(e),
                Ok(turned) => match stored_even(EvenModel::from_sca(cos_half).rounded()) {
                    Err(e) => Err(e),
                    Ok(cosine) => stored_even(cosine.add(turned)),
                },
            },
        }
    }
}

/// The cosine and the sine as they are stored have squares that sum to one
/// within 16 units of `1 / UNIT`, as those of an angle do.
pub open spec fn on_unit_circle(cos_half: RatioModel, sin_half: RatioModel) -> bool {
    let c = EvenModel::from_sca(cos_half).rounded().sca;
    let s = EvenModel::from_sca(sin_half).rounded().sca;
    UNIT * UNIT - 16 * UNIT <= c * c + s * s <= UNIT * UNIT + 16 * UNIT
}

/// The model of a result: the model of the element, or the error.
pub open spec fn result_view(r: Result<EvenVersor, VersorError>) -> Result<
    EvenModel,
    VersorError,
> {
    match r {
        Ok(e) => Ok(e@),
        Err(e) => Err(e),
    }
}

/// Whether the vector parts point in exactly opposite directions.
pub fn opposed_vectors(a: OddVersor, b: OddVersor) -> (r: bool)
    requires
        a.wf(),
        b.wf(),
    ensures
        r == opposed(a@, b@),
{
    let yz: i128 = wide_mul(a.y, b.z) - wide_mul(a.z, b.y);
    let zx: i128 = wide_mul(a.z, b.x) - wide_mul(a.x, b.z);
    let xy: i128 = wide_mul(a.x, b.y) - wide_mul(a.y, b.x);
    let xx_yy: i128 = wide_mul(a.x, b.x) + wide_mul(a.y, b.y);
    let zz: i128 = wide_mul(a.z, b.z);
    yz == 0 && zx == 0 && xy == 0 && xx_yy < -zz
}

impl Rotor {
    /// The rotor between the directions of `a` and `b` along the shorter
    /// arc, of magnitude one within `4 / TOLERANCE`. Vectors without a
    /// direction, and vectors in opposite directions, have none.
    pub fn from_vectors(a: OddVersor, b: OddVersor) -> (r: Result<Rotor, VersorError>)
        requires
            a.wf(),
            b.wf(),
        ensures
            result_view(r) == rotor_from_vectors(a@, b@),
            a@.vec().norm() == 0 || b@.vec().norm() == 0 || opposed(a@, b@) ==> r == Err::<
                Rotor,
                VersorError,
            >(VersorError::DegenerateVersor),
            r matches Ok(e) ==> e.wf() && near_one_product(e.magnitude()),
            r matches Err(e) ==> e == VersorError::DegenerateVersor,
            a@ == b@ ==> (r matches Ok(e) ==> identity_within(e@, 64)),
    {
        proof {
            lemma_rotor_magnitude(a@, b@);
            lemma_rotor_fits(a@, b@);
            lemma_identity_rotor(a@);
        }
        let unit_a = match a.vec().normalize() {
            Ok(u) => u,
            Err(e) => { return Err(e); },
        };
        let unit_b = match b.vec().normalize() {
            Ok(u) => u,
            Err(e) => { return Err(e); },
        };
        if opposed_vectors(a, b) {
            return Err(VersorError::DegenerateVersor);
        }
        let sum = match unit_a.add(unit_b) {
            Ok(s) => s,
            Err(e) => { return Err(e); },
        };
        let mid = match sum.normalize() {
            Ok(m) => m,
            Err(e) => { return Err(e); },
        };
        unit_a.mul_odd(mid)
    }

    /// The rotor about the plane of the bivector part of `plane`, given the
    /// cosine and the sine of half the angle of rotation. Where their
    /// squares sum to one, the rotor has magnitude one within
    /// `4 / TOLERANCE`, whatever the size of `plane`.
    pub fn from_bivector_angle(plane: EvenVersor, cos_half: Ratio, sin_half: Ratio) -> (r: Result<
        Rotor,
        VersorError,
    >)
        requires
            plane.wf(),
            cos_half.wf(),
            sin_half.wf(),
        ensures
            result_view(r) == rotor_from_bivector_angle(plane@, cos_half@, sin_half@),
            plane@.bivec().norm() == 0 <==> r == Err::<Rotor, VersorError>(
                VersorError::DegenerateVersor,
            ),
            r matches Ok(e) ==> e.wf(),
            r matches Ok(e) ==> on_unit_circle(cos_half@, sin_half@) ==> near_one_product(
                e.magnitude(),
            ),
    {
        proof {
            if on_unit_circle(cos_half@, sin_half@) {
                lemma_angle_rotor_magnitude(plane@, cos_half@, sin_half@);
            }
        }
        let unit = match plane.bivec().normalize() {
            Ok(u) => u,
            Err(e) => { return Err(e); },
        };
        let sine = match EvenVersor::from_sca(sin_half) {
            Ok(s) => s,
            Err(e) => { return Err(e); },
        };
        let turned = match unit.mul_even(sine) {
            Ok(t) => t,
            Err(e) => { return Err(e); },
        };
        let cosine = match EvenVersor::from_sca(cos_half) {
            Ok(c) => c,
            Err(e) => { return Err(e); },
        };
        cosine.add(turned)
    }
}

} // verus!
