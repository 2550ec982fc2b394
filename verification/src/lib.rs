//! Geometric algebra of three-dimensional Euclidean space, restricted to its
//! even (scalar + bivector) and odd (vector + trivector) parts, in
//! fixed-point arithmetic.
//!
//! Every component is stored as a whole number of `1 / UNIT`, where `UNIT`
//! is two to the power 44: about thirteen decimal places, for components up
//! to half a million in magnitude. Sums, differences and reversion are
//! exact. A product, an inverse or a unit element is the exact result
//! rounded towards zero, so less than `1 / UNIT` is lost in each component
//! at each step; the contracts say which exact result was rounded.
//!
//! Two things can go wrong, and both are reported rather than passed on in
//! the result. An element of magnitude zero has no inverse and no direction:
//! `inv`, `normalize`, the conjugations and the rotor constructors answer
//! [`VersorError::DegenerateVersor`]. A result may have a component too
//! large to store: the operation answers [`VersorError::Overflow`] then, and
//! only then.
//!
//! The modules [`model`], [`dual`], [`laws`], [`associativity`] and
//! [`round_trip`] hold the exact algebra; [`rounding`], [`normalize_laws`]
//! and [`rotor_laws`] say how close to it the stored results are. [`text`]
//! writes elements out in decimal digits.

pub mod error;
pub mod exact;
pub mod model;
pub mod ratio;
pub mod versor;
pub mod even;
pub mod odd;
pub mod rotor;
pub mod text;
pub mod identities;
pub mod dual;
pub mod laws;
pub mod normalize_laws;
pub mod rounding;
pub mod associativity;
pub mod round_trip;
pub mod rotor_laws;

pub use error::VersorError;
pub use even::EvenVersor;
pub use odd::OddVersor;
pub use ratio::Ratio;
pub use rotor::Rotor;
pub use versor::{Element, Versor};
