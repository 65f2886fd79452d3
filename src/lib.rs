//! Generic algebraic structures: rings of integers, polynomial rings and
//! quotient rings and fields, all programmed against one trait hierarchy.
use vstd::prelude::*;

pub mod traits;
pub mod integers;
pub mod polynomials;
pub mod quotient_ring;
pub mod laws;

pub use traits::{
    AdditiveGroup, Domain, EuclideanDomain, Field, IntegralDomain, UnitaryRing, extended_gcd,
};
pub use integers::I32;
pub use polynomials::Polynomials;
pub use quotient_ring::{QuotientField, QuotientRing};
