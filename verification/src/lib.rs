//! Parametric polynomial curves of degree one to three, together with an
//! adaptive engine that approximates a cubic curve by a sequence of quadratic
//! curves within a caller-chosen tolerance.
//!
//! Coordinates are exact rational numbers ([`Rat`]), so degree elevation,
//! de Casteljau subdivision and the least-squares degree reduction are carried
//! out without rounding, and the algebraic laws relating them are proved.

#![allow(unused_imports)]

pub mod align;
pub mod approximate;
pub mod approximation;
pub mod bezier;
pub mod compare;
pub mod evaluate;
pub mod expand;
pub mod frac;
pub mod goodness;
pub mod rat;
pub mod reduce;
pub mod subdivide;
pub mod trace;

pub use align::Align;
pub use approximate::Approximate;
pub use approximation::Approximation;
pub use compare::Compare;
pub use evaluate::Evaluate;
pub use expand::Expand;
pub use goodness::Goodness;
pub use rat::Rat;
pub use reduce::Reduce;
pub use subdivide::Subdivide;
pub use trace::Trace;
