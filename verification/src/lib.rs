//! The kernel of a path tracer: the algebra of vectors and colours,
//! intersection, scattering and the integration along a path.
//!
//! A number is an IEEE-754 binary64 datum held by its bit pattern, and the
//! arithmetic on it is done with integers: sums, differences, products,
//! quotients and square roots are proved to be the exact results rounded to
//! the nearest number, ties to the even one, which is what IEEE-754 asks of
//! them. On that footing every formula of the kernel has a contract that
//! names its result exactly, and what the kernel decides is proved against
//! the numbers that the bit patterns stand for: which root of a sphere's
//! quadratic a ray hits, which member of an aggregate is nearest, whether a
//! surface absorbs, reflects or refracts, and when a path ends.
//!
//! Left to the caller is what has no such definition: sines, cosines and
//! powers, as a machine's mathematical library computes them. Where the
//! kernel needs one it takes the function as an argument, and its contract
//! speaks of whatever that function hands back.

pub mod scalar;
pub mod round;
pub mod arith;
pub mod root;
pub mod convert;
pub mod order;
pub mod float3;
pub mod color;
pub mod random;
pub mod ray;
pub mod shape;
pub mod texture;
pub mod material;
pub mod trace;
pub mod builder;
pub mod scene;
