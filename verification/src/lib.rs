//! A verified core for an escape-time fractal rasterizer, together with the
//! small arithmetic routines that accompany it: greatest common divisors,
//! pair parsing, image geometry, band partitioning for parallel rendering,
//! intensity encoding, and a PNG codec boundary.

pub mod bands;
pub mod codec;
pub mod gcd;
pub mod geometry;
pub mod intensity;
pub mod parse;

pub use gcd::gcd;
pub use parse::parse_pair;

