//! The divergence result for one point of the plane, and its encoding as
//! an 8-bit pixel intensity.

use vstd::prelude::*;

verus! {

/// How quickly one point diverges: `Escaped(i)` means the point left the
/// radius-2 disk at iteration `i`; `Bounded` means it stayed inside
/// through the whole iteration limit and is presumed a set member.
#[derive(Clone, Copy, Debug, PartialEq, Eq, Structural)]
pub enum DivergenceResult {
    Escaped(usize),
    Bounded,
}

/// The 8-bit intensity of a divergence result: bounded points are black,
/// and an escape at iteration `i` is `255 - i`, so that faster-escaping
/// points render nearer to white. Callers keep the iteration count within
/// an 8-bit limit, so the subtraction cannot underflow.
pub fn encode_intensity(r: DivergenceResult) -> (b: u8)
    requires
        r matches DivergenceResult::Escaped(i) ==> i <= 255,
    ensures
        r is Bounded ==> b == 0,
        r matches DivergenceResult::Escaped(i) ==> b == 255 - i,
{
    match r {
        DivergenceResult::Bounded => 0,
        DivergenceResult::Escaped(i) => 255 - (i as u8),
    }
}

} // verus!
