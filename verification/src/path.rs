use vstd::prelude::*;

verus! {

/// Deepest bounce at which a path is still extended.
pub const MAX_DEPTH: i32 = 10;

/// Deepest bounce at which a path is extended without Russian roulette.
pub const ROULETTE_DEPTH: i32 = 3;

/// What happens to a path that reaches a given bounce depth.
#[derive(Clone, Copy, Debug, PartialEq, Eq, Structural)]
pub enum Bounce {
    /// The path contributes nothing more.
    Terminate,
    /// The path survives with a probability that follows its throughput.
    Roulette,
    /// The path goes on.
    Continue,
}

/// The fate of a path at bounce `depth`: cut off past the maximum depth,
/// subject to Russian roulette past the roulette depth, extended otherwise.
pub fn bounce_action(depth: i32) -> (r: Bounce)
    ensures
        r == Bounce::Terminate <==> depth > MAX_DEPTH,
        r == Bounce::Roulette <==> ROULETTE_DEPTH < depth <= MAX_DEPTH,
        r == Bounce::Continue <==> depth <= ROULETTE_DEPTH,
{
    if depth > MAX_DEPTH {
        Bounce::Terminate
    } else if depth > ROULETTE_DEPTH {
        Bounce::Roulette
    } else {
        Bounce::Continue
    }
}

} // verus!
