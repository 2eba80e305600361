use vstd::prelude::*;

verus! {

/// How a sampler loops its sample.
#[derive(Debug, Clone, Copy, PartialEq, Eq, Structural)]
pub enum LoopType {
    Off,
    Forward,
    Backward,
    PingPong,
}

impl Default for LoopType {
    fn default() -> (l: Self)
        ensures
            l == LoopType::Off,
    {
        LoopType::Off
    }
}

} // verus!
