use vstd::prelude::*;

verus! {

/// What a material does with a ray that reached it: it goes on (`Yes`,
/// usually with the outgoing ray and the attenuation), or it stops (`No`).
pub enum Scattered<T, E> {
    Yes(T),
    No(E),
}

impl<T, E> Scattered<T, E> {
    /// Whether the ray goes on.
    pub fn goes_on(&self) -> (r: bool)
        ensures
            r == (self is Yes),
    {
        match self {
            Scattered::Yes(_) => true,
            Scattered::No(_) => false,
        }
    }
}

} // verus!
