use vstd::prelude::*;

verus! {

/// Depth at which the radiance estimator stops following a path: a hit at this
/// depth contributes its emission and nothing more.
pub const MAX_DEPTH: u32 = 50;

/// Depth of the next bounce after a hit at `depth`, or `None` once the cap is
/// reached.
pub open spec fn spec_next_depth(depth: u32) -> Option<u32> {
    if depth < MAX_DEPTH {
        Some((depth + 1) as u32)
    } else {
        None
    }
}

/// Whether a path that hit a surface at `depth` may still scatter, and at
/// which depth the scattered ray is traced.
pub fn next_depth(depth: u32) -> (r: Option<u32>)
    ensures
        r == spec_next_depth(depth),
{
    if depth < MAX_DEPTH {
        Some(depth + 1)
    } else {
        None
    }
}

/// Largest number of scatter events a path can still have when it is traced at
/// `depth`, following `spec_next_depth` until it gives `None`.
pub open spec fn bounces_left(depth: u32) -> nat
    decreases MAX_DEPTH - depth,
{
    match spec_next_depth(depth) {
        Some(next) => 1 + bounces_left(next),
        None => 0,
    }
}

/// A path traced from depth `depth` scatters at most `MAX_DEPTH - depth` more
/// times; from depth 0, at most `MAX_DEPTH` times in all. No bounce beyond the
/// cap is ever followed.
pub proof fn lemma_depth_cap(depth: u32)
    ensures
        bounces_left(depth) == if depth < MAX_DEPTH {
            (MAX_DEPTH - depth) as nat
        } else {
            0
        },
    decreases MAX_DEPTH - depth,
{
    if depth < MAX_DEPTH {
        lemma_depth_cap((depth + 1) as u32);
    }
}

} // verus!
