//! Index plan of the phase regeneration kernel.

use vstd::prelude::*;

use crate::mbe_baseline::L_MAX;

verus! {

/// Half width of the kernel.
pub const PHASE_KERNEL_D: usize = 19;

/// The harmonics at distance `m` above and below harmonic `l` that the kernel
/// reads in a frame of `count` harmonics; `None` where the frame has none, which
/// contributes nothing.
pub fn ambe_phase_regen(l: usize, m: usize, count: usize) -> (neighbours: (
    Option<usize>,
    Option<usize>,
))
    requires
        1 <= l <= count <= L_MAX,
        1 <= m <= PHASE_KERNEL_D,
    ensures
        neighbours.0 == if l + m <= count { Some((l + m) as usize) } else { None::<usize> },
        neighbours.1 == if l > m { Some((l - m) as usize) } else { None::<usize> },
{
    let above = if l + m <= count { Some(l + m) } else { None };
    let below = if l > m { Some(l - m) } else { None };
    (above, below)
}

/// The kernel reads symmetrically: harmonic `k` lies above `l` at distance `m`
/// exactly if `l` lies below `k` at that distance.
pub proof fn law_neighbours_symmetric(l: int, k: int, m: int, count: int)
    requires
        1 <= l <= count <= L_MAX,
        1 <= k <= count,
        1 <= m <= PHASE_KERNEL_D,
    ensures
        (l + m <= count && l + m == k) <==> (k > m && k - m == l),
{
}

} // verus!
