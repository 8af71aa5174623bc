//! Index arithmetic of the two-sided spectra.
//!
//! A 256-point spectrum is stored with slot `i` holding bin `i` for `i` up to
//! 128 and bin `i - 256` above.

use vstd::prelude::*;

verus! {

/// Points of the per-frame signal transform.
pub const DFT_SIZE: usize = 256;

/// Points of the window transform.
pub const WINDOW_DFT_SIZE: usize = 16384;

/// Half support of the refinement window.
pub const W_R_HALF: i32 = 110;

/// The slot that holds bin `m`.
pub fn packed_index(m: i32) -> (slot: usize)
    requires
        m >= -256,
    ensures
        slot == m as int % 256,
        slot < DFT_SIZE,
{
    if m < 0 {
        (m + 256) as usize
    } else {
        let wide: usize = m as usize;
        assert(wide & 255 == wide % 256) by (bit_vector);
        wide & (DFT_SIZE - 1)
    }
}

/// The bin that slot `idx` holds.
pub fn unpacked_m(idx: usize) -> (m: i32)
    requires
        idx <= i32::MAX,
    ensures
        m == if idx <= 128 { idx as int } else { idx - 256 },
{
    if idx <= DFT_SIZE / 2 {
        idx as i32
    } else {
        idx as i32 - 256
    }
}

/// Packing and unpacking are inverse on the slots and on the bins from -127 to
/// 128.
pub proof fn law_packing_inverse(m: int, idx: int)
    requires
        -127 <= m <= 128,
        0 <= idx < DFT_SIZE,
    ensures
        ({
            let slot = m % 256;
            m == if slot <= 128 { slot } else { slot - 256 }
        }),
        (if idx <= 128 { idx } else { idx - 256 }) % 256 == idx,
{
}

/// Entry of a centred table that covers `-half..=half`; `None` off the table.
pub fn centred_slot(n: i32, half: i32) -> (slot: Option<usize>)
    requires
        0 <= half <= 0x3FFF_FFFF,
    ensures
        slot == if -half <= n <= half { Some((n + half) as usize) } else { None::<usize> },
{
    if 0 - half <= n && n <= half {
        Some((n + half) as usize)
    } else {
        None
    }
}

/// Entry of the symmetric window spectrum for bin `k`: its magnitude, or
/// `None` past the stored half.
pub fn window_spectrum_slot(k: i32) -> (slot: Option<usize>)
    ensures
        ({
            let magnitude = if k < 0 { -k } else { k as int };
            slot == if magnitude <= 8192 { Some(magnitude as usize) } else { None::<usize> }
        }),
{
    if k < -8192 || k > 8192 {
        None
    } else if k < 0 {
        Some((0 - k) as usize)
    } else {
        Some(k as usize)
    }
}

/// The slots of bins `m_lo` up to but not including `m_hi`.
pub fn bin_slots(m_lo: i32, m_hi: i32) -> (slots: Vec<usize>)
    requires
        m_lo >= -256,
    ensures
        slots@.len() == if m_lo < m_hi { m_hi - m_lo } else { 0int },
        forall|i: int| 0 <= i < slots@.len() ==> #[trigger] slots@[i] == (m_lo + i) % 256,
{
    let mut slots: Vec<usize> = Vec::new();
    let mut m: i32 = m_lo;
    while m < m_hi
        invariant
            -256 <= m_lo <= m,
            m <= m_hi || m == m_lo,
            slots@.len() == m - m_lo,
            forall|i: int| 0 <= i < slots@.len() ==> #[trigger] slots@[i] == (m_lo + i) % 256,
        decreases m_hi - m,
    {
        slots.push(packed_index(m));
        m = m + 1;
    }
    slots
}

/// The slot of a bin and the bin itself differ by a whole number of spectra, so
/// bins a spectrum apart share a slot.
pub proof fn law_slots_are_periodic(m: int, slot: int)
    requires
        slot == m % 256,
    ensures
        0 <= slot < 256,
        (slot - m) % 256 == 0,
        (m + 256) % 256 == slot,
        0 <= m < 256 ==> slot == m,
        -256 <= m < 0 ==> slot == m + 256,
{
}

} // verus!
