//! A small bare-metal runtime core: a text-mode display driver over a grid of
//! volatile cells, and bounded per-process mailboxes for message passing.

pub mod ipc;
pub mod string;
pub mod vga_buffer;

use vstd::prelude::*;

verus! {

/// Busy-wait rounds per unit of `pause_execution`.
pub const SPINS_PER_UNIT: u64 = 10_000_000;

/// Relies on core::hint::spin_loop: a hint to the processor, with no effect
/// on program state.
#[verifier::external_body]
fn spin_hint() {
    core::hint::spin_loop()
}

/// Busy-waits for `iterations * SPINS_PER_UNIT` rounds of the spin hint.
pub fn pause_execution(iterations: u64)
    requires
        iterations * SPINS_PER_UNIT <= u64::MAX,
{
    let total = iterations * SPINS_PER_UNIT;
    let mut i: u64 = 0;
    while i < total
        invariant
            i <= total,
        decreases total - i,
    {
        spin_hint();
        i = i + 1;
    }
}

} // verus!
