//! The replay pacing computations.
//!
//! With a time anchor, the sleep before a send is the recorded elapsed
//! time minus the real elapsed time, and never negative: the player only
//! throttles getting ahead, it never blocks to catch up.  Without time
//! sentences, pacing falls back to the wire time of a 38400 baud serial
//! link: eight bits per byte at 38400 bits per second.

use vstd::prelude::*;

verus! {

/// Upper bound on wall-clock milliseconds the pacing arithmetic accepts.
pub const MAX_WALL_MS: i64 = 4000000000000000;

/// The sleep in milliseconds: recorded elapsed time minus real elapsed
/// time, clamped at zero.
pub open spec fn delay_model(target_elapsed_ms: int, actual_elapsed_ms: int) -> int {
    if target_elapsed_ms > actual_elapsed_ms {
        target_elapsed_ms - actual_elapsed_ms
    } else {
        0
    }
}

/// Milliseconds a line of `n` bytes occupies on a 38400 baud serial link.
pub open spec fn bandwidth_delay_model(n: int) -> int {
    (n * 8000) / 38400
}

/// Computes the sleep before a send: the recording is `target_elapsed_ms`
/// into its own timeline, the replay `actual_elapsed_ms` into real time.
/// The result is never negative, and sleeping it brings real elapsed time
/// up to at least the recorded elapsed time.
pub fn compute_delay_ms(target_elapsed_ms: i64, actual_elapsed_ms: i64) -> (r: u64)
    requires
        -MAX_WALL_MS <= target_elapsed_ms <= MAX_WALL_MS,
        -MAX_WALL_MS <= actual_elapsed_ms <= MAX_WALL_MS,
    ensures
        r as int == delay_model(target_elapsed_ms as int, actual_elapsed_ms as int),
        actual_elapsed_ms + r >= target_elapsed_ms,
        target_elapsed_ms <= actual_elapsed_ms ==> r == 0,
{
    if target_elapsed_ms > actual_elapsed_ms {
        (target_elapsed_ms - actual_elapsed_ms) as u64
    } else {
        0
    }
}

/// Computes the serial-link wire time of a line, used for pacing a
/// recording that carries no time sentences.
pub fn bandwidth_delay_ms(line_len: usize) -> (r: u64)
    ensures
        r as int == bandwidth_delay_model(line_len as int),
{
    let prod: u128 = (line_len as u128) * 8000;
    let q: u128 = prod / 38400;
    proof {
        assert(q < 0x10000000000000000) by (nonlinear_arith)
            requires
                q == prod / 38400,
                prod == (line_len as u128) * 8000,
                (line_len as u128) < 0x10000000000000000,
        ;
    }
    q as u64
}

} // verus!
