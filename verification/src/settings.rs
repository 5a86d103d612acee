//! The scene's stored settings: how many beams sweep, and whether the
//! background stars twinkle.

use vstd::prelude::*;

verus! {

/// Beams that sweep when no count is stored.
pub const DEFAULT_BEAM_COUNT: u32 = 4;

/// Fewest beams a stored count can ask for.
pub const MIN_BEAMS: u32 = 2;

/// Most beams a stored count can ask for.
pub const MAX_BEAMS: u32 = 6;

/// The twinkling-stars setting that turns the star field on; any other value
/// turns it off.
pub const TWINKLE_ON: u32 = 1;

/// Number of beams for a stored `BeamCount`: the default of four when none is
/// stored, otherwise the stored count held to `2..=6`.
pub open spec fn beam_count_spec(stored: Option<u32>) -> nat {
    match stored {
        None => DEFAULT_BEAM_COUNT as nat,
        Some(n) => if n < MIN_BEAMS {
            MIN_BEAMS as nat
        } else if n > MAX_BEAMS {
            MAX_BEAMS as nat
        } else {
            n as nat
        },
    }
}

/// How many beams sweep, from the stored `BeamCount` setting (if any).
pub fn beam_count(stored: Option<u32>) -> (n: usize)
    ensures
        n == beam_count_spec(stored),
        MIN_BEAMS <= n <= MAX_BEAMS,
{
    match stored {
        None => DEFAULT_BEAM_COUNT as usize,
        Some(n) => {
            if n < MIN_BEAMS {
                MIN_BEAMS as usize
            } else if n > MAX_BEAMS {
                MAX_BEAMS as usize
            } else {
                n as usize
            }
        },
    }
}

/// The twinkling-stars setting: the stored `TwinkleStars` value, or on when
/// none is stored.
pub fn twinkle_setting(stored: Option<u32>) -> (t: u32)
    ensures
        t == match stored {
            None => TWINKLE_ON,
            Some(v) => v,
        },
{
    match stored {
        None => TWINKLE_ON,
        Some(v) => v,
    }
}

} // verus!
