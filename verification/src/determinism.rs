//! Determinism switches and modes for scripted behavior, and the log of
//! engine calls made while recording, and the seeded random number
//! generator scripts draw from.

use vstd::prelude::*;
use crate::json::{int_text, push_int};
use crate::text::push_str;

verus! {

/// Independent switches that compose into a determinism mode: `rng`
/// replaces script randomness with the engine's seeded generator,
/// `float` locks floating-point behavior, `order` forces stable
/// iteration order.
#[derive(Debug, Clone, Copy, PartialEq, Eq)]
pub struct DeterminismSwitches {
    pub rng: bool,
    pub float: bool,
    pub order: bool,
}

impl Default for DeterminismSwitches {
    /// Every switch off.
    fn default() -> (r: Self)
        ensures
            !r.rng && !r.float && !r.order,
    {
        DeterminismSwitches { rng: false, float: false, order: false }
    }
}

/// Named determinism modes, each a fixed switch combination.
#[derive(Debug, Clone, Copy, PartialEq, Eq)]
pub enum DeterminismMode {
    /// Everything allowed; no switch on.
    Development,
    /// Randomness locked so a recording can be reproduced.
    Recording,
    /// Randomness, floats and iteration order all locked.
    Replay,
}

impl DeterminismMode {
    /// The switches a mode turns on.
    pub fn switches(self) -> (r: DeterminismSwitches)
        ensures
            r.rng == !(self is Development),
            r.float == (self is Replay),
            r.order == (self is Replay),
    {
        match self {
            DeterminismMode::Development => DeterminismSwitches::default(),
            DeterminismMode::Recording => DeterminismSwitches { rng: true, float: false, order: false },
            DeterminismMode::Replay => DeterminismSwitches { rng: true, float: true, order: true },
        }
    }
}

/// One engine call made by a script while recording.
#[derive(Debug, Clone, PartialEq, Eq)]
pub struct RecordedCall {
    pub api: &'static str,
    pub args_summary: String,
}

/// The calls recorded so far, and how many script writes were dropped.
#[derive(Debug, Clone)]
pub struct RecordingLog {
    pub calls: Vec<RecordedCall>,
    pub dropped_writes: u64,
}

impl RecordingLog {
    /// An empty log.
    pub fn new() -> (r: Self)
        ensures
            r.calls@.len() == 0,
            r.dropped_writes == 0,
    {
        RecordingLog { calls: Vec::new(), dropped_writes: 0 }
    }

    /// Appends a call.
    pub fn record_call(&mut self, api: &'static str, args_summary: String)
        ensures
            final(self).calls@ == old(self).calls@.push(RecordedCall { api, args_summary }),
            final(self).dropped_writes == old(self).dropped_writes,
    {
        self.calls.push(RecordedCall { api, args_summary });
    }

    /// Counts a dropped write (wrapping at `u64::MAX`).
    pub fn record_dropped_write(&mut self)
        ensures
            final(self).dropped_writes == (if old(self).dropped_writes == u64::MAX { 0 } else { (old(self).dropped_writes + 1) as u64 }),
            final(self).calls@ == old(self).calls@,
    {
        self.dropped_writes = self.dropped_writes.wrapping_add(1);
    }

    /// Forgets every call and the dropped-write count.
    pub fn clear(&mut self)
        ensures
            final(self).calls@.len() == 0,
            final(self).dropped_writes == 0,
    {
        self.calls.clear();
        self.dropped_writes = 0;
    }
}


/// The multiplier of the engine's seeded random number generator.
pub const RNG_MUL: u64 = 6364136223846793005;

/// The increment of the engine's seeded random number generator.
pub const RNG_INC: u64 = 1442695040888963407;

/// The generator's next state: `state * RNG_MUL + RNG_INC`, modulo 2^64.
pub open spec fn rng_next(state: u64) -> u64 {
    ((state as nat * RNG_MUL as nat + RNG_INC as nat) % 0x1_0000_0000_0000_0000nat) as u64
}

/// One draw of `engine.rng(lo, hi)`: an error when `lo > hi` or when the
/// range holds more than `u64::MAX` values; otherwise the next state and
/// `lo + next_state % (hi - lo + 1)`.
pub open spec fn rng_draw(state: u64, lo: i64, hi: i64) -> Result<(u64, i64), Seq<char>> {
    if lo > hi {
        Err("engine.rng(lo, hi) requires lo <= hi, got lo="@ + int_text(lo) + " hi="@ + int_text(hi))
    } else if hi - lo + 1 > u64::MAX {
        Err("engine.rng range ["@ + int_text(lo) + ", "@ + int_text(hi) + "] exceeds u64 span"@)
    } else {
        let next = rng_next(state);
        Ok((next, (lo + next as int % (hi - lo + 1)) as i64))
    }
}

/// Draws a number in `lo..=hi` from the seeded generator at `state`
/// (see `rng_draw`): returns the new state and the number.
pub fn rng_step(state: u64, lo: i64, hi: i64) -> (r: Result<(u64, i64), String>)
    ensures
        match rng_draw(state, lo, hi) {
            Ok(v) => r == Ok::<(u64, i64), String>(v),
            Err(m) => r matches Err(x) && x@ == m,
        },
{
    if lo > hi {
        let mut msg = String::new();
        push_str(&mut msg, "engine.rng(lo, hi) requires lo <= hi, got lo=");
        push_int(&mut msg, lo);
        push_str(&mut msg, " hi=");
        push_int(&mut msg, hi);
        proof {
            reveal_strlit("engine.rng(lo, hi) requires lo <= hi, got lo=");
            reveal_strlit(" hi=");
        }
        return Err(msg);
    }
    let span: i128 = (hi as i128) - (lo as i128) + 1;
    if span > (u64::MAX as i128) {
        let mut msg = String::new();
        push_str(&mut msg, "engine.rng range [");
        push_int(&mut msg, lo);
        push_str(&mut msg, ", ");
        push_int(&mut msg, hi);
        push_str(&mut msg, "] exceeds u64 span");
        proof {
            reveal_strlit("engine.rng range [");
            reveal_strlit(", ");
            reveal_strlit("] exceeds u64 span");
        }
        return Err(msg);
    }
    let next: u64 = state.wrapping_mul(RNG_MUL).wrapping_add(RNG_INC);
    proof {
        let x = state as int * RNG_MUL as int;
        let m = 0x1_0000_0000_0000_0000int;
        vstd::arithmetic::div_mod::lemma_add_mod_noop(x, RNG_INC as int, m);
        vstd::arithmetic::div_mod::lemma_small_mod(RNG_INC as nat, m as nat);
        assert(next == rng_next(state));
    }
    let range: u64 = span as u64;
    let offset: u64 = next % range;
    let value: i64 = ((lo as i128) + (offset as i128)) as i64;
    Ok((next, value))
}

} // verus!
