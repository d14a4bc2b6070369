//! Timestamps of 32 bits, laid out on a timeline that does not roll over.

use vstd::prelude::*;

verus! {

/// How many timestamps there are.
pub open spec fn cycle() -> int {
    0x1_0000_0000
}

/// The signed step from one timestamp to the next: the one of the two ways round
/// that is shorter, and the way back where both are equally long.
pub open spec fn step(prev: u32, raw: u32) -> int {
    let forward = (raw - prev) % cycle();
    if forward < 0x8000_0000 {
        forward
    } else {
        forward - cycle()
    }
}

/// Where a timestamp lies on the timeline of which `last` is the last point: its
/// timestamp, and its place.
pub open spec fn placed(last: Option<(u32, i64)>, raw: u32) -> int {
    match last {
        None => raw as int,
        Some((prev_raw, prev_ext)) => prev_ext + step(prev_raw, raw),
    }
}

/// Lays timestamps out on a timeline.
#[derive(Debug, Clone)]
pub struct TimestampUnwrapper {
    last: Option<(u32, i64)>,
}

impl View for TimestampUnwrapper {
    type V = Option<(u32, i64)>;

    closed spec fn view(&self) -> Option<(u32, i64)> {
        self.last
    }
}

impl Default for TimestampUnwrapper {
    fn default() -> (u: TimestampUnwrapper)
        ensures
            u@ is None,
    {
        TimestampUnwrapper { last: None }
    }
}

/// The signed step from one timestamp to the next.
fn signed_step(prev: u32, raw: u32) -> (d: i64)
    ensures
        d == step(prev, raw),
{
    let forward: u32 = raw.wrapping_sub(prev);
    if forward < 0x8000_0000 {
        forward as i64
    } else {
        forward as i64 - 0x1_0000_0000
    }
}

impl TimestampUnwrapper {
    pub fn new() -> (u: TimestampUnwrapper)
        ensures
            u@ is None,
    {
        TimestampUnwrapper { last: None }
    }

    /// Where the next timestamp lies, in milliseconds. The first one lies at its own
    /// value.
    pub fn unwrap_ms(&mut self, raw: u32) -> (ext: i64)
        requires
            i64::MIN <= placed(old(self)@, raw) <= i64::MAX,
        ensures
            ext == placed(old(self)@, raw),
            final(self)@ == Some((raw, ext)),
    {
        let ext: i64 = match self.last {
            None => raw as i64,
            Some((prev_raw, prev_ext)) => prev_ext + signed_step(prev_raw, raw),
        };
        self.last = Some((raw, ext));
        ext
    }

    /// Where the next timestamp would lie, if the timeline reaches so far.
    pub fn peek_ms(&self, raw: u32) -> (r: Option<i64>)
        ensures
            match r {
                Some(ext) => ext == placed(self@, raw),
                None => !(i64::MIN <= placed(self@, raw) <= i64::MAX),
            },
    {
        match self.last {
            None => Some(raw as i64),
            Some((prev_raw, prev_ext)) => {
                let place: i128 = prev_ext as i128 + signed_step(prev_raw, raw) as i128;
                if place < i64::MIN as i128 || place > i64::MAX as i128 {
                    None
                } else {
                    Some(place as i64)
                }
            },
        }
    }
}

// ---------------------------------------------------------------------------
// Laws
// ---------------------------------------------------------------------------

/// Whether the last point lies where its timestamp comes round.
pub open spec fn in_phase(last: Option<(u32, i64)>) -> bool {
    match last {
        None => true,
        Some((raw, ext)) => ext as int % cycle() == raw,
    }
}

/// The timeline keeps in phase: a point lies where its timestamp comes round.
pub proof fn law_timeline_keeps_phase(last: Option<(u32, i64)>, raw: u32)
    requires
        in_phase(last),
    ensures
        placed(last, raw) % cycle() == raw,
{
}

/// A clock is followed through any number of rollovers, forward and back, as long
/// as one step is no more than half the cycle: where the last point lies at the
/// true time `from`, the next one lies at the true time `to`.
pub proof fn law_clock_is_followed(from: i64, to: int)
    requires
        -0x8000_0000 <= to - from < 0x8000_0000,
    ensures
        placed(Some(((from as int % cycle()) as u32, from)), (to % cycle()) as u32) == to,
{
    let prev = (from as int % cycle()) as u32;
    let raw = (to % cycle()) as u32;
    let d = to - from;
    assert((raw - prev) % cycle() == d % cycle());
}

/// Of two timestamps that are not half a cycle apart, one comes after the other
/// and not the other way round.
pub proof fn law_steps_are_opposite(a: u32, b: u32)
    requires
        (b - a) % cycle() != 0x8000_0000,
    ensures
        step(a, b) == -step(b, a),
{
}

} // verus!
