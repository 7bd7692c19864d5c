use vstd::prelude::*;

verus! {

/// Drives the polling step on a fixed pause, forever: no jitter, no backoff,
/// no iteration limit. The scheduler only decides how long to pause; the
/// caller performs the actual wait between iterations.
pub struct Scheduler {
    pub delay_secs: u64,
}

impl Scheduler {
    pub fn new(delay_secs: u64) -> (s: Scheduler)
        ensures
            s.delay_secs == delay_secs,
    {
        Scheduler { delay_secs }
    }

    /// The pause, in seconds, to take between the end of one polling
    /// iteration and the start of the next: always exactly the configured
    /// delay, so the gap between iterations is never shorter than it.
    pub fn pause_secs(&self) -> (d: u64)
        ensures
            d == self.delay_secs,
    {
        self.delay_secs
    }
}

} // verus!
