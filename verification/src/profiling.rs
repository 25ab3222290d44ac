//! Lightweight instrumentation: labelled time checkpoints and a memory
//! watermark.  Reading the clock is the platform's business; everything
//! recorded here is plain data.

use vstd::prelude::*;

verus! {

/// The monotonic clock's instant type.
#[verifier::external_type_specification]
#[verifier::external_body]
pub struct ExInstant(std::time::Instant);

/// Relies on `Instant::now`: some reading of the monotonic clock; nothing is
/// promised of its value.
pub assume_specification[ std::time::Instant::now ]() -> std::time::Instant;

/// Tracks labelled checkpoints against a start instant.
pub struct Profiler {
    pub start: std::time::Instant,
    pub checkpoints: Vec<(String, std::time::Instant)>,
}

impl Profiler {
    /// A profiler started now, with no checkpoints.
    pub fn new() -> (r: Self)
        ensures
            r.checkpoints@.len() == 0,
    {
        Profiler { start: std::time::Instant::now(), checkpoints: Vec::new() }
    }

    /// Records a checkpoint under the given label.
    pub fn checkpoint(&mut self, label: String)
        ensures
            final(self).checkpoints@.len() == old(self).checkpoints@.len() + 1,
            final(self).checkpoints@.last().0 == label,
            forall|i: int|
                0 <= i < old(self).checkpoints@.len() ==> final(self).checkpoints@[i] == old(
                    self,
                ).checkpoints@[i],
    {
        self.checkpoints.push((label, std::time::Instant::now()));
    }

    /// Reporting is disabled in this build; the checkpoints stay readable in
    /// the structure itself.
    pub fn log(&self) {
    }
}

impl Default for Profiler {
    fn default() -> (r: Self)
        ensures
            r.checkpoints@.len() == 0,
    {
        Profiler::new()
    }
}

/// Records the memory footprint at construction time.
pub struct MemoryTracker {
    pub initial: usize,
}

impl MemoryTracker {
    /// The runtime offers no usage probe here, so the watermark reads zero.
    fn current_usage() -> (r: usize)
        ensures
            r == 0,
    {
        0
    }

    /// A tracker holding the current usage as its baseline.
    pub fn new() -> (r: Self)
        ensures
            r.initial == 0,
    {
        MemoryTracker { initial: MemoryTracker::current_usage() }
    }
}

impl Default for MemoryTracker {
    fn default() -> (r: Self)
        ensures
            r.initial == 0,
    {
        MemoryTracker::new()
    }
}

} // verus!
