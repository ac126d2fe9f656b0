//! Gates of the map's background jobs: the one-at-a-time generation of a
//! derived raster, and the rate limit and preconditions of the focused
//! road and water imports.
use vstd::prelude::*;

verus! {

/// The single-flight flag of a background generation.
pub struct GenerationGate {
    pub generating: bool,
}

impl GenerationGate {
    /// Nothing generating.
    pub fn new() -> (r: GenerationGate)
        ensures
            !r.generating,
    {
        GenerationGate { generating: false }
    }

    /// Start a generation when none runs and its inputs were all found; it
    /// is then marked running.
    pub fn try_begin(&mut self, inputs_found: bool) -> (r: bool)
        ensures
            r == (!old(self).generating && inputs_found),
            final(self).generating == (old(self).generating || r),
    {
        if self.generating || !inputs_found {
            return false;
        }
        self.generating = true;
        true
    }

    /// The generation ended (whatever its outcome).
    pub fn mark_done(&mut self)
        ensures
            !final(self).generating,
    {
        self.generating = false;
    }
}

/// Least time between two import checks, in milliseconds.
pub const IMPORT_CHECK_INTERVAL_MS: u64 = 500;

/// The time of the last import check, if any.
pub struct ImportThrottle {
    pub last_check_ms: Option<u64>,
}

/// A check is due: none happened yet, or the interval has passed since the
/// last one (a clock that went back counts as no time passed).
pub open spec fn check_due(last: Option<u64>, now_ms: u64) -> bool {
    match last {
        None => true,
        Some(t) => now_ms >= t && now_ms - t >= IMPORT_CHECK_INTERVAL_MS,
    }
}

impl ImportThrottle {
    /// No check yet.
    pub fn new() -> (r: ImportThrottle)
        ensures
            r.last_check_ms is None,
    {
        ImportThrottle { last_check_ms: None }
    }

    /// Whether to queue focused imports for the visible layer this frame:
    /// only in local terrain mode with the layer shown, at most once per
    /// interval (a due check is recorded at `now_ms`), and never while
    /// import jobs are active.
    pub fn should_queue_imports(
        &mut self,
        local_terrain_mode: bool,
        layer_shown: bool,
        has_active_jobs: bool,
        now_ms: u64,
    ) -> (r: bool)
        ensures
            ({
                let gated = local_terrain_mode && layer_shown;
                let due = gated && check_due(old(self).last_check_ms, now_ms);
                &&& final(self).last_check_ms == (if due {
                    Some(now_ms)
                } else {
                    old(self).last_check_ms
                })
                &&& r == (due && !has_active_jobs)
            }),
    {
        if !local_terrain_mode || !layer_shown {
            return false;
        }
        let due: bool = match self.last_check_ms {
            None => true,
            Some(t) => now_ms >= t && now_ms - t >= IMPORT_CHECK_INTERVAL_MS,
        };
        if !due {
            return false;
        }
        self.last_check_ms = Some(now_ms);
        !has_active_jobs
    }
}

} // verus!
