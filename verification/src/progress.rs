//! When the terminal progress spinner prints its closing summary.
use vstd::prelude::*;

verus! {

/// Work that finished faster than this many nanoseconds gets no summary,
/// so that warm-cache runs stay silent.
pub const SUMMARY_MIN_NANOS: u128 = 150_000_000;

/// Whether work that took `elapsed_nanos` nanoseconds is worth a summary
/// line.
pub fn summary_due(elapsed_nanos: u128) -> (r: bool)
    ensures
        r == (elapsed_nanos >= SUMMARY_MIN_NANOS),
{
    elapsed_nanos >= SUMMARY_MIN_NANOS
}

/// Whether the spinner runs: not switched off by `SEM_NO_PROGRESS` (its
/// value given) and standard error is a terminal.
pub fn progress_enabled(no_progress: Option<&str>, stderr_is_terminal: bool) -> (r: bool)
    ensures
        r == (!crate::telemetry::flag_set(
            match no_progress {
                Some(v) => Some(v@),
                None => None,
            },
        ) && stderr_is_terminal),
{
    !crate::telemetry::env_flag_set(no_progress) && stderr_is_terminal
}

} // verus!
