use vstd::prelude::*;

verus! {

/// A progress callback that can be called with any count, total and stage.
pub open spec fn progress_ok<P: Fn(u64, Option<u64>, &'static str)>(progress: &P) -> bool {
    forall|processed: u64, total: Option<u64>, stage: &'static str| #[trigger] progress.requires((processed, total, stage))
}

/// Reports `count` records processed in `stage` to `progress`, without a total,
/// when `count` is a multiple of `every`.
pub fn report_progress<P: Fn(u64, Option<u64>, &'static str)>(progress: &P, count: u64, every: u64, stage: &'static str)
    requires
        every > 0,
        progress_ok(progress),
{
    if count % every == 0 {
        progress(count, None, stage);
    }
}

} // verus!
