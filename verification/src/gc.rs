//! Garbage-collection decisions: which stale metrics and empty directories
//! are removed, reported, or kept, and when a token-range scan stops.

use vstd::prelude::*;

verus! {

/// Number of seconds after which a metric that has not been updated counts as stale.
pub const STALE_AFTER_S: u64 = 1209600;

/// What a cleanup pass does with one record it examined.
#[derive(Clone, Copy, Debug, PartialEq, Eq, Structural)]
pub enum GcAction {
    /// Remove the record from the store.
    Delete,
    /// Only report the record; leave it in the store.
    Report,
    /// Leave the record untouched, silently.
    Keep,
}

/// Decision for one metric row during cleanup: a stale metric (last update at or
/// before the cutoff) is deleted when metric cleaning is enabled, only reported
/// in a dry run, and kept otherwise.
pub fn metric_action(updated_on_ms: u64, cutoff_ms: u64, clean_metrics: bool, dry_run: bool) -> (r:
    GcAction)
    ensures
        r == GcAction::Delete <==> (clean_metrics && updated_on_ms <= cutoff_ms && !dry_run),
        r == GcAction::Report <==> (clean_metrics && updated_on_ms <= cutoff_ms && dry_run),
        r == GcAction::Keep <==> (!clean_metrics || updated_on_ms > cutoff_ms),
{
    if !clean_metrics || updated_on_ms > cutoff_ms {
        GcAction::Keep
    } else if dry_run {
        GcAction::Report
    } else {
        GcAction::Delete
    }
}

/// Decision for one directory row during cleanup: a directory with no descendant
/// metric is deleted when directory cleaning is enabled, only reported in a dry
/// run, and kept otherwise.
pub fn directory_action(has_descendant_metric: bool, clean_directories: bool, dry_run: bool) -> (r:
    GcAction)
    ensures
        r == GcAction::Delete <==> (clean_directories && !has_descendant_metric && !dry_run),
        r == GcAction::Report <==> (clean_directories && !has_descendant_metric && dry_run),
        r == GcAction::Keep <==> (!clean_directories || has_descendant_metric),
{
    if !clean_directories || has_descendant_metric {
        GcAction::Keep
    } else if dry_run {
        GcAction::Report
    } else {
        GcAction::Delete
    }
}

/// A paginated token-range scan stops when the pass is disabled, when a page
/// came back short (the range is exhausted), or when the cursor has reached the
/// end of the token range.
pub fn scan_should_stop(
    pass_enabled: bool,
    rows_in_page: usize,
    page_limit: usize,
    next_token: i64,
    end_token: i64,
) -> (r: bool)
    ensures
        r == (!pass_enabled || rows_in_page < page_limit || next_token >= end_token),
{
    !pass_enabled || rows_in_page < page_limit || next_token >= end_token
}

/// The staleness cutoff, in epoch milliseconds, for a cleanup pass started at
/// `now_s` (epoch seconds): updates at or before it are stale.
pub fn stale_cutoff_ms(now_s: u64) -> (r: u64)
    requires
        now_s >= STALE_AFTER_S,
        (now_s - STALE_AFTER_S) * 1000 <= u64::MAX,
    ensures
        r == (now_s - STALE_AFTER_S) * 1000,
{
    (now_s - STALE_AFTER_S) * 1000
}

/// The cutoff a cleanup pass started at second `now` uses.
pub open spec fn cutoff_of(now: int) -> int {
    (now - STALE_AFTER_S) * 1000
}

/// Relies on `chrono::Utc::now`: the current time as epoch seconds; nothing
/// is assumed of the value.
#[verifier::external_body]
fn now_unix_seconds() -> i64 {
    chrono::Utc::now().timestamp()
}

/// The staleness cutoff computed from the current clock; `None` when the
/// clock reading is outside the range the cutoff arithmetic is defined on.
pub fn current_stale_cutoff_ms() -> (r: Option<u64>)
    ensures
        r matches Some(v) ==> exists|now: int|
            STALE_AFTER_S <= now && v == #[trigger] cutoff_of(now),
{
    let now = now_unix_seconds();
    if now >= 0 {
        let now_u = now as u64;
        if now_u >= STALE_AFTER_S && now_u <= u64::MAX / 1000 {
            let cutoff = stale_cutoff_ms(now_u);
            proof {
                assert(STALE_AFTER_S <= now_u as int && cutoff == cutoff_of(now_u as int));
            }
            Some(cutoff)
        } else {
            None
        }
    } else {
        None
    }
}

/// The match value selecting every descendant metric of a directory: the
/// directory's path, the separator, and the store's wildcard.
pub fn descendant_match_value(name: &str) -> (r: String)
    ensures
        r@ == name@ + seq!['.', '%'],
{
    let mut out = name.to_owned();
    proof {
        reveal_strlit(".%");
        assert(name@ + ".%"@ =~= name@ + seq!['.', '%']);
    }
    out.append(".%");
    out
}

} // verus!
