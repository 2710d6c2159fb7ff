//! Expansion of a time interval into the ordered partition windows that a
//! read must visit: one window per physical partition crossed.

use vstd::prelude::*;
use crate::stage::{Stage, MIN_PARTITION_MS, lemma_precision_s_positive};

verus! {

/// A retention stage together with a half-open `[time_start, time_end)`
/// interval in epoch seconds.
pub struct TimeRange {
    pub stage: Stage,
    pub time_start: i64,
    pub time_end: i64,
}

impl TimeRange {
    /// The range is usable for window expansion: a well-formed stage and a
    /// non-negative, ordered interval whose milliseconds fit an `i64`.
    pub open spec fn wf(self) -> bool {
        &&& self.stage.wf()
        &&& 0 <= self.time_start <= self.time_end
        &&& self.time_end * 1000 <= i64::MAX
    }

    /// Start of the partition holding the interval's first second.
    pub open spec fn spec_first_start(self) -> int {
        self.stage.spec_time_start_ms(self.time_start as int)
    }

    /// Start of the partition holding the interval's last second.
    pub open spec fn spec_last_start(self) -> int {
        self.stage.spec_time_start_ms(self.time_end as int)
    }

    /// How many windows the expansion yields: one per partition crossed.
    pub open spec fn spec_count(self) -> int {
        (self.spec_last_start() - self.spec_first_start()) / self.stage.spec_row_size_ms() + 1
    }

    pub fn new(stage: &Stage, time_start: i64, time_end: i64) -> (r: TimeRange)
        requires
            stage.wf(),
            0 <= time_start <= time_end,
            time_end * 1000 <= i64::MAX,
        ensures
            r == (TimeRange { stage: *stage, time_start, time_end }),
            r.wf(),
    {
        TimeRange { stage: *stage, time_start, time_end }
    }

    /// The ordered windows `(partition_start_ms, offset_begin, offset_end)`
    /// covering the interval. The first window begins at the interval start's
    /// offset and every later one at offset `0`; every window but the last
    /// ends at the full partition width, the last at the interval end's
    /// offset.
    pub fn ranges(&self) -> (r: Vec<(i64, i64, i64)>)
        requires
            self.wf(),
        ensures
            r@.len() == self.spec_count(),
            forall|k: int|
                0 <= k < r@.len() ==> (#[trigger] r@[k]).0 == self.spec_first_start() + k
                    * self.stage.spec_row_size_ms(),
            forall|k: int|
                0 <= k < r@.len() ==> (#[trigger] r@[k]).1 == (if k == 0 {
                    self.stage.spec_offset_idx(self.time_start as int)
                } else {
                    0int
                }),
            forall|k: int|
                0 <= k < r@.len() ==> (#[trigger] r@[k]).2 == (if k == r@.len() - 1 {
                    self.stage.spec_offset_idx(self.time_end as int)
                } else {
                    self.stage.spec_row_size_ms()
                }),
    {
        let first = self.stage.time_offset_ms(self.time_start);
        let last = self.stage.time_offset_ms(self.time_end);
        let trs = self.stage.table_row_size_ms();
        let ghost p0 = self.spec_first_start();
        let ghost pl = self.spec_last_start();
        let ghost count = self.spec_count();
        proof {
            lemma_starts_aligned(*self);
        }
        let mut offset: i64 = first.0;
        let mut offset_start: i64 = first.1;
        let mut out: Vec<(i64, i64, i64)> = Vec::new();
        while offset != last.0
            invariant
                self.wf(),
                trs == self.stage.spec_row_size_ms(),
                MIN_PARTITION_MS <= trs,
                first.0 == p0,
                first.1 == self.stage.spec_offset_idx(self.time_start as int),
                last.0 == pl,
                last.1 == self.stage.spec_offset_idx(self.time_end as int),
                pl == p0 + (count - 1) * trs,
                count >= 1,
                0 <= p0 <= pl <= i64::MAX,
                out@.len() <= count - 1,
                offset == p0 + out@.len() * trs,
                offset_start == (if out@.len() == 0 {
                    first.1 as int
                } else {
                    0int
                }),
                forall|k: int|
                    0 <= k < out@.len() ==> (#[trigger] out@[k]).0 == p0 + k * trs,
                forall|k: int|
                    0 <= k < out@.len() ==> (#[trigger] out@[k]).1 == (if k == 0 {
                        first.1 as int
                    } else {
                        0int
                    }),
                forall|k: int| 0 <= k < out@.len() ==> (#[trigger] out@[k]).2 == trs,
            decreases pl - offset,
        {
            proof {
                let len = out@.len() as int;
                assert(offset != pl);
                if len == count - 1 {
                    assert(offset == p0 + (count - 1) * trs);
                }
                assert(len < count - 1);
                assert((count - 1) * trs - len * trs == (count - 1 - len) * trs) by {
                    vstd::arithmetic::mul::lemma_mul_is_distributive_sub_other_way(
                        trs as int,
                        count - 1,
                        len,
                    );
                }
                assert((count - 1 - len) * trs >= 1 * trs) by {
                    vstd::arithmetic::mul::lemma_mul_inequality(1, count - 1 - len, trs as int);
                }
                assert(offset + trs <= pl);
                assert((len + 1) * trs == len * trs + trs) by {
                    vstd::arithmetic::mul::lemma_mul_is_distributive_add_other_way(
                        trs as int,
                        len,
                        1,
                    );
                }
            }
            out.push((offset, offset_start, trs));
            offset_start = 0;
            offset = offset + trs;
        }
        proof {
            let len = out@.len() as int;
            assert(offset == pl);
            assert(len * trs == (count - 1) * trs);
            if len < count - 1 {
                vstd::arithmetic::mul::lemma_mul_strict_inequality(len, count - 1, trs as int);
            }
            assert(len == count - 1);
        }
        out.push((offset, offset_start, last.1));
        out
    }
}

/// Partition starts are aligned: both interval endpoints round down to
/// multiples of the partition width, in order, and the distance between them
/// is an exact number of partitions.
proof fn lemma_starts_aligned(tr: TimeRange)
    requires
        tr.wf(),
    ensures
        0 <= tr.spec_first_start() <= tr.spec_last_start() <= tr.time_end * 1000 <= i64::MAX,
        tr.spec_last_start() == tr.spec_first_start() + (tr.spec_count() - 1)
            * tr.stage.spec_row_size_ms(),
        tr.spec_count() >= 1,
{
    let trs = tr.stage.spec_row_size_ms();
    let a = tr.time_start * 1000;
    let b = tr.time_end * 1000;
    lemma_precision_s_positive(tr.stage);
    vstd::arithmetic::div_mod::lemma_fundamental_div_mod(a, trs);
    vstd::arithmetic::div_mod::lemma_fundamental_div_mod(b, trs);
    vstd::arithmetic::div_mod::lemma_mod_bound(a, trs);
    vstd::arithmetic::div_mod::lemma_mod_bound(b, trs);
    let qa = a / trs;
    let qb = b / trs;
    assert(tr.spec_first_start() == trs * qa);
    assert(tr.spec_last_start() == trs * qb);
    vstd::arithmetic::div_mod::lemma_div_is_ordered(a, b, trs);
    vstd::arithmetic::div_mod::lemma_div_pos_is_pos(a, trs);
    assert(trs * qa <= trs * qb) by {
        vstd::arithmetic::mul::lemma_mul_inequality(qa, qb, trs);
    }
    assert(trs * (qb - qa) == trs * qb - trs * qa) by {
        vstd::arithmetic::mul::lemma_mul_is_distributive_sub(trs, qb, qa);
    }
    vstd::arithmetic::div_mod::lemma_fundamental_div_mod_converse(
        tr.spec_last_start() - tr.spec_first_start(),
        trs,
        qb - qa,
        0,
    );
    assert(tr.spec_count() - 1 == qb - qa);
    assert(tr.spec_last_start() - tr.spec_first_start() == (tr.spec_count() - 1) * trs) by {
        vstd::arithmetic::mul::lemma_mul_is_commutative(trs, qb - qa);
    }
}

/// The expansion windows are contiguous and exactly cover the interval: the
/// first window's partition contains the interval start, each later window
/// starts one partition width after the previous, and the last window's
/// partition contains the interval end.
pub proof fn lemma_windows_contiguous_cover(tr: TimeRange)
    requires
        tr.wf(),
    ensures
        tr.spec_count() >= 1,
        tr.spec_first_start() <= tr.time_start * 1000 < tr.spec_first_start()
            + tr.stage.spec_row_size_ms(),
        tr.spec_last_start() == tr.spec_first_start() + (tr.spec_count() - 1)
            * tr.stage.spec_row_size_ms(),
        tr.spec_last_start() <= tr.time_end * 1000 < tr.spec_last_start()
            + tr.stage.spec_row_size_ms(),
{
    let trs = tr.stage.spec_row_size_ms();
    let a = tr.time_start * 1000;
    let b = tr.time_end * 1000;
    lemma_starts_aligned(tr);
    lemma_precision_s_positive(tr.stage);
    vstd::arithmetic::div_mod::lemma_mod_bound(a, trs);
    vstd::arithmetic::div_mod::lemma_mod_bound(b, trs);
}

} // verus!
