//! Retention stages: a `<points>*<precision><unit>` descriptor of one
//! datapoint table, with the partition-sizing arithmetic that maps a
//! timestamp to a partition start and a row offset.

use vstd::prelude::*;
use crate::digits::{
    canonical_digits, digits_of, digits_val, is_digit, is_digit_char, lemma_canonical_round_trip,
    parse_digits, u32_to_string,
};

verus! {

/// Most datapoints one physical partition may hold.
pub const MAX_POINTS_PER_PARTITION: i64 = 25000;

/// Datapoints a typical read is expected to cover.
pub const EXPECTED_POINTS_PER_READ: i64 = 2000;

/// Narrowest allowed partition, in milliseconds (six hours).
pub const MIN_PARTITION_MS: i64 = 21600000;

#[derive(Clone, Copy, Debug, PartialEq, Eq, Structural)]
pub enum ParseError {
    Malformed,
}

/// A retention stage: `points` samples kept at one sample per
/// `precision` × unit seconds.
#[derive(Clone, Copy, Debug, PartialEq, Eq, Structural)]
pub struct Stage {
    pub points: u32,
    pub precision: u32,
    pub factor: char,
}

pub open spec fn is_unit_char(c: char) -> bool {
    c == 's' || c == 'm' || c == 'h' || c == 'd' || c == 'w' || c == 'y'
}

/// Seconds denoted by one unit character.
pub open spec fn unit_seconds(c: char) -> int {
    if c == 's' {
        1
    } else if c == 'm' {
        60
    } else if c == 'h' {
        3600
    } else if c == 'd' {
        86400
    } else if c == 'w' {
        604800
    } else {
        31536000
    }
}

/// `p` is the position of the `*` of a well-formed stage string: digits before
/// it, digits after it up to the final unit character.
pub open spec fn stage_split_at(s: Seq<char>, p: int) -> bool {
    &&& 1 <= p
    &&& p + 3 <= s.len()
    &&& s[p] == '*'
    &&& (forall|i: int| 0 <= i < p ==> is_digit_char(#[trigger] s[i]))
    &&& (forall|i: int| p < i < s.len() - 1 ==> is_digit_char(#[trigger] s[i]))
    &&& is_unit_char(s[s.len() - 1])
}

/// The string matches the grammar `digits '*' digits unit`.
pub open spec fn valid_stage_str(s: Seq<char>) -> bool {
    exists|p: int| stage_split_at(s, p)
}

/// The position of the `*` of a well-formed stage string.
pub open spec fn stage_star(s: Seq<char>) -> int {
    choose|p: int| stage_split_at(s, p)
}

pub proof fn lemma_stage_split_unique(s: Seq<char>, p1: int, p2: int)
    requires
        stage_split_at(s, p1),
        stage_split_at(s, p2),
    ensures
        p1 == p2,
{
    if p1 < p2 {
        assert(is_digit_char(s[p1]));
    }
    if p2 < p1 {
        assert(is_digit_char(s[p2]));
    }
}

/// The points count written before the `*`.
pub open spec fn spec_points_of(s: Seq<char>) -> nat {
    digits_val(s.subrange(0, stage_star(s)))
}

/// The precision magnitude written between the `*` and the unit.
pub open spec fn spec_precision_of(s: Seq<char>) -> nat {
    digits_val(s.subrange(stage_star(s) + 1, s.len() - 1))
}

/// The final unit character.
pub open spec fn spec_factor_of(s: Seq<char>) -> char {
    s[s.len() - 1]
}

/// Both numbers of the stage string fit the stage fields.
pub open spec fn stage_fits(s: Seq<char>) -> bool {
    spec_points_of(s) <= u32::MAX && spec_precision_of(s) <= u32::MAX
}

/// The stage denoted by a well-formed stage string.
pub open spec fn spec_stage_of(s: Seq<char>) -> Stage {
    Stage {
        points: spec_points_of(s) as u32,
        precision: spec_precision_of(s) as u32,
        factor: spec_factor_of(s),
    }
}

impl Stage {
    /// The sampling interval in seconds.
    pub open spec fn spec_precision_s(self) -> int {
        unit_seconds(self.factor) * self.precision
    }

    /// The stage is usable for partition arithmetic: a real unit, a nonzero
    /// precision, and a sampling interval small enough that the partition
    /// sizing stays within `i64`.
    pub open spec fn wf(self) -> bool {
        &&& is_unit_char(self.factor)
        &&& self.precision >= 1
        &&& self.spec_precision_s() * 1000 * MAX_POINTS_PER_PARTITION <= i64::MAX
    }

    /// Width of one physical partition in milliseconds: wide enough for an
    /// expected read but at least the minimum span, capped by the most points
    /// one partition may hold.
    pub open spec fn spec_row_size_ms(self) -> int {
        let cap = self.spec_precision_s() * 1000 * MAX_POINTS_PER_PARTITION;
        let expected = self.spec_precision_s() * 1000 * EXPECTED_POINTS_PER_READ;
        let lo = if expected > MIN_PARTITION_MS {
            expected
        } else {
            MIN_PARTITION_MS as int
        };
        if cap < lo {
            cap
        } else {
            lo
        }
    }

    /// Start of the partition holding second `ts`, in milliseconds.
    pub open spec fn spec_time_start_ms(self, ts: int) -> int {
        ts * 1000 - (ts * 1000) % self.spec_row_size_ms()
    }

    /// Row offset of second `ts` within its partition, in precision units.
    pub open spec fn spec_offset_idx(self, ts: int) -> int {
        ((ts * 1000) % self.spec_row_size_ms()) / (self.spec_precision_s() * 1000)
    }

    /// `<points>*<precision><unit>`, with both numbers in canonical decimal.
    pub open spec fn spec_format(self) -> Seq<char> {
        digits_of(self.points as nat) + seq!['*'] + digits_of(self.precision as nat)
            + seq![self.factor]
    }

    /// Name of the datapoint table for this stage.
    pub open spec fn spec_table_name(self) -> Seq<char> {
        "datapoints_"@ + digits_of(self.points as nat) + "p_"@ + digits_of(self.precision as nat)
            + seq![self.factor] + "_0"@
    }

    /// Parse a retention stage string of the grammar `digits '*' digits unit`.
    /// Any other shape, and any number too large for the stage fields, is
    /// malformed.
    pub fn parse(s: &str) -> (r: Result<Stage, ParseError>)
        ensures
            r is Ok <==> valid_stage_str(s@) && stage_fits(s@),
            r matches Ok(st) ==> st == spec_stage_of(s@) && is_unit_char(st.factor),
            r is Err ==> r == Err::<Stage, ParseError>(ParseError::Malformed),
    {
        let n = s.unicode_len();
        let mut i: usize = 0;
        while i < n && is_digit(s.get_char(i))
            invariant
                i <= n,
                n == s@.len(),
                forall|k: int| 0 <= k < i ==> is_digit_char(#[trigger] s@[k]),
            decreases n - i,
        {
            i = i + 1;
        }
        if i == 0 || i >= n {
            proof {
                if valid_stage_str(s@) {
                    let p = choose|p: int| stage_split_at(s@, p);
                    assert(is_digit_char(s@[0]));
                    assert(i >= n ==> is_digit_char(s@[p]));
                }
            }
            return Err(ParseError::Malformed);
        }
        if s.get_char(i) != '*' {
            proof {
                if valid_stage_str(s@) {
                    let p = choose|p: int| stage_split_at(s@, p);
                    if p < i as int {
                        assert(is_digit_char(s@[p]));
                    } else if p > i as int {
                        assert(is_digit_char(s@[i as int]));
                    }
                }
            }
            return Err(ParseError::Malformed);
        }
        if n - i < 3 {
            proof {
                if valid_stage_str(s@) {
                    let p = choose|p: int| stage_split_at(s@, p);
                    if p < i as int {
                        assert(is_digit_char(s@[p]));
                    } else if p > i as int {
                        assert(is_digit_char(s@[i as int]));
                    }
                }
            }
            return Err(ParseError::Malformed);
        }
        let mut j: usize = i + 1;
        while j < n - 1 && is_digit(s.get_char(j))
            invariant
                i + 1 <= j <= n - 1,
                n == s@.len(),
                forall|k: int| i < k < j ==> is_digit_char(#[trigger] s@[k]),
            decreases n - j,
        {
            j = j + 1;
        }
        if j < n - 1 {
            proof {
                if valid_stage_str(s@) {
                    let p = choose|p: int| stage_split_at(s@, p);
                    if p < i as int {
                        assert(is_digit_char(s@[p]));
                    } else if p > i as int {
                        assert(is_digit_char(s@[i as int]));
                    }
                    assert(is_digit_char(s@[j as int]));
                }
            }
            return Err(ParseError::Malformed);
        }
        let unit = s.get_char(n - 1);
        if !(unit == 's' || unit == 'm' || unit == 'h' || unit == 'd' || unit == 'w' || unit
            == 'y') {
            proof {
                if valid_stage_str(s@) {
                    let p = choose|p: int| stage_split_at(s@, p);
                    if p < i as int {
                        assert(is_digit_char(s@[p]));
                    } else if p > i as int {
                        assert(is_digit_char(s@[i as int]));
                    }
                }
            }
            return Err(ParseError::Malformed);
        }
        proof {
            assert(stage_split_at(s@, i as int));
            let p = stage_star(s@);
            lemma_stage_split_unique(s@, p, i as int);
        }
        let points = match parse_digits(s, 0, i) {
            Some(v) => v,
            None => {
                return Err(ParseError::Malformed);
            },
        };
        let precision = match parse_digits(s, i + 1, n - 1) {
            Some(v) => v,
            None => {
                return Err(ParseError::Malformed);
            },
        };
        Ok(Stage { points, precision, factor: unit })
    }

    /// The sampling interval in seconds.
    pub fn precision_as_seconds(&self) -> (r: i64)
        requires
            is_unit_char(self.factor),
        ensures
            r == self.spec_precision_s(),
    {
        let f: i64 = if self.factor == 's' {
            1
        } else if self.factor == 'm' {
            60
        } else if self.factor == 'h' {
            3600
        } else if self.factor == 'd' {
            86400
        } else if self.factor == 'w' {
            604800
        } else {
            31536000
        };
        let p = self.precision as i64;
        proof {
            vstd::arithmetic::mul::lemma_mul_upper_bound(f as int, 31536000, p as int, u32::MAX as int);
        }
        f * p
    }

    pub fn points(&self) -> (r: u32)
        ensures
            r == self.points,
    {
        self.points
    }

    /// Render the stage back as `<points>*<precision><unit>`.
    pub fn to_string(&self) -> (r: String)
        requires
            is_unit_char(self.factor),
        ensures
            r@ == self.spec_format(),
    {
        let mut out = u32_to_string(self.points);
        proof {
            reveal_strlit("*");
        }
        out.append("*");
        let precision = u32_to_string(self.precision);
        out.append(precision.as_str());
        out.append(factor_str(self.factor));
        proof {
            assert(out@ =~= self.spec_format());
        }
        out
    }

    /// Partition start (ms) and row offset of timestamp `ts` (seconds).
    pub fn time_offset_ms(&self, ts: i64) -> (r: (i64, i64))
        requires
            self.wf(),
            0 <= ts,
            ts * 1000 <= i64::MAX,
        ensures
            r.0 == self.spec_time_start_ms(ts as int),
            r.1 == self.spec_offset_idx(ts as int),
    {
        let trs = self.table_row_size_ms();
        let ps = self.precision_as_seconds();
        proof {
            lemma_precision_s_positive(*self);
            vstd::arithmetic::div_mod::lemma_mod_bound(ts * 1000, trs as int);
            vstd::arithmetic::div_mod::lemma_div_pos_is_pos(
                (ts * 1000) % (trs as int),
                ps * 1000,
            );
            vstd::arithmetic::div_mod::lemma_div_nonincreasing(
                (ts * 1000) % (trs as int),
                ps * 1000,
            );
        }
        let tms_u = (ts as u64) * 1000;
        let off_u = tms_u % (trs as u64);
        let idx_u = off_u / ((ps as u64) * 1000);
        let time_offset = off_u as i64;
        (ts * 1000 - time_offset, idx_u as i64)
    }

    /// Name of the datapoint table for this stage.
    pub fn table_name(&self) -> (r: String)
        requires
            is_unit_char(self.factor),
        ensures
            r@ == self.spec_table_name(),
    {
        let mut out = String::from_str("datapoints_");
        let points = u32_to_string(self.points);
        out.append(points.as_str());
        out.append("p_");
        let precision = u32_to_string(self.precision);
        out.append(precision.as_str());
        out.append(factor_str(self.factor));
        out.append("_0");
        proof {
            assert(out@ =~= self.spec_table_name());
        }
        out
    }

    /// Width of one physical partition in milliseconds.
    pub fn table_row_size_ms(&self) -> (r: i64)
        requires
            self.wf(),
        ensures
            r == self.spec_row_size_ms(),
            MIN_PARTITION_MS <= r,
    {
        let ps = self.precision_as_seconds();
        proof {
            lemma_precision_s_positive(*self);
            assert(ps * 1000 * EXPECTED_POINTS_PER_READ <= ps * 1000 * MAX_POINTS_PER_PARTITION);
        }
        let cap = ps * 1000 * MAX_POINTS_PER_PARTITION;
        let expected = ps * 1000 * EXPECTED_POINTS_PER_READ;
        let lo = if expected > MIN_PARTITION_MS {
            expected
        } else {
            MIN_PARTITION_MS
        };
        if cap < lo {
            cap
        } else {
            lo
        }
    }
}

/// Sum of the points retained by a list of stages.
pub open spec fn sum_points(stages: Seq<Stage>) -> int
    decreases stages.len(),
{
    if stages.len() == 0 {
        0
    } else {
        sum_points(stages.drop_last()) + stages.last().points
    }
}

/// A longer prefix of stages never retains fewer points.
proof fn lemma_sum_points_prefix_le(stages: Seq<Stage>, i: int, j: int)
    requires
        0 <= i <= j <= stages.len(),
    ensures
        sum_points(stages.subrange(0, i)) <= sum_points(stages.subrange(0, j)),
    decreases j - i,
{
    if i < j {
        lemma_sum_points_prefix_le(stages, i, j - 1);
        assert(stages.subrange(0, j).drop_last() =~= stages.subrange(0, j - 1));
    }
}

/// The total number of points a list of stages retains; `None` when the sum
/// does not fit a `u64`.
pub fn total_points(stages: &Vec<Stage>) -> (r: Option<u64>)
    ensures
        r matches Some(v) ==> v == sum_points(stages@),
        r is None ==> sum_points(stages@) > u64::MAX,
{
    let len = stages.len();
    let mut total: u64 = 0;
    let mut i: usize = 0;
    while i < len
        invariant
            i <= len == stages@.len(),
            total == sum_points(stages@.subrange(0, i as int)),
        decreases len - i,
    {
        let p = stages[i].points as u64;
        proof {
            assert(stages@.subrange(0, i + 1).drop_last() =~= stages@.subrange(0, i as int));
            assert(stages@.subrange(0, i + 1).last() == stages@[i as int]);
        }
        if total > u64::MAX - p {
            proof {
                lemma_sum_points_prefix_le(stages@, i + 1, len as int);
                assert(stages@.subrange(0, len as int) =~= stages@);
            }
            return None;
        }
        total = total + p;
        i = i + 1;
    }
    proof {
        assert(stages@.subrange(0, len as int) =~= stages@);
    }
    Some(total)
}

/// A well-formed stage samples at least once per second's worth of unit.
pub proof fn lemma_precision_s_positive(st: Stage)
    requires
        st.wf(),
    ensures
        st.spec_precision_s() >= 1,
        st.spec_row_size_ms() >= MIN_PARTITION_MS,
        st.spec_row_size_ms() <= st.spec_precision_s() * 1000 * MAX_POINTS_PER_PARTITION,
{
    vstd::arithmetic::mul::lemma_mul_ordering(unit_seconds(st.factor), st.precision as int);
    assert(st.spec_precision_s() * 1000 * EXPECTED_POINTS_PER_READ >= EXPECTED_POINTS_PER_READ
        * 1000);
    assert(st.spec_precision_s() * 1000 * MAX_POINTS_PER_PARTITION >= MAX_POINTS_PER_PARTITION
        * 1000);
}

/// The one-character string of a unit character.
fn factor_str(c: char) -> (r: &'static str)
    requires
        is_unit_char(c),
    ensures
        r@ == seq![c],
{
    proof {
        reveal_strlit("s");
        reveal_strlit("m");
        reveal_strlit("h");
        reveal_strlit("d");
        reveal_strlit("w");
        reveal_strlit("y");
    }
    let r = if c == 's' {
        "s"
    } else if c == 'm' {
        "m"
    } else if c == 'h' {
        "h"
    } else if c == 'd' {
        "d"
    } else if c == 'w' {
        "w"
    } else {
        "y"
    };
    proof {
        assert(r@ =~= seq![c]);
    }
    r
}

/// Formatting a parsed well-formed stage string gives the string back, as
/// long as its two numbers are written canonically (no leading zeros).
pub proof fn lemma_format_parse_round_trip(s: Seq<char>)
    requires
        valid_stage_str(s),
        stage_fits(s),
        canonical_digits(s.subrange(0, stage_star(s))),
        canonical_digits(s.subrange(stage_star(s) + 1, s.len() - 1)),
    ensures
        spec_stage_of(s).spec_format() == s,
{
    let p = stage_star(s);
    assert(stage_split_at(s, p));
    let pre = s.subrange(0, p);
    let mid = s.subrange(p + 1, s.len() - 1);
    lemma_canonical_round_trip(pre);
    lemma_canonical_round_trip(mid);
    let st = spec_stage_of(s);
    assert(digits_of(st.points as nat) == pre);
    assert(digits_of(st.precision as nat) == mid);
    assert(st.spec_format() =~= s);
}

} // verus!
