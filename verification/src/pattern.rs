//! The namespace compiler: a dotted glob pattern, already split into
//! segments, becomes predicate sets over the fixed-width component columns
//! shared by the directories and metrics tables.
//!
//! A segment is a literal, the one-segment wildcard `*` (no predicate for
//! that position), a partial match holding `*` (a match predicate with `*`
//! turned into the store's `%`), or the multi-segment wildcard `**` (at most
//! one per pattern, handled by [`compile_globstar`]).

use vstd::prelude::*;
use crate::text::{has_star, star_to_percent, views_of, contains_star, is_single_star, is_globstar,
    replace_stars};

verus! {

/// Width of the component column schema: paths deeper than this cannot be
/// stored or matched.
pub const COMPONENTS: usize = 16;

#[derive(Clone, Copy, Debug, PartialEq, Eq, Structural)]
pub enum ValidationError {
    /// The pattern holds a `**` where none is supported, or more than one.
    UnexpectedGlobstar,
}

/// The comparison a predicate applies to its component column.
#[derive(Clone, Copy, Debug, PartialEq, Eq, Structural)]
pub enum Op {
    /// Exact equality.
    Equal,
    /// The store's wildcard match (`%` matches any run of characters).
    Like,
}

/// One predicate: component column `position` compares to `value` under `op`.
#[derive(Debug)]
pub struct Pred {
    pub position: usize,
    pub op: Op,
    pub value: String,
}

/// The mathematical value of a predicate.
#[verifier::ext_equal]
pub struct PredV {
    pub position: int,
    pub op: Op,
    pub value: Seq<char>,
}

impl View for Pred {
    type V = PredV;

    open spec fn view(&self) -> PredV {
        PredV { position: self.position as int, op: self.op, value: self.value@ }
    }
}

/// The views of a vector of predicates.
pub open spec fn preds_v(ps: Seq<Pred>) -> Seq<PredV> {
    ps.map_values(|p: Pred| p@)
}

/// The views of a vector of predicate sets.
pub open spec fn sets_v(ss: Seq<Vec<Pred>>) -> Seq<Seq<PredV>> {
    ss.map_values(|s: Vec<Pred>| preds_v(s@))
}

/// The sentinel component value marking the end of a stored path.
pub open spec fn end_marker() -> Seq<char> {
    "__END__"@
}

/// The predicates one segment contributes at column `base`: none for `*`,
/// otherwise one equality or match predicate.
pub open spec fn seg_pred(seg: Seq<char>, base: int) -> Seq<PredV> {
    if seg == seq!['*'] {
        Seq::empty()
    } else {
        seq![
            PredV {
                position: base,
                op: if has_star(seg) {
                    Op::Like
                } else {
                    Op::Equal
                },
                value: star_to_percent(seg),
            },
        ]
    }
}

/// The predicates of consecutive segments starting at column `base`.
pub open spec fn seg_preds(segs: Seq<Seq<char>>, base: int) -> Seq<PredV>
    decreases segs.len(),
{
    if segs.len() == 0 {
        Seq::empty()
    } else {
        seg_pred(segs[0], base) + seg_preds(segs.drop_first(), base + 1)
    }
}

/// The full fixed-depth predicate set: each segment at its own position, then
/// the sentinel equality that pins the path's depth.
pub open spec fn fixed_preds(segs: Seq<Seq<char>>) -> Seq<PredV> {
    seg_preds(segs, 0).push(
        PredV { position: segs.len() as int, op: Op::Equal, value: end_marker() },
    )
}

/// Some segment is the multi-segment wildcard.
pub open spec fn has_globstar(segs: Seq<Seq<char>>) -> bool {
    exists|i: int| 0 <= i < segs.len() && segs[i] == seq!['*', '*']
}

/// Position `p` holds the pattern's only multi-segment wildcard.
pub open spec fn lone_globstar_at(segs: Seq<Seq<char>>, p: int) -> bool {
    &&& 0 <= p < segs.len()
    &&& segs[p] == seq!['*', '*']
    &&& forall|i: int| 0 <= i < segs.len() && i != p ==> segs[i] != seq!['*', '*']
}

/// The pattern holds exactly one multi-segment wildcard.
pub open spec fn has_lone_globstar(segs: Seq<Seq<char>>) -> bool {
    exists|p: int| lone_globstar_at(segs, p)
}

/// The position of the pattern's only multi-segment wildcard.
pub open spec fn globstar_pos(segs: Seq<Seq<char>>) -> int {
    choose|p: int| lone_globstar_at(segs, p)
}

/// The tail segments after the wildcard at `p`, with the sentinel appended.
pub open spec fn globstar_tail(segs: Seq<Seq<char>>, p: int) -> Seq<Seq<char>> {
    segs.subrange(p + 1, segs.len() as int).push(end_marker())
}

/// How many depths the wildcard at `p` can stand for within the column
/// schema; zero when the fixed segments alone exceed it.
pub open spec fn globstar_set_count(segs: Seq<Seq<char>>, p: int) -> int {
    if p + globstar_tail(segs, p).len() <= COMPONENTS {
        COMPONENTS - p - globstar_tail(segs, p).len() + 1
    } else {
        0
    }
}

proof fn lemma_seg_preds_push(segs: Seq<Seq<char>>, x: Seq<char>, base: int)
    ensures
        seg_preds(segs.push(x), base) == seg_preds(segs, base) + seg_pred(
            x,
            base + segs.len(),
        ),
    decreases segs.len(),
{
    if segs.len() == 0 {
        assert(segs.push(x).drop_first() =~= Seq::<Seq<char>>::empty());
        assert(segs.push(x)[0] == x);
        assert(seg_preds(segs.push(x).drop_first(), base + 1) =~= Seq::<PredV>::empty());
        assert(seg_preds(segs.push(x), base) =~= seg_pred(x, base));
        assert(seg_preds(segs, base) + seg_pred(x, base) =~= seg_pred(x, base));
    } else {
        assert(segs.push(x).drop_first() =~= segs.drop_first().push(x));
        assert(segs.push(x)[0] == segs[0]);
        lemma_seg_preds_push(segs.drop_first(), x, base + 1);
        assert(seg_preds(segs.push(x), base) =~= seg_preds(segs, base) + seg_pred(
            x,
            base + segs.len(),
        ));
    }
}

/// The predicates of segments `[from, to)` bound at columns starting at `base`.
fn preds_of_range(segments: &Vec<String>, from: usize, to: usize, base: usize) -> (r: Vec<Pred>)
    requires
        from <= to <= segments@.len(),
        base + to <= usize::MAX,
    ensures
        preds_v(r@) == seg_preds(views_of(segments@).subrange(from as int, to as int), base as int),
{
    let mut out: Vec<Pred> = Vec::new();
    let mut i: usize = from;
    while i < to
        invariant
            from <= i <= to <= segments@.len(),
            base + to <= usize::MAX,
            preds_v(out@) == seg_preds(
                views_of(segments@).subrange(from as int, i as int),
                base as int,
            ),
        decreases to - i,
    {
        let seg = &segments[i];
        proof {
            let vs = views_of(segments@);
            assert(vs.subrange(from as int, i + 1) =~= vs.subrange(from as int, i as int).push(
                vs[i as int],
            ));
            lemma_seg_preds_push(
                vs.subrange(from as int, i as int),
                vs[i as int],
                base as int,
            );
            assert(vs[i as int] == seg@);
        }
        if is_single_star(seg) {
            proof {
                assert(preds_v(out@) + Seq::<PredV>::empty() =~= preds_v(out@));
            }
        } else {
            let op = if contains_star(seg.as_str()) {
                Op::Like
            } else {
                Op::Equal
            };
            let p = Pred { position: base + (i - from), op, value: replace_stars(seg.as_str()) };
            proof {
                let vs = views_of(segments@);
                assert(preds_v(out@.push(p)) =~= preds_v(out@) + seq![p@]);
                assert(seq![p@] =~= seg_pred(vs[i as int], base as int + i - from));
            }
            out.push(p);
        }
        i = i + 1;
    }
    out
}

/// Compile a pattern without `**` into the one predicate set selecting
/// exactly the paths of the pattern's depth: a predicate per non-`*` segment
/// and the terminal sentinel equality. A pattern holding `**` is refused.
pub fn compile_fixed(segments: &Vec<String>) -> (r: Result<Vec<Pred>, ValidationError>)
    ensures
        r is Ok <==> !has_globstar(views_of(segments@)),
        r matches Ok(ps) ==> preds_v(ps@) == fixed_preds(views_of(segments@)),
        r is Err ==> r == Err::<Vec<Pred>, ValidationError>(ValidationError::UnexpectedGlobstar),
{
    let n = segments.len();
    let mut i: usize = 0;
    while i < n
        invariant
            i <= n == segments@.len(),
            forall|k: int| 0 <= k < i ==> (#[trigger] segments@[k])@ != seq!['*', '*'],
        decreases n - i,
    {
        if is_globstar(&segments[i]) {
            proof {
                assert(views_of(segments@)[i as int] == segments@[i as int]@);
                assert(has_globstar(views_of(segments@)));
            }
            return Err(ValidationError::UnexpectedGlobstar);
        }
        i = i + 1;
    }
    proof {
        assert(forall|k: int|
            0 <= k < segments@.len() ==> views_of(segments@)[k] == (#[trigger] segments@[k])@);
    }
    let mut ps = preds_of_range(segments, 0, n, 0);
    let sentinel = Pred { position: n, op: Op::Equal, value: String::from_str("__END__") };
    proof {
        let vs = views_of(segments@);
        assert(vs.subrange(0, n as int) =~= vs);
        assert(preds_v(ps@.push(sentinel)) =~= preds_v(ps@).push(sentinel@));
        assert(preds_v(ps@.push(sentinel)) =~= fixed_preds(vs));
    }
    ps.push(sentinel);
    Ok(ps)
}

/// Compile a pattern with exactly one `**` into one predicate set per depth
/// the wildcard can stand for: the segments before it at their own columns,
/// those after it (and the sentinel) shifted to each candidate depth. Yields
/// no sets when even the fixed segments exceed the column schema. A pattern
/// without `**` falls back to [`compile_fixed`]; one with several `**` is
/// refused.
pub fn compile_globstar(segments: &Vec<String>) -> (r: Result<
    Vec<Vec<Pred>>,
    ValidationError,
>)
    ensures
        r is Ok <==> (!has_globstar(views_of(segments@)) || has_lone_globstar(
            views_of(segments@),
        )),
        r is Err ==> r == Err::<Vec<Vec<Pred>>, ValidationError>(
            ValidationError::UnexpectedGlobstar,
        ),
        r matches Ok(sets) ==> (!has_globstar(views_of(segments@)) ==> sets_v(sets@) == seq![
            fixed_preds(views_of(segments@)),
        ]),
        r matches Ok(sets) ==> (has_lone_globstar(views_of(segments@)) ==> sets_v(sets@).len()
            == globstar_set_count(views_of(segments@), globstar_pos(views_of(segments@)))),
        r matches Ok(sets) ==> (has_lone_globstar(views_of(segments@)) ==> (forall|i: int|
            0 <= i < sets_v(sets@).len() ==> #[trigger] sets_v(sets@)[i] == seg_preds(
                views_of(segments@).subrange(0, globstar_pos(views_of(segments@))),
                0,
            ) + seg_preds(
                globstar_tail(views_of(segments@), globstar_pos(views_of(segments@))),
                globstar_pos(views_of(segments@)) + i,
            ))),
{
    let n = segments.len();
    let mut found = false;
    let mut second = false;
    let mut pos: usize = 0;
    let mut i: usize = 0;
    while i < n
        invariant
            i <= n == segments@.len(),
            !found ==> !second && pos == 0 && (forall|k: int|
                0 <= k < i ==> (#[trigger] segments@[k])@ != seq!['*', '*']),
            found ==> pos < i && segments@[pos as int]@ == seq!['*', '*'] && (forall|k: int|
                0 <= k < pos ==> (#[trigger] segments@[k])@ != seq!['*', '*']),
            found && !second ==> (forall|k: int|
                pos < k < i ==> (#[trigger] segments@[k])@ != seq!['*', '*']),
            second ==> found && (exists|k: int|
                pos < k < i && (#[trigger] segments@[k])@ == seq!['*', '*']),
        decreases n - i,
    {
        if is_globstar(&segments[i]) {
            if !found {
                found = true;
                pos = i;
            } else {
                second = true;
            }
        }
        i = i + 1;
    }
    let ghost vs = views_of(segments@);
    if !found {
        proof {
            assert(forall|k: int| 0 <= k < vs.len() ==> vs[k] == (#[trigger] segments@[k])@);
            assert(!has_globstar(vs));
        }
        match compile_fixed(segments) {
            Ok(ps) => {
                let mut sets: Vec<Vec<Pred>> = Vec::new();
                proof {
                    assert(sets_v(sets@.push(ps)) =~= seq![preds_v(ps@)]);
                }
                sets.push(ps);
                return Ok(sets);
            },
            Err(e) => {
                return Err(e);
            },
        }
    }
    if second {
        proof {
            let k = choose|k: int|
                pos < k < n && (#[trigger] segments@[k])@ == seq!['*', '*'];
            assert(vs[k] == seq!['*', '*']);
            assert(vs[pos as int] == seq!['*', '*']);
            assert(forall|p: int| !lone_globstar_at(vs, p)) by {
                assert forall|p: int| !lone_globstar_at(vs, p) by {
                    if lone_globstar_at(vs, p) {
                        if p != pos as int {
                            assert(vs[pos as int] != seq!['*', '*']);
                        } else {
                            assert(vs[k] != seq!['*', '*']);
                        }
                    }
                }
            }
            assert(vs[pos as int] == seq!['*', '*']);
            assert(has_globstar(vs));
        }
        return Err(ValidationError::UnexpectedGlobstar);
    }
    proof {
        assert(forall|k: int| 0 <= k < vs.len() ==> vs[k] == (#[trigger] segments@[k])@);
        assert(lone_globstar_at(vs, pos as int));
        let q = globstar_pos(vs);
        assert(lone_globstar_at(vs, q));
        if q != pos as int {
            assert(vs[pos as int] != seq!['*', '*']);
        }
        assert(q == pos as int);
    }
    let mut tail: Vec<String> = Vec::new();
    let mut t: usize = pos + 1;
    while t < n
        invariant
            pos + 1 <= t <= n == segments@.len(),
            views_of(tail@) =~= views_of(segments@).subrange(pos + 1, t as int),
        decreases n - t,
    {
        let seg = segments[t].clone();
        proof {
            assert(views_of(tail@.push(seg)) =~= views_of(tail@).push(seg@));
            assert(views_of(segments@).subrange(pos + 1, t + 1) =~= views_of(
                segments@,
            ).subrange(pos + 1, t as int).push(views_of(segments@)[t as int]));
        }
        tail.push(seg);
        t = t + 1;
    }
    let sentinel = String::from_str("__END__");
    proof {
        assert(views_of(tail@.push(sentinel)) =~= views_of(tail@).push(end_marker()));
        assert(views_of(tail@).push(end_marker()) =~= globstar_tail(vs, pos as int));
    }
    tail.push(sentinel);
    if pos + tail.len() > COMPONENTS {
        let sets: Vec<Vec<Pred>> = Vec::new();
        proof {
            assert(sets_v(sets@) =~= Seq::<Seq<PredV>>::empty());
        }
        return Ok(sets);
    }
    let num = COMPONENTS - pos - tail.len() + 1;
    let mut sets: Vec<Vec<Pred>> = Vec::new();
    let mut idx: usize = 0;
    while idx < num
        invariant
            idx <= num,
            num == COMPONENTS - pos - tail@.len() + 1,
            pos + tail@.len() <= COMPONENTS,
            pos < segments@.len(),
            views_of(tail@) == globstar_tail(vs, pos as int),
            vs == views_of(segments@),
            sets_v(sets@).len() == idx,
            forall|k: int|
                0 <= k < idx ==> #[trigger] sets_v(sets@)[k] == seg_preds(
                    vs.subrange(0, pos as int),
                    0,
                ) + seg_preds(globstar_tail(vs, pos as int), pos as int + k),
        decreases num - idx,
    {
        let mut set = preds_of_range(segments, 0, pos, 0);
        let mut tp = preds_of_range(&tail, 0, tail.len(), pos + idx);
        proof {
            assert(views_of(tail@).subrange(0, tail@.len() as int) =~= views_of(tail@));
            assert(preds_v(set@ + tp@) =~= preds_v(set@) + preds_v(tp@));
        }
        set.append(&mut tp);
        proof {
            assert(sets_v(sets@.push(set)) =~= sets_v(sets@).push(preds_v(set@)));
        }
        sets.push(set);
        idx = idx + 1;
    }
    Ok(sets)
}

} // verus!
