//! Path text utilities: splitting a dotted path into segments, joining
//! segments back, and converting glob wildcards to the store's match wildcard.

use vstd::prelude::*;

verus! {

/// The views of a vector of strings.
pub open spec fn views_of(parts: Seq<String>) -> Seq<Seq<char>> {
    parts.map_values(|p: String| p@)
}

/// The views of a vector of string pairs.
pub open spec fn pair_views(ps: Seq<(String, String)>) -> Seq<(Seq<char>, Seq<char>)> {
    ps.map_values(|p: (String, String)| (p.0@, p.1@))
}

/// `s` holds no occurrence of `sep`.
pub open spec fn no_sep(s: Seq<char>, sep: char) -> bool {
    forall|i: int| 0 <= i < s.len() ==> #[trigger] s[i] != sep
}

/// The parts joined with `sep` between consecutive parts.
pub open spec fn join_with(parts: Seq<Seq<char>>, sep: char) -> Seq<char>
    decreases parts.len(),
{
    if parts.len() == 0 {
        Seq::empty()
    } else if parts.len() == 1 {
        parts[0]
    } else {
        join_with(parts.drop_last(), sep) + seq![sep] + parts.last()
    }
}

/// `parts` is the decomposition of `s` at every occurrence of `sep`.
pub open spec fn is_split(s: Seq<char>, sep: char, parts: Seq<Seq<char>>) -> bool {
    parts.len() >= 1 && join_with(parts, sep) == s && (forall|i: int|
        0 <= i < parts.len() ==> no_sep(#[trigger] parts[i], sep))
}

pub proof fn lemma_join_push(parts: Seq<Seq<char>>, x: Seq<char>, sep: char)
    requires
        parts.len() >= 1,
    ensures
        join_with(parts.push(x), sep) == join_with(parts, sep) + seq![sep] + x,
{
    let e = parts.push(x);
    assert(e.drop_last() =~= parts);
    assert(e.last() == x);
}

proof fn lemma_join_extend_last(parts: Seq<Seq<char>>, x: Seq<char>, c: char, sep: char)
    ensures
        join_with(parts.push(x.push(c)), sep) == join_with(parts.push(x), sep).push(c),
{
    if parts.len() == 0 {
        assert(join_with(parts.push(x.push(c)), sep) == x.push(c));
        assert(join_with(parts.push(x), sep) == x);
    } else {
        lemma_join_push(parts, x.push(c), sep);
        lemma_join_push(parts, x, sep);
        assert((join_with(parts, sep) + seq![sep] + x.push(c)) =~= (join_with(parts, sep)
            + seq![sep] + x).push(c));
    }
}

/// Split `s` at every occurrence of `sep`; an empty input gives one empty part.
pub fn split_on(s: &str, sep: char) -> (parts: Vec<String>)
    ensures
        is_split(s@, sep, views_of(parts@)),
{
    let n = s.unicode_len();
    let mut parts: Vec<String> = Vec::new();
    let mut start: usize = 0;
    let mut i: usize = 0;
    while i < n
        invariant
            start <= i <= n,
            n == s@.len(),
            forall|k: int| start <= k < i ==> #[trigger] s@[k] != sep,
            forall|k: int| 0 <= k < parts@.len() ==> no_sep(#[trigger] views_of(parts@)[k], sep),
            join_with(views_of(parts@).push(s@.subrange(start as int, i as int)), sep) == s@
                .subrange(0, i as int),
        decreases n - i,
    {
        let c = s.get_char(i);
        if c == sep {
            let piece = s.substring_char(start, i).to_owned();
            proof {
                let vs = views_of(parts@);
                let cur = s@.subrange(start as int, i as int);
                assert(views_of(parts@.push(piece)) =~= vs.push(cur));
                lemma_join_push(vs.push(cur), s@.subrange(i + 1, i + 1), sep);
                assert(s@.subrange(i + 1, i + 1) =~= Seq::<char>::empty());
                assert((s@.subrange(0, i as int) + seq![sep] + Seq::<char>::empty()) =~= s@
                    .subrange(0, i + 1));
            }
            parts.push(piece);
            start = i + 1;
        } else {
            proof {
                let vs = views_of(parts@);
                let cur = s@.subrange(start as int, i as int);
                lemma_join_extend_last(vs, cur, s@[i as int], sep);
                assert(cur.push(s@[i as int]) =~= s@.subrange(start as int, i + 1));
                assert(s@.subrange(0, i as int).push(s@[i as int]) =~= s@.subrange(0, i + 1));
            }
        }
        i = i + 1;
    }
    let piece = s.substring_char(start, n).to_owned();
    proof {
        let vs = views_of(parts@);
        let cur = s@.subrange(start as int, n as int);
        assert(views_of(parts@.push(piece)) =~= vs.push(cur));
        assert(s@.subrange(0, n as int) =~= s@);
    }
    parts.push(piece);
    parts
}

/// Join the first `count` parts with a dot between consecutive parts.
pub fn join_dotted(parts: &Vec<String>, count: usize) -> (r: String)
    requires
        count <= parts@.len(),
    ensures
        r@ == join_with(views_of(parts@).subrange(0, count as int), '.'),
{
    proof {
        reveal_strlit(".");
    }
    let mut out = String::new();
    let mut i: usize = 0;
    while i < count
        invariant
            i <= count <= parts@.len(),
            "."@ == seq!['.'],
            out@ == join_with(views_of(parts@).subrange(0, i as int), '.'),
        decreases count - i,
    {
        if i > 0 {
            out.append(".");
        }
        out.append(parts[i].as_str());
        proof {
            let vs = views_of(parts@);
            assert(vs.subrange(0, i + 1) =~= vs.subrange(0, i as int).push(vs[i as int]));
            if i > 0 {
                lemma_join_push(vs.subrange(0, i as int), vs[i as int], '.');
            } else {
                assert(join_with(vs.subrange(0, 1), '.') == vs.subrange(0, 1)[0]);
                assert(out@ =~= vs[0]);
            }
        }
        i = i + 1;
    }
    proof {
        if count == 0 {
            assert(out@ =~= join_with(views_of(parts@).subrange(0, 0), '.'));
        }
    }
    out
}

/// Each glob wildcard `*` replaced by the store's wildcard `%`.
pub open spec fn star_to_percent(s: Seq<char>) -> Seq<char>
    decreases s.len(),
{
    if s.len() == 0 {
        Seq::empty()
    } else {
        star_to_percent(s.drop_last()).push(
            if s.last() == '*' {
                '%'
            } else {
                s.last()
            },
        )
    }
}

/// `s` holds at least one glob wildcard.
pub open spec fn has_star(s: Seq<char>) -> bool {
    exists|i: int| 0 <= i < s.len() && s[i] == '*'
}

/// Replace every `*` in `s` by `%`.
pub fn replace_stars(s: &str) -> (r: String)
    ensures
        r@ == star_to_percent(s@),
{
    proof {
        reveal_strlit("%");
    }
    let n = s.unicode_len();
    let mut out = String::new();
    let mut i: usize = 0;
    while i < n
        invariant
            i <= n,
            n == s@.len(),
            "%"@ == seq!['%'],
            out@ == star_to_percent(s@.subrange(0, i as int)),
        decreases n - i,
    {
        let c = s.get_char(i);
        if c == '*' {
            out.append("%");
        } else {
            let piece = s.substring_char(i, i + 1);
            proof {
                assert(piece@ =~= seq![s@[i as int]]);
            }
            out.append(piece);
        }
        proof {
            let t = s@.subrange(0, i + 1);
            assert(t.drop_last() =~= s@.subrange(0, i as int));
            assert(t.last() == s@[i as int]);
            if c == '*' {
                assert(out@ =~= star_to_percent(s@.subrange(0, i as int)).push('%'));
            } else {
                assert(out@ =~= star_to_percent(s@.subrange(0, i as int)).push(s@[i as int]));
            }
        }
        i = i + 1;
    }
    proof {
        assert(s@.subrange(0, n as int) =~= s@);
    }
    out
}

/// Whether `s` holds a glob wildcard.
pub fn contains_star(s: &str) -> (r: bool)
    ensures
        r == has_star(s@),
{
    let n = s.unicode_len();
    let mut i: usize = 0;
    while i < n
        invariant
            i <= n,
            n == s@.len(),
            forall|k: int| 0 <= k < i ==> #[trigger] s@[k] != '*',
        decreases n - i,
    {
        if s.get_char(i) == '*' {
            return true;
        }
        i = i + 1;
    }
    false
}

/// Whether `seg` is exactly the single-segment wildcard `*`.
pub fn is_single_star(seg: &String) -> (r: bool)
    ensures
        r == (seg@ == seq!['*']),
{
    let s = seg.as_str();
    let r = s.unicode_len() == 1 && s.get_char(0) == '*';
    proof {
        if r {
            assert(seg@ =~= seq!['*']);
        }
    }
    r
}

/// Whether `seg` is exactly the multi-segment wildcard `**`.
pub fn is_globstar(seg: &String) -> (r: bool)
    ensures
        r == (seg@ == seq!['*', '*']),
{
    let s = seg.as_str();
    let r = s.unicode_len() == 2 && s.get_char(0) == '*' && s.get_char(1) == '*';
    proof {
        if r {
            assert(seg@ =~= seq!['*', '*']);
        }
    }
    r
}

} // verus!
