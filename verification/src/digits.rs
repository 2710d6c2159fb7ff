//! Decimal digit strings: the correspondence between a natural number and its
//! canonical base-10 rendering, with executable conversion in both directions.

use vstd::prelude::*;

verus! {

pub open spec fn is_digit_char(c: char) -> bool {
    c == '0' || c == '1' || c == '2' || c == '3' || c == '4' || c == '5' || c == '6' || c == '7'
        || c == '8' || c == '9'
}

/// Value of one decimal digit character; unconstrained for other characters.
pub open spec fn digit_val(c: char) -> nat {
    if c == '0' {
        0
    } else if c == '1' {
        1
    } else if c == '2' {
        2
    } else if c == '3' {
        3
    } else if c == '4' {
        4
    } else if c == '5' {
        5
    } else if c == '6' {
        6
    } else if c == '7' {
        7
    } else if c == '8' {
        8
    } else if c == '9' {
        9
    } else {
        10
    }
}

/// The digit character for a value below ten.
pub open spec fn digit_char(d: nat) -> char {
    if d == 0 {
        '0'
    } else if d == 1 {
        '1'
    } else if d == 2 {
        '2'
    } else if d == 3 {
        '3'
    } else if d == 4 {
        '4'
    } else if d == 5 {
        '5'
    } else if d == 6 {
        '6'
    } else if d == 7 {
        '7'
    } else if d == 8 {
        '8'
    } else {
        '9'
    }
}

pub open spec fn all_digits(s: Seq<char>) -> bool {
    forall|i: int| 0 <= i < s.len() ==> is_digit_char(#[trigger] s[i])
}

/// The number denoted by a digit string, read most significant first.
pub open spec fn digits_val(s: Seq<char>) -> nat
    decreases s.len(),
{
    if s.len() == 0 {
        0
    } else {
        digits_val(s.drop_last()) * 10 + digit_val(s.last())
    }
}

/// The canonical rendering of a natural number: no leading zero except for zero itself.
pub open spec fn digits_of(n: nat) -> Seq<char>
    decreases n,
{
    if n < 10 {
        seq![digit_char(n)]
    } else {
        digits_of(n / 10).push(digit_char(n % 10))
    }
}

/// A digit string is canonical when it is nonempty and has no leading zero
/// (except for the one-digit string "0" itself).
pub open spec fn canonical_digits(s: Seq<char>) -> bool {
    all_digits(s) && s.len() >= 1 && (s.len() == 1 || s[0] != '0')
}

pub proof fn lemma_digits_of_canonical(n: nat)
    ensures
        canonical_digits(digits_of(n)),
        n >= 1 ==> digits_of(n)[0] != '0',
    decreases n,
{
    if n < 10 {
    } else {
        lemma_digits_of_canonical(n / 10);
        assert(digits_of(n) == digits_of(n / 10).push(digit_char(n % 10)));
        assert(digits_of(n)[0] == digits_of(n / 10)[0]);
    }
}

pub proof fn lemma_digits_of_val(n: nat)
    ensures
        digits_val(digits_of(n)) == n,
    decreases n,
{
    if n < 10 {
        let t = seq![digit_char(n)];
        assert(t.drop_last() =~= Seq::<char>::empty());
        assert(digits_val(t.drop_last()) == 0);
        assert(digits_val(t) == digit_val(digit_char(n)));
    } else {
        lemma_digits_of_val(n / 10);
        let s = digits_of(n / 10).push(digit_char(n % 10));
        assert(s.drop_last() =~= digits_of(n / 10));
        assert(digits_val(s) == (n / 10) * 10 + (n % 10));
        vstd::arithmetic::div_mod::lemma_fundamental_div_mod(n as int, 10);
    }
}

/// A nonempty digit string that does not start with '0' denotes a positive number.
pub proof fn lemma_nonzero_head_positive(s: Seq<char>)
    requires
        all_digits(s),
        s.len() >= 1,
        s[0] != '0',
    ensures
        digits_val(s) >= 1,
    decreases s.len(),
{
    if s.len() == 1 {
        assert(is_digit_char(s[0]));
    } else {
        assert(s.drop_last()[0] == s[0]);
        lemma_nonzero_head_positive(s.drop_last());
    }
}

/// Rendering the value of a canonical digit string gives the string back.
pub proof fn lemma_canonical_round_trip(s: Seq<char>)
    requires
        canonical_digits(s),
    ensures
        digits_of(digits_val(s)) == s,
    decreases s.len(),
{
    if s.len() == 1 {
        assert(s.drop_last() =~= Seq::<char>::empty());
        assert(digits_val(s.drop_last()) == 0);
        assert(digits_val(s) == digit_val(s[0]));
        assert(is_digit_char(s[0]));
        assert(digits_of(digits_val(s)) =~= s);
    } else {
        let s0 = s.drop_last();
        let c = s.last();
        assert(s0[0] == s[0]);
        assert(all_digits(s0));
        lemma_canonical_round_trip(s0);
        lemma_nonzero_head_positive(s0);
        let v0 = digits_val(s0);
        let v = digits_val(s);
        assert(v == v0 * 10 + digit_val(c));
        assert(is_digit_char(c));
        assert(digit_val(c) < 10);
        assert(v >= 10);
        vstd::arithmetic::div_mod::lemma_fundamental_div_mod_converse(
            v as int,
            10,
            v0 as int,
            digit_val(c) as int,
        );
        assert(v / 10 == v0);
        assert(v % 10 == digit_val(c));
        assert(digit_char(digit_val(c)) == c);
        assert(digits_of(v) == digits_of(v0).push(c));
        assert(digits_of(v) =~= s);
    }
}

/// Reading more digits never decreases the denoted value.
pub proof fn lemma_digits_val_prefix_le(s: Seq<char>, i: int, j: int)
    requires
        0 <= i <= j <= s.len(),
    ensures
        digits_val(s.subrange(0, i)) <= digits_val(s.subrange(0, j)),
    decreases j - i,
{
    if i < j {
        lemma_digits_val_prefix_le(s, i, j - 1);
        let t = s.subrange(0, j);
        assert(t.drop_last() =~= s.subrange(0, j - 1));
        assert(digits_val(t) == digits_val(s.subrange(0, j - 1)) * 10 + digit_val(t.last()));
    }
}

pub fn is_digit(c: char) -> (r: bool)
    ensures
        r == is_digit_char(c),
{
    c == '0' || c == '1' || c == '2' || c == '3' || c == '4' || c == '5' || c == '6' || c == '7'
        || c == '8' || c == '9'
}

pub fn digit_value(c: char) -> (d: u32)
    requires
        is_digit_char(c),
    ensures
        d == digit_val(c),
        d <= 9,
{
    if c == '0' {
        0
    } else if c == '1' {
        1
    } else if c == '2' {
        2
    } else if c == '3' {
        3
    } else if c == '4' {
        4
    } else if c == '5' {
        5
    } else if c == '6' {
        6
    } else if c == '7' {
        7
    } else if c == '8' {
        8
    } else {
        9
    }
}

fn digit_str(d: u32) -> (r: &'static str)
    requires
        d <= 9,
    ensures
        r@ == seq![digit_char(d as nat)],
{
    proof {
        reveal_strlit("0");
        reveal_strlit("1");
        reveal_strlit("2");
        reveal_strlit("3");
        reveal_strlit("4");
        reveal_strlit("5");
        reveal_strlit("6");
        reveal_strlit("7");
        reveal_strlit("8");
        reveal_strlit("9");
    }
    let r = if d == 0 {
        "0"
    } else if d == 1 {
        "1"
    } else if d == 2 {
        "2"
    } else if d == 3 {
        "3"
    } else if d == 4 {
        "4"
    } else if d == 5 {
        "5"
    } else if d == 6 {
        "6"
    } else if d == 7 {
        "7"
    } else if d == 8 {
        "8"
    } else {
        "9"
    };
    proof {
        assert(r@ =~= seq![digit_char(d as nat)]);
    }
    r
}

/// Render a number in its canonical decimal form.
pub fn u32_to_string(n: u32) -> (r: String)
    ensures
        r@ == digits_of(n as nat),
    decreases n,
{
    if n < 10 {
        String::from_str(digit_str(n))
    } else {
        let mut s = u32_to_string(n / 10);
        s.append(digit_str(n % 10));
        proof {
            assert(s@ =~= digits_of((n / 10) as nat).push(digit_char((n % 10) as nat)));
        }
        s
    }
}

/// Read the digit characters of `s` in positions `[from, to)` as a number.
/// `None` means the value does not fit in a `u32`.
pub fn parse_digits(s: &str, from: usize, to: usize) -> (r: Option<u32>)
    requires
        from <= to <= s@.len(),
        forall|k: int| from <= k < to ==> is_digit_char(#[trigger] s@[k]),
    ensures
        r matches Some(v) ==> v == digits_val(s@.subrange(from as int, to as int)) && digits_val(
            s@.subrange(from as int, to as int),
        ) <= u32::MAX,
        r is None ==> digits_val(s@.subrange(from as int, to as int)) > u32::MAX,
{
    let mut val: u32 = 0;
    let mut i: usize = from;
    while i < to
        invariant
            from <= i <= to <= s@.len(),
            forall|k: int| from <= k < to ==> is_digit_char(#[trigger] s@[k]),
            val == digits_val(s@.subrange(from as int, i as int)),
        decreases to - i,
    {
        let c = s.get_char(i);
        let d = digit_value(c);
        proof {
            let t = s@.subrange(from as int, i + 1);
            assert(t.drop_last() =~= s@.subrange(from as int, i as int));
            assert(t.last() == s@[i as int]);
        }
        if val > (u32::MAX - d) / 10 {
            proof {
                let partial = digits_val(s@.subrange(from as int, i + 1));
                let limit = (u32::MAX - d) as int;
                vstd::arithmetic::div_mod::lemma_fundamental_div_mod(limit, 10);
                assert(val * 10 + d > u32::MAX);
                assert(partial > u32::MAX);
                lemma_digits_val_prefix_le(
                    s@.subrange(from as int, to as int),
                    i + 1 - from,
                    to - from,
                );
                assert(s@.subrange(from as int, to as int).subrange(0, i + 1 - from) =~= s@
                    .subrange(from as int, i + 1));
                assert(s@.subrange(from as int, to as int).subrange(0, to - from) =~= s@.subrange(
                    from as int,
                    to as int,
                ));
            }
            return None;
        }
        val = val * 10 + d;
        i = i + 1;
    }
    proof {
        assert(s@.subrange(from as int, to as int) =~= s@.subrange(from as int, i as int));
    }
    Some(val)
}

} // verus!
