use vstd::prelude::*;
use vstd::string::*;

verus! {

pub open spec fn is_digit(c: char) -> bool {
    '0' <= c && c <= '9'
}

pub open spec fn digit_value(c: char) -> int {
    c as int - '0' as int
}

pub open spec fn all_digits(s: Seq<char>) -> bool {
    forall|i: int| 0 <= i < s.len() ==> is_digit(#[trigger] s[i])
}

/// The value of a run of decimal digits, most significant first.
pub open spec fn digits_value(s: Seq<char>) -> int
    decreases s.len(),
{
    if s.len() == 0 {
        0
    } else {
        digits_value(s.drop_last()) * 10 + digit_value(s.last())
    }
}

/// The integer that `s` writes: one or more digits, optionally after a minus sign.
pub open spec fn numeral_value(s: Seq<char>) -> Option<int> {
    if s.len() > 1 && s[0] == '-' && all_digits(s.drop_first()) {
        Some(-digits_value(s.drop_first()))
    } else if s.len() > 0 && all_digits(s) {
        Some(digits_value(s))
    } else {
        None
    }
}

/// The `i64` that `s` writes, if it writes one in range.
pub open spec fn i64_of(s: Seq<char>) -> Option<i64> {
    match numeral_value(s) {
        Some(n) => if i64::MIN <= n <= i64::MAX {
            Some(n as i64)
        } else {
            None
        },
        None => None,
    }
}

proof fn lemma_digits_nonneg(s: Seq<char>)
    requires
        all_digits(s),
    ensures
        digits_value(s) >= 0,
    decreases s.len(),
{
    if s.len() > 0 {
        lemma_digits_nonneg(s.drop_last());
    }
}

/// Reads the digits of `s[from..to]` as a magnitude, if it stays at or below `limit`.
fn read_magnitude(s: &str, from: usize, to: usize, limit: u64) -> (r: Option<u64>)
    requires
        from <= to <= s@.len(),
        all_digits(s@.subrange(from as int, to as int)),
        limit >= 9,
    ensures
        r is Some <==> digits_value(s@.subrange(from as int, to as int)) <= limit,
        r matches Some(m) ==> m as int == digits_value(s@.subrange(from as int, to as int)),
{
    let mut acc: u64 = 0;
    let mut i: usize = from;
    while i < to
        invariant
            from <= i <= to <= s@.len(),
            all_digits(s@.subrange(from as int, to as int)),
            acc as int == digits_value(s@.subrange(from as int, i as int)),
            acc <= limit,
            limit >= 9,
        decreases to - i,
    {
        let c = s.get_char(i);
        let ghost prefix = s@.subrange(from as int, i as int);
        let ghost next = s@.subrange(from as int, i + 1);
        assert(next.drop_last() =~= prefix);
        assert(next.last() == c);
        assert(s@.subrange(from as int, to as int)[i - from] == c);
        assert(is_digit(c));
        let d = (c as u32 - '0' as u32) as u64;
        assert(digits_value(next) == acc * 10 + d);
        if acc > (limit - d) / 10 {
            proof {
                let q = (limit - d) / 10;
                assert(acc * 10 + d > limit) by (nonlinear_arith)
                    requires
                        acc > q,
                        q == (limit - d) / 10,
                        d <= 9,
                        limit >= 9,
                ;
                let whole = s@.subrange(from as int, to as int);
                lemma_digits_grow(whole, (i + 1 - from) as int);
                assert(whole.subrange(0, (i + 1 - from) as int) =~= next);
            }
            return None;
        }
        assert(acc * 10 + d <= limit) by (nonlinear_arith)
            requires
                acc <= (limit - d) / 10,
                d <= 9,
                limit >= 9,
        ;
        acc = acc * 10 + d;
        i = i + 1;
    }
    assert(s@.subrange(from as int, i as int) =~= s@.subrange(from as int, to as int));
    Some(acc)
}

/// A longer run of digits never has a smaller value than its prefix.
proof fn lemma_digits_grow(s: Seq<char>, k: int)
    requires
        all_digits(s),
        0 <= k <= s.len(),
    ensures
        digits_value(s.subrange(0, k)) <= digits_value(s),
    decreases s.len() - k,
{
    if k < s.len() {
        lemma_digits_grow(s, k + 1);
        let p = s.subrange(0, k + 1);
        assert(p.drop_last() =~= s.subrange(0, k));
        assert(is_digit(s[k]));
        lemma_digits_nonneg(s.subrange(0, k));
    } else {
        assert(s.subrange(0, k) =~= s);
    }
}

/// Parses `s[from..to]` as a decimal integer in the range of `i64`.
pub fn parse_i64_range(s: &str, from: usize, to: usize) -> (r: Option<i64>)
    requires
        from <= to <= s@.len(),
    ensures
        r == i64_of(s@.subrange(from as int, to as int)),
{
    let ghost t = s@.subrange(from as int, to as int);
    if from == to {
        return None;
    }
    let negative = s.get_char(from) == '-';
    let start = if negative { from + 1 } else { from };
    if start == to {
        assert(t.len() == 1);
        return None;
    }
    let mut i: usize = start;
    while i < to
        invariant
            start <= i <= to <= s@.len(),
            from < to,
            t == s@.subrange(from as int, to as int),
            negative == (s@[from as int] == '-'),
            start == if negative { from + 1 } else { from as int },
            forall|j: int| start <= j < i ==> is_digit(#[trigger] s@[j]),
        decreases to - i,
    {
        let c = s.get_char(i);
        if !('0' <= c && c <= '9') {
            assert(!is_digit(t[i - from]));
            if negative {
                assert(t.drop_first()[i - from - 1] == t[i - from]);
            } else {
                assert(t[0] == '-' ==> !all_digits(t.drop_first())) by {
                    if t[0] == '-' {
                        assert(false);
                    }
                }
            }
            return None;
        }
        i = i + 1;
    }
    let ghost mag = s@.subrange(start as int, to as int);
    assert(all_digits(mag)) by {
        assert forall|j: int| 0 <= j < mag.len() implies is_digit(#[trigger] mag[j]) by {
            assert(mag[j] == s@[start + j]);
        }
    }
    if negative {
        assert(t.drop_first() =~= mag);
        let m = read_magnitude(s, start, to, 9223372036854775808u64);
        match m {
            Some(v) => {
                if v == 9223372036854775808u64 {
                    Some(i64::MIN)
                } else {
                    Some(-(v as i64))
                }
            },
            None => None,
        }
    } else {
        assert(t =~= mag);
        assert(t[0] != '-') by {
            assert(is_digit(mag[0]));
        }
        let m = read_magnitude(s, start, to, 9223372036854775807u64);
        match m {
            Some(v) => Some(v as i64),
            None => None,
        }
    }
}

/// Whether the characters of `s[from..to]` are exactly `lit`.
pub fn range_is(s: &str, from: usize, to: usize, lit: &str) -> (r: bool)
    requires
        from <= to <= s@.len(),
    ensures
        r == (s@.subrange(from as int, to as int) == lit@),
{
    let n = lit.unicode_len();
    if to - from != n {
        return false;
    }
    let mut i: usize = 0;
    while i < n
        invariant
            n == lit@.len(),
            to - from == n,
            from <= to <= s@.len(),
            0 <= i <= n,
            forall|j: int| 0 <= j < i ==> s@[from + j] == lit@[j],
        decreases n - i,
    {
        if s.get_char(from + i) != lit.get_char(i) {
            assert(s@.subrange(from as int, to as int)[i as int] != lit@[i as int]);
            return false;
        }
        i = i + 1;
    }
    assert(s@.subrange(from as int, to as int) =~= lit@);
    true
}

} // verus!
