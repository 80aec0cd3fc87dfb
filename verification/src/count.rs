//! Decimal counters as the key/value store keeps them.
use vstd::prelude::*;
use vstd::string::*;

verus! {

/// `c` is an ASCII decimal digit.
pub open spec fn is_digit(c: char) -> bool {
    '0' <= c && c <= '9'
}

/// The number that a run of decimal digits spells.
pub open spec fn digits_value(s: Seq<char>) -> int
    decreases s.len(),
{
    if s.len() == 0 {
        0
    } else {
        digits_value(s.drop_last()) * 10 + (s.last() as int - '0' as int)
    }
}

/// The digits of a counter's text, after an optional leading `+`.
pub open spec fn unsigned_digits(s: Seq<char>) -> Seq<char> {
    if s.len() > 0 && s[0] == '+' {
        s.drop_first()
    } else {
        s
    }
}

/// The `u64` that a counter's text holds, as `str::parse::<u64>` reads it: an
/// optional `+`, then one or more decimal digits, with a value that fits in
/// 64 bits. Any other text holds no counter.
pub open spec fn count_text(s: Seq<char>) -> Option<u64> {
    let d = unsigned_digits(s);
    if d.len() > 0 && (forall|i: int| 0 <= i < d.len() ==> is_digit(#[trigger] d[i]))
        && digits_value(d) <= u64::MAX {
        Some(digits_value(d) as u64)
    } else {
        None
    }
}

proof fn lemma_digits_value_nonneg(s: Seq<char>)
    requires
        forall|i: int| 0 <= i < s.len() ==> is_digit(#[trigger] s[i]),
    ensures
        digits_value(s) >= 0,
    decreases s.len(),
{
    if s.len() > 0 {
        lemma_digits_value_nonneg(s.drop_last());
    }
}

/// Along the digits of a number, the values of the prefixes never decrease.
proof fn lemma_digits_prefix_le(s: Seq<char>, j: int)
    requires
        0 <= j <= s.len(),
        forall|i: int| 0 <= i < s.len() ==> is_digit(#[trigger] s[i]),
    ensures
        digits_value(s.subrange(0, j)) <= digits_value(s),
    decreases s.len() - j,
{
    if j < s.len() {
        lemma_digits_prefix_le(s, j + 1);
        let p = s.subrange(0, j + 1);
        assert(p.drop_last() =~= s.subrange(0, j));
        lemma_digits_value_nonneg(s.subrange(0, j));
    } else {
        assert(s.subrange(0, j) =~= s);
    }
}

/// Reads the counter that `s` holds, or `None` when `s` holds none.
pub fn parse_count(s: &str) -> (r: Option<u64>)
    ensures
        r == count_text(s@),
{
    let cs = crate::text::chars_of(s);
    let n = cs.len();
    let mut i: usize = 0;
    if n > 0 && cs[0] == '+' {
        i = 1;
    }
    let ghost d = unsigned_digits(s@);
    assert(d =~= s@.subrange(i as int, n as int));
    if i == n {
        return None;
    }
    let start = i;
    let mut v: u64 = 0;
    while i < n
        invariant
            cs@ == s@,
            n == cs@.len(),
            d == unsigned_digits(s@),
            d =~= s@.subrange(start as int, n as int),
            start <= i <= n,
            forall|k: int| start <= k < i ==> is_digit(#[trigger] s@[k]),
            v as int == digits_value(s@.subrange(start as int, i as int)),
        decreases n - i,
    {
        let c = cs[i];
        if !('0' <= c && c <= '9') {
            assert(d[i - start] == c);
            assert(!is_digit(d[i - start]));
            return None;
        }
        let digit: u64 = (c as u32 - '0' as u32) as u64;
        let ghost next = s@.subrange(start as int, i + 1);
        assert(next.drop_last() =~= s@.subrange(start as int, i as int));
        let times = v.checked_mul(10);
        match times {
            None => {
                proof {
                    lemma_overflow_ends(s@, start as int, i as int, n as int);
                }
                return None;
            },
            Some(t) => {
                let sum = t.checked_add(digit);
                match sum {
                    None => {
                        proof {
                            lemma_overflow_ends(s@, start as int, i as int, n as int);
                        }
                        return None;
                    },
                    Some(w) => {
                        v = w;
                    },
                }
            },
        }
        i = i + 1;
    }
    assert(s@.subrange(start as int, n as int) =~= d);
    Some(v)
}

/// A leading `+` changes nothing: `+` followed by a text that does not itself
/// start with `+` holds the same counter as that text.
pub proof fn lemma_count_plus_sign(s: Seq<char>)
    requires
        s.len() == 0 || s[0] != '+',
    ensures
        count_text(seq!['+'] + s) == count_text(s),
{
    assert((seq!['+'] + s).drop_first() =~= s);
}

/// A single decimal digit holds its own value.
pub proof fn lemma_count_one_digit(c: char)
    requires
        is_digit(c),
    ensures
        count_text(seq![c]) == Some((c as int - '0' as int) as u64),
{
    let d = seq![c];
    assert(d[0] != '+');
    assert(unsigned_digits(d) == d);
    assert(d.drop_last() =~= Seq::<char>::empty());
    assert(d.last() == c);
    assert(digits_value(d.drop_last()) == 0);
    assert(digits_value(d) == c as int - '0' as int);
    assert(forall|i: int| 0 <= i < d.len() ==> is_digit(#[trigger] d[i]));
}

/// Appending a decimal digit to a run of digits multiplies its counter by ten
/// and adds the digit, as long as the result fits in 64 bits; past that the
/// text holds no counter.
pub proof fn lemma_count_append_digit(d: Seq<char>, c: char)
    requires
        d.len() > 0,
        forall|i: int| 0 <= i < d.len() ==> is_digit(#[trigger] d[i]),
        is_digit(c),
        count_text(d) is Some,
    ensures
        count_text(d) matches Some(v) && ({
            let w = v as int * 10 + (c as int - '0' as int);
            &&& w <= u64::MAX ==> count_text(d.push(c)) == Some(w as u64)
            &&& w > u64::MAX ==> count_text(d.push(c)) is None
        }),
{
    assert(d[0] != '+');
    assert(d.push(c)[0] == d[0]);
    assert(d.push(c).drop_last() =~= d);
    assert forall|i: int| 0 <= i < d.push(c).len() implies is_digit(#[trigger] d.push(c)[i]) by {
        if i < d.len() {
            assert(d.push(c)[i] == d[i]);
        }
    }
    lemma_digits_value_nonneg(d);
}

/// When the value of the digits up to and including position `i` does not fit
/// in 64 bits, the text holds no counter.
proof fn lemma_overflow_ends(s: Seq<char>, start: int, i: int, n: int)
    requires
        0 <= start <= i < n,
        n == s.len(),
        unsigned_digits(s) =~= s.subrange(start, n),
        forall|k: int| start <= k <= i ==> is_digit(#[trigger] s[k]),
        digits_value(s.subrange(start, i + 1)) > u64::MAX,
    ensures
        count_text(s) is None,
{
    let d = s.subrange(start, n);
    if forall|k: int| 0 <= k < d.len() ==> is_digit(#[trigger] d[k]) {
        lemma_digits_prefix_le(d, i + 1 - start);
        assert(d.subrange(0, i + 1 - start) =~= s.subrange(start, i + 1));
    }
}

} // verus!
