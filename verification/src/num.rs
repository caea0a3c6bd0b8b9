//! Decimal text of integers: printing and parsing.
use vstd::prelude::*;

verus! {

/// The ASCII digit for `d` (0..9).
pub open spec fn digit_char(d: nat) -> char {
    if d == 0 { '0' }
    else if d == 1 { '1' }
    else if d == 2 { '2' }
    else if d == 3 { '3' }
    else if d == 4 { '4' }
    else if d == 5 { '5' }
    else if d == 6 { '6' }
    else if d == 7 { '7' }
    else if d == 8 { '8' }
    else { '9' }
}

/// `c` is an ASCII decimal digit.
pub open spec fn is_digit(c: char) -> bool {
    '0' <= c <= '9'
}

/// The numeric value of an ASCII digit.
pub open spec fn digit_value(c: char) -> int {
    (c as int) - ('0' as int)
}

/// Decimal text of a natural number, without leading zeros.
pub open spec fn decimal(n: nat) -> Seq<char>
    decreases n,
{
    if n < 10 {
        seq![digit_char(n)]
    } else {
        decimal(n / 10).push(digit_char(n % 10))
    }
}

/// Decimal text is never empty, is a single digit exactly below ten, and
/// ends in the last digit of the number.
pub proof fn lemma_decimal_shape(n: nat)
    ensures
        decimal(n).len() >= 1,
        n < 10 <==> decimal(n).len() == 1,
        decimal(n).last() == digit_char(n % 10),
    decreases n,
{
    if n >= 10 {
        lemma_decimal_shape(n / 10);
    }
}

/// Decimal text is made of ASCII digits.
pub proof fn lemma_decimal_digits(n: nat)
    ensures
        forall|i: int| 0 <= i < decimal(n).len() ==> is_digit(#[trigger] decimal(n)[i]),
    decreases n,
{
    if n >= 10 {
        lemma_decimal_digits(n / 10);
        assert forall|i: int| 0 <= i < decimal(n).len() implies is_digit(#[trigger] decimal(n)[i]) by {
            if i < decimal(n / 10).len() {
                assert(decimal(n)[i] == decimal(n / 10)[i]);
            }
        }
    }
}

/// Different numbers have different decimal texts.
pub proof fn lemma_decimal_injective(a: nat, b: nat)
    requires
        decimal(a) == decimal(b),
    ensures
        a == b,
    decreases a,
{
    lemma_decimal_shape(a);
    lemma_decimal_shape(b);
    if a >= 10 && b >= 10 {
        assert(decimal(a / 10) =~= decimal(a).drop_last());
        assert(decimal(b / 10) =~= decimal(b).drop_last());
        lemma_decimal_injective(a / 10, b / 10);
        assert(digit_char(a % 10) == digit_char(b % 10));
    } else if a < 10 && b < 10 {
        assert(decimal(a)[0] == decimal(b)[0]);
    }
}

/// Every character of `s` is an ASCII digit.
pub open spec fn all_digits(s: Seq<char>) -> bool {
    forall|i: int| 0 <= i < s.len() ==> is_digit(#[trigger] s[i])
}

/// The value of a string of ASCII digits.
pub open spec fn digits_value(s: Seq<char>) -> int
    decreases s.len(),
{
    if s.len() == 0 {
        0
    } else {
        digits_value(s.drop_last()) * 10 + digit_value(s.last())
    }
}

/// The value of `s` read as a signed decimal integer (optional `+` or `-`
/// sign, then at least one digit), as std's `str::parse::<i64>` reads it;
/// `None` for malformed text or values outside `i64`.
pub open spec fn parse_i64_spec(s: Seq<char>) -> Option<int> {
    let neg = s.len() > 0 && s[0] == '-';
    let body = s.subrange(sign_len(s), s.len() as int);
    if body.len() == 0 || !all_digits(body) {
        None
    } else {
        let v = if neg { -digits_value(body) } else { digits_value(body) };
        if i64::MIN <= v <= i64::MAX {
            Some(v)
        } else {
            None
        }
    }
}

/// Length of the optional leading sign of `s`.
pub open spec fn sign_len(s: Seq<char>) -> int {
    if s.len() > 0 && (s[0] == '-' || s[0] == '+') { 1 } else { 0 }
}

/// Digit values are non-negative.
pub proof fn lemma_digits_value_nonneg(s: Seq<char>)
    requires
        all_digits(s),
    ensures
        digits_value(s) >= 0,
    decreases s.len(),
{
    if s.len() > 0 {
        assert(all_digits(s.drop_last())) by {
            assert forall|i: int| 0 <= i < s.drop_last().len() implies is_digit(
                #[trigger] s.drop_last()[i],
            ) by {
                assert(s.drop_last()[i] == s[i]);
            }
        }
        lemma_digits_value_nonneg(s.drop_last());
        assert(is_digit(s[s.len() - 1]));
    }
}

/// The ASCII digit for a value below ten.
pub fn digit_char_exec(d: u64) -> (c: char)
    requires
        d < 10,
    ensures
        c == digit_char(d as nat),
{
    if d == 0 { '0' }
    else if d == 1 { '1' }
    else if d == 2 { '2' }
    else if d == 3 { '3' }
    else if d == 4 { '4' }
    else if d == 5 { '5' }
    else if d == 6 { '6' }
    else if d == 7 { '7' }
    else if d == 8 { '8' }
    else { '9' }
}

/// Decimal text of `n`.
pub fn u64_text(n: u64) -> (r: Vec<char>)
    ensures
        r@ == decimal(n as nat),
    decreases n,
{
    if n < 10 {
        let mut r = Vec::new();
        r.push(digit_char_exec(n));
        assert(r@ =~= decimal(n as nat));
        r
    } else {
        let mut r = u64_text(n / 10);
        r.push(digit_char_exec(n % 10));
        r
    }
}

/// Decimal text of a `usize`.
pub fn usize_text(n: usize) -> (r: Vec<char>)
    ensures
        r@ == decimal(n as nat),
{
    u64_text(n as u64)
}


/// Reads `s` as a signed decimal `i64` (std's `str::parse::<i64>`).
pub fn parse_i64(s: &Vec<char>) -> (r: Option<i64>)
    ensures
        match r {
            Some(v) => parse_i64_spec(s@) == Some(v as int),
            None => parse_i64_spec(s@) is None,
        },
{
    let mut start: usize = 0;
    let mut neg = false;
    if s.len() > 0 && s[0] == '-' {
        start = 1;
        neg = true;
    } else if s.len() > 0 && s[0] == '+' {
        start = 1;
    }
    let ghost body = s@.subrange(start as int, s@.len() as int);
    assert(start == sign_len(s@));
    if start >= s.len() {
        return None;
    }
    // Largest magnitude allowed: 2^63 for negative values, 2^63 - 1 otherwise.
    let limit: u64 = if neg { 9223372036854775808u64 } else { 9223372036854775807u64 };
    let mut acc: u64 = 0;
    let mut i: usize = start;
    while i < s.len()
        invariant
            start <= i <= s.len(),
            start < s.len(),
            start == sign_len(s@),
            neg == (s@.len() > 0 && s@[0] == '-'),
            body == s@.subrange(start as int, s@.len() as int),
            all_digits(s@.subrange(start as int, i as int)),
            acc as int == digits_value(s@.subrange(start as int, i as int)),
            acc <= limit,
            limit == if neg { 9223372036854775808u64 } else { 9223372036854775807u64 },
        decreases s.len() - i,
    {
        let c = s[i];
        let ghost pre = s@.subrange(start as int, i as int);
        let ghost post = s@.subrange(start as int, i + 1);
        assert(post.drop_last() =~= pre);
        if !('0' <= c && c <= '9') {
            proof {
                assert(body[i - start] == c);
                assert(!all_digits(body));
            }
            return None;
        }
        let d: u64 = (c as u64) - ('0' as u64);
        assert(digit_value(c) == d);
        if acc > (limit - d) / 10 {
            proof {
                // acc * 10 + d > limit, and every further digit only grows the value.
                assert(acc * 10 + d > limit) by (nonlinear_arith)
                    requires
                        acc > (limit - d) / 10,
                        d <= limit,
                ;
                assert(all_digits(post)) by {
                    assert forall|j: int| 0 <= j < post.len() implies is_digit(#[trigger] post[j]) by {
                        if j < pre.len() {
                            assert(post[j] == pre[j]);
                        }
                    }
                }
                lemma_digits_prefix_bound(body, post.len() as int);
                assert(body.subrange(0, post.len() as int) =~= post);
            }
            return None;
        }
        proof {
            assert(acc * 10 + d <= limit) by (nonlinear_arith)
                requires
                    acc <= (limit - d) / 10,
                    d <= 9,
            ;
        }
        acc = acc * 10 + d;
        i = i + 1;
        proof {
            assert(all_digits(post)) by {
                assert forall|j: int| 0 <= j < post.len() implies is_digit(#[trigger] post[j]) by {
                    if j < pre.len() {
                        assert(post[j] == pre[j]);
                    }
                }
            }
        }
    }
    assert(s@.subrange(start as int, i as int) =~= body);
    if neg {
        if acc == 9223372036854775808u64 {
            Some(i64::MIN)
        } else {
            Some(-(acc as i64))
        }
    } else {
        Some(acc as i64)
    }
}

/// If a prefix of an all-digit candidate already exceeds `i64` magnitude, the
/// whole text is either malformed or out of range.
pub proof fn lemma_digits_prefix_bound(body: Seq<char>, k: int)
    requires
        0 < k <= body.len(),
        all_digits(body.subrange(0, k)),
    ensures
        all_digits(body) ==> digits_value(body) >= digits_value(body.subrange(0, k)),
    decreases body.len() - k,
{
    if all_digits(body) {
        if k < body.len() {
            let nxt = body.subrange(0, k + 1);
            assert(nxt.drop_last() =~= body.subrange(0, k));
            assert(all_digits(nxt)) by {
                assert forall|j: int| 0 <= j < nxt.len() implies is_digit(#[trigger] nxt[j]) by {
                    assert(nxt[j] == body[j]);
                }
            }
            assert(is_digit(body[k]));
            lemma_digits_value_nonneg(body.subrange(0, k));
            lemma_digits_prefix_bound(body, k + 1);
        } else {
            assert(body.subrange(0, k) =~= body);
        }
    }
}

} // verus!
