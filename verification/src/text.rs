//! Small text building blocks shared by the formatting and parsing modules:
//! character-level string building, decimal rendering, and bounded decimal
//! parsing.

use vstd::prelude::*;

verus! {

/// Relies on `String::push`: appends the given character to the end of the
/// string.
#[verifier::external_body]
pub fn push_char(s: &mut String, c: char)
    ensures
        final(s)@ == old(s)@ + seq![c],
{
    s.push(c);
}

/// Build a `String` holding exactly the given characters.
pub fn chars_to_string(chars: &[char]) -> (r: String)
    ensures
        r@ == chars@,
{
    let mut out = String::new();
    let mut i: usize = 0;
    while i < chars.len()
        invariant
            i <= chars@.len(),
            out@ == chars@.take(i as int),
        decreases chars@.len() - i,
    {
        push_char(&mut out, chars[i]);
        proof {
            assert(chars@.take(i as int) + seq![chars@[i as int]] =~= chars@.take(i + 1));
        }
        i = i + 1;
    }
    proof {
        assert(chars@.take(chars@.len() as int) =~= chars@);
    }
    out
}

/// The characters of a string, as a vector.
pub fn str_chars(s: &str) -> (r: Vec<char>)
    ensures
        r@ == s@,
{
    let n = s.unicode_len();
    let mut out: Vec<char> = Vec::new();
    let mut i: usize = 0;
    while i < n
        invariant
            i <= n,
            n == s@.len(),
            out@ == s@.take(i as int),
        decreases n - i,
    {
        out.push(s.get_char(i));
        proof {
            assert(s@.take(i as int) + seq![s@[i as int]] =~= s@.take(i + 1));
        }
        i = i + 1;
    }
    proof {
        assert(s@.take(n as int) =~= s@);
    }
    out
}

/// The decimal digit character for `n`, `0 <= n <= 9`.
pub open spec fn digit_char(n: int) -> char {
    ((48 + n) as u8) as char
}

/// The decimal rendering of `n`: most significant digit first, no padding,
/// no sign.
pub open spec fn decimal_text(n: nat) -> Seq<char>
    decreases n,
{
    if n < 10 {
        seq![digit_char(n as int)]
    } else {
        decimal_text(n / 10) + seq![digit_char((n % 10) as int)]
    }
}

/// The decimal rendering of `n`, preceded by a minus sign when negative.
pub open spec fn signed_decimal_text(n: int) -> Seq<char> {
    if n < 0 {
        seq!['-'] + decimal_text((-n) as nat)
    } else {
        decimal_text(n as nat)
    }
}

/// Append one decimal digit.
fn push_digit(out: &mut String, d: u64)
    requires
        d < 10,
    ensures
        final(out)@ == old(out)@ + seq![digit_char(d as int)],
{
    push_char(out, (48 + d as u8) as char);
}

/// Append the decimal rendering of `n`.
pub fn append_decimal(out: &mut String, n: u64)
    ensures
        final(out)@ == old(out)@ + decimal_text(n as nat),
    decreases n,
{
    if n >= 10 {
        append_decimal(out, n / 10);
        push_digit(out, n % 10);
        proof {
            assert(old(out)@ + decimal_text((n / 10) as nat) + seq![
                digit_char((n % 10) as int),
            ] =~= old(out)@ + decimal_text(n as nat));
        }
    } else {
        push_digit(out, n);
    }
}

/// The decimal rendering of a status code, minus sign included.
pub fn decimal_i32(n: i32) -> (r: String)
    ensures
        r@ == signed_decimal_text(n as int),
{
    let mut out = String::new();
    if n < 0 {
        push_char(&mut out, '-');
        let wide: i64 = n as i64;
        append_decimal(&mut out, (-wide) as u64);
    } else {
        append_decimal(&mut out, n as u64);
    }
    out
}

/// An ASCII decimal digit.
pub open spec fn is_digit(c: char) -> bool {
    48 <= c as u32 <= 57
}

pub open spec fn all_digits(s: Seq<char>) -> bool {
    forall|i: int| 0 <= i < s.len() ==> is_digit(s[i])
}

/// The value of a digit string, most significant digit first.
pub open spec fn digits_value(s: Seq<char>) -> int
    decreases s.len(),
{
    if s.len() == 0 {
        0
    } else {
        digits_value(s.drop_last()) * 10 + (s.last() as u32 - 48)
    }
}

/// The digits of a decimal string: what follows an optional leading plus sign.
pub open spec fn parse_body(s: Seq<char>) -> Seq<char> {
    if s.len() > 0 && s[0] == '+' {
        s.drop_first()
    } else {
        s
    }
}

/// What `usize::from_str` and friends accept: an optional leading plus sign,
/// then one or more digits. The value is unbounded here; a caller imposes its
/// own bound.
pub open spec fn parse_unsigned(s: Seq<char>) -> Option<int> {
    if parse_body(s).len() > 0 && all_digits(parse_body(s)) {
        Some(digits_value(parse_body(s)))
    } else {
        None
    }
}

pub proof fn lemma_digits_value_nonneg(s: Seq<char>)
    requires
        all_digits(s),
    ensures
        digits_value(s) >= 0,
    decreases s.len(),
{
    if s.len() > 0 {
        lemma_digits_value_nonneg(s.drop_last());
    }
}

/// A digit string's value only grows as digits are appended.
pub proof fn lemma_digits_value_extend(s: Seq<char>, i: int)
    requires
        all_digits(s),
        0 <= i <= s.len(),
    ensures
        digits_value(s) >= digits_value(s.take(i)),
    decreases s.len() - i,
{
    if i == s.len() {
        assert(s.take(i) =~= s);
    } else {
        assert(s.take(i + 1).drop_last() =~= s.take(i));
        assert(forall|j: int| 0 <= j < i + 1 ==> is_digit(#[trigger] s.take(i + 1)[j]));
        lemma_digits_value_nonneg(s.take(i));
        lemma_digits_value_extend(s, i + 1);
    }
}

/// The whitespace that token splitting and trimming recognise.
pub open spec fn is_space(c: char) -> bool {
    c == ' ' || c == '\t' || c == '\r' || c == '\n'
}

/// How many characters the token at the head of `s` has: the run of
/// non-whitespace characters at the front.
pub open spec fn token_len(s: Seq<char>) -> nat
    decreases s.len(),
{
    if s.len() == 0 || is_space(s[0]) {
        0
    } else {
        1 + token_len(s.drop_first())
    }
}

/// The head token is never empty and never runs past the end.
pub proof fn lemma_token_len_bounds(s: Seq<char>)
    ensures
        token_len(s) <= s.len(),
        s.len() > 0 && !is_space(s[0]) ==> token_len(s) >= 1,
    decreases s.len(),
{
    if s.len() > 0 && !is_space(s[0]) {
        lemma_token_len_bounds(s.drop_first());
    }
}

/// The whitespace-separated tokens of `s`, in order.
pub open spec fn ws_tokens(s: Seq<char>) -> Seq<Seq<char>>
    decreases s.len(),
    via ws_tokens_decreases
{
    if s.len() == 0 {
        Seq::empty()
    } else if is_space(s[0]) {
        ws_tokens(s.drop_first())
    } else {
        seq![s.take(token_len(s) as int)] + ws_tokens(s.skip(token_len(s) as int))
    }
}

#[via_fn]
proof fn ws_tokens_decreases(s: Seq<char>) {
    lemma_token_len_bounds(s);
}

/// Leading whitespace does not change the tokens.
pub proof fn lemma_ws_tokens_skip(s: Seq<char>, i: int)
    requires
        0 <= i <= s.len(),
        forall|j: int| 0 <= j < i ==> is_space(s[j]),
    ensures
        ws_tokens(s) == ws_tokens(s.skip(i)),
    decreases i,
{
    if i > 0 {
        assert(ws_tokens(s) == ws_tokens(s.drop_first()));
        assert(s.drop_first() =~= s.skip(1));
        lemma_ws_tokens_skip(s.skip(1), i - 1);
        assert(s.skip(1).skip(i - 1) =~= s.skip(i));
    } else {
        assert(s.skip(0) =~= s);
    }
}

/// The head token runs up to the first whitespace character.
pub proof fn lemma_token_len(s: Seq<char>, k: int)
    requires
        0 <= k <= s.len(),
        forall|j: int| 0 <= j < k ==> !is_space(s[j]),
        k == s.len() || is_space(s[k]),
    ensures
        token_len(s) == k,
    decreases k,
{
    if k > 0 {
        lemma_token_len(s.drop_first(), k - 1);
    }
}

pub fn is_space_char(c: char) -> (r: bool)
    ensures
        r == is_space(c),
{
    c == ' ' || c == '\t' || c == '\r' || c == '\n'
}

/// `s` without its leading and trailing whitespace.
pub open spec fn trim_text(s: Seq<char>) -> Seq<char>
    decreases s.len(),
{
    if s.len() == 0 {
        s
    } else if is_space(s[0]) {
        trim_text(s.drop_first())
    } else if is_space(s.last()) {
        trim_text(s.drop_last())
    } else {
        s
    }
}

pub proof fn lemma_trim_range(s: Seq<char>, a: int, b: int)
    requires
        0 <= a <= b <= s.len(),
        forall|j: int| 0 <= j < a ==> is_space(s[j]),
        forall|j: int| b <= j < s.len() ==> is_space(s[j]),
        a == b || (!is_space(s[a]) && !is_space(s[b - 1])),
    ensures
        trim_text(s) == s.subrange(a, b),
    decreases s.len(),
{
    if s.len() == 0 {
        assert(s.subrange(0, 0) =~= s);
    } else if a == b {
        assert(is_space(s[0]));
        lemma_trim_range(s.drop_first(), 0, 0);
        assert(s.drop_first().subrange(0, 0) =~= s.subrange(a, b));
    } else if a > 0 {
        lemma_trim_range(s.drop_first(), a - 1, b - 1);
        assert(s.drop_first().subrange(a - 1, b - 1) =~= s.subrange(a, b));
    } else if b < s.len() {
        assert(is_space(s.last()));
        lemma_trim_range(s.drop_last(), 0, b);
        assert(s.drop_last().subrange(0, b) =~= s.subrange(a, b));
    } else {
        assert(s.subrange(0, s.len() as int) =~= s);
    }
}

/// The index range that survives trimming: `trim_text` of the characters is
/// exactly the subrange the result bounds.
pub fn trim_bounds(chars: &[char]) -> (r: (usize, usize))
    ensures
        r.0 <= r.1 <= chars@.len(),
        trim_text(chars@) == chars@.subrange(r.0 as int, r.1 as int),
{
    let n = chars.len();
    let mut a: usize = 0;
    while a < n && is_space_char(chars[a])
        invariant
            a <= n,
            n == chars@.len(),
            forall|j: int| 0 <= j < a ==> is_space(chars@[j]),
        decreases n - a,
    {
        a = a + 1;
    }
    let mut b: usize = n;
    while b > a && is_space_char(chars[b - 1])
        invariant
            a <= b <= n,
            n == chars@.len(),
            forall|j: int| 0 <= j < a ==> is_space(chars@[j]),
            forall|j: int| b <= j < n ==> is_space(chars@[j]),
            a < n ==> !is_space(chars@[a as int]),
        decreases b,
    {
        b = b - 1;
    }
    proof {
        if a == b {
        } else {
            assert(!is_space(chars@[a as int]));
            assert(!is_space(chars@[b - 1]));
        }
        lemma_trim_range(chars@, a as int, b as int);
    }
    (a, b)
}

/// The bounds of the next whitespace-separated token at or after `from`:
/// the head of `ws_tokens` of what remains, when there is one.
pub fn next_token(chars: &[char], from: usize) -> (r: Option<(usize, usize)>)
    requires
        from <= chars@.len(),
    ensures
        match r {
            Some(t) => {
                &&& from <= t.0 < t.1 <= chars@.len()
                &&& ws_tokens(chars@.skip(from as int)).len() >= 1
                &&& ws_tokens(chars@.skip(from as int))[0] == chars@.subrange(
                    t.0 as int,
                    t.1 as int,
                )
                &&& ws_tokens(chars@.skip(from as int)).skip(1) == ws_tokens(
                    chars@.skip(t.1 as int),
                )
            },
            None => ws_tokens(chars@.skip(from as int)).len() == 0,
        },
{
    let n = chars.len();
    let mut start: usize = from;
    while start < n && is_space_char(chars[start])
        invariant
            from <= start <= n,
            n == chars@.len(),
            forall|j: int| from <= j < start ==> is_space(chars@[j]),
        decreases n - start,
    {
        start = start + 1;
    }
    proof {
        let rem = chars@.skip(from as int);
        assert(forall|j: int| 0 <= j < start - from ==> is_space(#[trigger] rem[j]));
        lemma_ws_tokens_skip(rem, start - from);
        assert(rem.skip(start - from) =~= chars@.skip(start as int));
    }
    if start == n {
        proof {
            assert(chars@.skip(n as int) =~= Seq::<char>::empty());
        }
        return None;
    }
    let mut end: usize = start;
    while end < n && !is_space_char(chars[end])
        invariant
            start <= end <= n,
            n == chars@.len(),
            forall|j: int| start <= j < end ==> !is_space(chars@[j]),
        decreases n - end,
    {
        end = end + 1;
    }
    proof {
        let t = chars@.skip(start as int);
        assert(forall|j: int| 0 <= j < end - start ==> !is_space(#[trigger] t[j]));
        if end < n {
            assert(is_space(t[end - start]));
        }
        lemma_token_len(t, end - start);
        assert(!is_space(t[0]));
        assert(ws_tokens(t) == seq![t.take(token_len(t) as int)] + ws_tokens(
            t.skip(token_len(t) as int),
        ));
        assert(t.take(end - start) =~= chars@.subrange(start as int, end as int));
        assert(t.skip(end - start) =~= chars@.skip(end as int));
        assert((seq![t.take(token_len(t) as int)] + ws_tokens(t.skip(token_len(t) as int))).skip(1)
            =~= ws_tokens(chars@.skip(end as int)));
    }
    Some((start, end))
}

/// How many characters precede the first `c`: all of them when `c` does not
/// occur.
pub open spec fn sep_prefix_len(s: Seq<char>, c: char) -> nat
    decreases s.len(),
{
    if s.len() == 0 || s[0] == c {
        0
    } else {
        1 + sep_prefix_len(s.drop_first(), c)
    }
}

pub proof fn lemma_sep_prefix_len(s: Seq<char>, c: char, k: int)
    requires
        0 <= k <= s.len(),
        forall|j: int| 0 <= j < k ==> s[j] != c,
        k == s.len() || s[k] == c,
    ensures
        sep_prefix_len(s, c) == k,
    decreases k,
{
    if k > 0 {
        lemma_sep_prefix_len(s.drop_first(), c, k - 1);
    }
}

/// The pieces of `s` between occurrences of `c`: one more piece than
/// separators, empty pieces kept.
pub open spec fn split_on(s: Seq<char>, c: char) -> Seq<Seq<char>>
    decreases s.len(),
{
    let k = sep_prefix_len(s, c) as int;
    if k >= s.len() {
        seq![s]
    } else {
        seq![s.take(k)] + split_on(s.skip(k + 1), c)
    }
}

pub proof fn lemma_split_on_nonempty(s: Seq<char>, c: char)
    ensures
        split_on(s, c).len() >= 1,
{
}

/// The index of the first `c` at or after `from`, if any.
pub fn find_char(chars: &[char], from: usize, c: char) -> (r: Option<usize>)
    requires
        from <= chars@.len(),
    ensures
        match r {
            Some(k) => {
                &&& from <= k < chars@.len()
                &&& chars@[k as int] == c
                &&& forall|j: int| from <= j < k ==> chars@[j] != c
            },
            None => forall|j: int| from <= j < chars@.len() ==> chars@[j] != c,
        },
{
    let n = chars.len();
    let mut i: usize = from;
    while i < n
        invariant
            from <= i <= n,
            n == chars@.len(),
            forall|j: int| from <= j < i ==> chars@[j] != c,
        decreases n - i,
    {
        if chars[i] == c {
            return Some(i);
        }
        i = i + 1;
    }
    None
}

/// Parse a decimal number no greater than `bound`: `Some` exactly when the
/// characters are an optionally plus-signed digit string whose value is at
/// most the bound.
pub fn parse_bounded(chars: &[char], bound: usize) -> (r: Option<usize>)
    ensures
        ({
            let p = parse_unsigned(chars@);
            match p {
                Some(v) => v >= 0 && (if v <= bound {
                    r == Some(v as usize)
                } else {
                    r is None
                }),
                None => r is None,
            }
        }),
{
    let n = chars.len();
    let start: usize = if n > 0 && chars[0] == '+' {
        1
    } else {
        0
    };
    let ghost body = parse_body(chars@);
    proof {
        assert(body =~= chars@.subrange(start as int, n as int));
    }
    if start >= n {
        return None;
    }
    let mut acc: usize = 0;
    let mut i: usize = start;
    while i < n
        invariant
            start <= i <= n,
            n == chars@.len(),
            start <= 1,
            body == parse_body(chars@),
            body == chars@.subrange(start as int, n as int),
            all_digits(body.take(i - start)),
            acc == digits_value(body.take(i - start)),
            acc <= bound,
        decreases n - i,
    {
        let c = chars[i];
        let u = c as u32;
        if u < 48 || u > 57 {
            proof {
                assert(body[i - start] == chars@[i as int]);
                assert(!is_digit(body[i - start]));
                assert(!all_digits(body));
                assert(parse_unsigned(chars@) is None);
            }
            return None;
        }
        let d = (u - 48) as usize;
        proof {
            assert(body.take(i - start + 1).drop_last() =~= body.take(i - start));
            assert(body.take(i - start + 1).last() == chars@[i as int]);
        }
        if d <= bound && acc <= (bound - d) / 10 {
            acc = acc * 10 + d;
        } else {
            // The digits read so far already outgrow the bound, so the whole
            // string's value does too.
            proof {
                let k = i - start + 1;
                assert(digits_value(body.take(k)) == acc * 10 + d);
                if d > bound {
                    lemma_digits_value_nonneg(body.take(k - 1));
                    assert(acc * 10 + d > bound);
                } else {
                    assert(acc > (bound - d) / 10);
                    assert(10 * ((bound - d) / 10) + (bound - d) % 10 == bound - d);
                    assert(acc * 10 + d > bound);
                }
                if all_digits(body) {
                    lemma_digits_value_extend(body, k);
                    lemma_digits_value_nonneg(body);
                    assert(digits_value(body) > bound);
                }
            }
            return None;
        }
        i = i + 1;
    }
    proof {
        assert(body.take(n - start) =~= body);
    }
    Some(acc)
}

} // verus!
