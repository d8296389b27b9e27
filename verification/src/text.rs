//! Text helpers on chars: Unicode white space, trimming, prefixes and
//! equality of string slices.

use vstd::prelude::*;

verus! {

// ---- white space ----

/// Unicode's White_Space property.
pub open spec fn white_space(c: char) -> bool {
    ('\u{9}' <= c <= '\u{d}') || c == ' ' || c == '\u{85}' || c == '\u{a0}' || c == '\u{1680}' || (
    '\u{2000}' <= c <= '\u{200a}') || c == '\u{2028}' || c == '\u{2029}' || c == '\u{202f}' || c
        == '\u{205f}' || c == '\u{3000}'
}

/// Whether `c` has Unicode's White_Space property (what `char::is_whitespace`
/// answers).
pub fn is_white_space(c: char) -> (r: bool)
    ensures
        r == white_space(c),
{
    ('\u{9}' <= c && c <= '\u{d}') || c == ' ' || c == '\u{85}' || c == '\u{a0}' || c == '\u{1680}'
        || ('\u{2000}' <= c && c <= '\u{200a}') || c == '\u{2028}' || c == '\u{2029}' || c
        == '\u{202f}' || c == '\u{205f}' || c == '\u{3000}'
}

/// How many white-space chars `s` starts with.
pub open spec fn leading_white(s: Seq<char>) -> nat
    decreases s.len(),
{
    if s.len() > 0 && white_space(s[0]) {
        1 + leading_white(s.subrange(1, s.len() as int))
    } else {
        0
    }
}

/// How many white-space chars `s` ends with.
pub open spec fn trailing_white(s: Seq<char>) -> nat
    decreases s.len(),
{
    if s.len() > 0 && white_space(s.last()) {
        1 + trailing_white(s.drop_last())
    } else {
        0
    }
}

/// `s` with leading and trailing white space removed.
pub open spec fn spec_trim(s: Seq<char>) -> Seq<char> {
    let lead = leading_white(s) as int;
    if lead == s.len() {
        Seq::empty()
    } else {
        s.subrange(lead, s.len() - trailing_white(s))
    }
}

pub proof fn lemma_leading_white(s: Seq<char>, i: int)
    requires
        0 <= i <= s.len(),
        forall|j: int| 0 <= j < i ==> white_space(#[trigger] s[j]),
        i == s.len() || !white_space(s[i]),
    ensures
        leading_white(s) == i,
    decreases i,
{
    if i > 0 {
        let t = s.subrange(1, s.len() as int);
        assert forall|j: int| 0 <= j < i - 1 implies white_space(#[trigger] t[j]) by {
            assert(t[j] == s[j + 1]);
        }
        if i - 1 < t.len() {
            assert(t[i - 1] == s[i]);
        }
        lemma_leading_white(t, i - 1);
    }
}

pub proof fn lemma_trailing_white(s: Seq<char>, e: int)
    requires
        0 <= e <= s.len(),
        forall|j: int| e <= j < s.len() ==> white_space(#[trigger] s[j]),
        e == 0 || !white_space(s[e - 1]),
    ensures
        trailing_white(s) == s.len() - e,
    decreases s.len() - e,
{
    if e < s.len() {
        let t = s.drop_last();
        assert forall|j: int| e <= j < t.len() implies white_space(#[trigger] t[j]) by {
            assert(t[j] == s[j]);
        }
        if e > 0 {
            assert(t[e - 1] == s[e - 1]);
        }
        assert(white_space(s[s.len() - 1]));
        lemma_trailing_white(t, e);
    }
}

/// `text` with its leading and trailing white space removed.
pub fn trim(text: &str) -> (r: &str)
    ensures
        r@ == spec_trim(text@),
{
    let n = text.unicode_len();
    let mut start: usize = 0;
    while start < n && is_white_space(text.get_char(start))
        invariant
            n == text@.len(),
            start <= n,
            forall|j: int| 0 <= j < start ==> white_space(#[trigger] text@[j]),
        decreases n - start,
    {
        start = start + 1;
    }
    proof {
        lemma_leading_white(text@, start as int);
    }
    if start == n {
        return text.substring_char(n, n);
    }
    let mut end: usize = n;
    while end > start && is_white_space(text.get_char(end - 1))
        invariant
            n == text@.len(),
            start < n,
            !white_space(text@[start as int]),
            start <= end <= n,
            forall|j: int| end <= j < n ==> white_space(#[trigger] text@[j]),
        decreases end,
    {
        end = end - 1;
    }
    proof {
        lemma_trailing_white(text@, end as int);
    }
    text.substring_char(start, end)
}

// ---- equality and prefixes ----

/// Whether two slices hold the same chars.
pub fn equals(a: &str, b: &str) -> (r: bool)
    ensures
        r == (a@ == b@),
{
    let n = a.unicode_len();
    if n != b.unicode_len() {
        return false;
    }
    let mut i: usize = 0;
    while i < n
        invariant
            n == a@.len(),
            n == b@.len(),
            i <= n,
            forall|j: int| 0 <= j < i ==> a@[j] == b@[j],
        decreases n - i,
    {
        if a.get_char(i) != b.get_char(i) {
            return false;
        }
        i = i + 1;
    }
    assert(a@ =~= b@);
    true
}



/// `s` with `prefix` taken off its front, if it starts with it.
pub open spec fn strip_prefix(s: Seq<char>, prefix: Seq<char>) -> Option<Seq<char>> {
    if prefix.len() <= s.len() && s.subrange(0, prefix.len() as int) == prefix {
        Some(s.subrange(prefix.len() as int, s.len() as int))
    } else {
        None
    }
}

/// `text` with `prefix` taken off its front. `n` is `text`'s length in
/// chars.
pub fn strip<'a>(text: &'a str, n: usize, prefix: &str) -> (r: Option<&'a str>)
    requires
        n == text@.len(),
    ensures
        match r {
            Some(rest) => strip_prefix(text@, prefix@) == Some(rest@),
            None => strip_prefix(text@, prefix@) is None,
        },
{
    let k = prefix.unicode_len();
    if k > n {
        return None;
    }
    let mut i: usize = 0;
    while i < k
        invariant
            k == prefix@.len(),
            k <= n,
            n == text@.len(),
            i <= k,
            forall|j: int| 0 <= j < i ==> text@[j] == prefix@[j],
        decreases k - i,
    {
        if text.get_char(i) != prefix.get_char(i) {
            assert(text@.subrange(0, k as int)[i as int] != prefix@[i as int]);
            return None;
        }
        i = i + 1;
    }
    assert(text@.subrange(0, k as int) =~= prefix@);
    Some(text.substring_char(k, n))
}


// ---- unsigned numbers ----

/// Whether `c` is an ASCII digit.
pub open spec fn is_digit(c: char) -> bool {
    '0' <= c <= '9'
}

/// The value of a run of ASCII digits, most significant first.
pub open spec fn digits_value(s: Seq<char>) -> nat
    decreases s.len(),
{
    if s.len() == 0 {
        0
    } else {
        digits_value(s.drop_last()) * 10 + ((s.last() as int) - ('0' as int)) as nat
    }
}

/// An unsigned integer as `str::parse` reads one: an optional `+`, then one
/// or more ASCII digits and nothing else, whose value is at most `max`.
pub open spec fn parse_unsigned(s: Seq<char>, max: int) -> Option<nat> {
    digits_reading(if s.len() > 0 && s[0] == '+' { s.drop_first() } else { s }, max)
}

/// One or more chars, every one an ASCII digit.
pub open spec fn all_digits(body: Seq<char>) -> bool {
    body.len() > 0 && (forall|i: int| 0 <= i < body.len() ==> is_digit(#[trigger] body[i]))
}

/// A run of one or more ASCII digits and nothing else, when its value is
/// at most `max`.
pub open spec fn digits_reading(body: Seq<char>, max: int) -> Option<nat> {
    if all_digits(body) && digits_value(body) <= max {
        Some(digits_value(body))
    } else {
        None
    }
}

proof fn lemma_digits_grow(t: Seq<char>, j: int)
    requires
        0 <= j <= t.len(),
        forall|i: int| 0 <= i < t.len() ==> is_digit(#[trigger] t[i]),
    ensures
        digits_value(t) >= digits_value(t.take(j)),
    decreases t.len(),
{
    if j < t.len() {
        let u = t.drop_last();
        assert(u.take(j) =~= t.take(j));
        assert forall|i: int| 0 <= i < u.len() implies is_digit(#[trigger] u[i]) by {
            assert(u[i] == t[i]);
        }
        lemma_digits_grow(u, j);
        assert(is_digit(t[t.len() - 1]));
    } else {
        assert(t.take(j) =~= t);
    }
}

/// The digits of `s` from char `start` on, read as a number no larger
/// than `max`.
fn read_digits(s: &str, start: usize, max: u64) -> (r: Option<u64>)
    requires
        start <= s@.len(),
    ensures
        match r {
            Some(v) => digits_reading(s@.skip(start as int), max as int) == Some(v as nat),
            None => digits_reading(s@.skip(start as int), max as int) is None,
        },
{
    let ghost body = s@.skip(start as int);
    let n = s.unicode_len();
    if start >= n {
        return None;
    }
    let mut value: u64 = 0;
    let mut i: usize = start;
    proof {
        assert(body.take(0) =~= Seq::<char>::empty());
    }
    while i < n
        invariant
            n == s@.len(),
            body == s@.skip(start as int),
            start < n,
            start <= i <= n,
            value as int == digits_value(body.take(i - start)),
            value <= max,
            forall|j: int| 0 <= j < i - start ==> is_digit(#[trigger] body[j]),
        decreases n - i,
    {
        let c = s.get_char(i);
        proof {
            assert(body[i - start] == c);
        }
        if !('0' <= c && c <= '9') {
            return None;
        }
        let d: u128 = (c as u32 - '0' as u32) as u128;
        let next: u128 = value as u128 * 10 + d;
        proof {
            let t = body.take(i - start + 1);
            assert(t.drop_last() =~= body.take(i - start));
            assert(t.last() == c);
            assert(next == digits_value(t));
        }
        if next > max as u128 {
            proof {
                if forall|j: int| 0 <= j < body.len() ==> is_digit(#[trigger] body[j]) {
                    lemma_digits_grow(body, i - start + 1);
                }
            }
            return None;
        }
        value = next as u64;
        i = i + 1;
    }
    proof {
        assert(body.take(n - start) =~= body);
    }
    Some(value)
}

/// Reads `s` as an unsigned number no larger than `max`, the way the
/// integer `FromStr` impls read one.
fn read_unsigned(s: &str, max: u64) -> (r: Option<u64>)
    ensures
        match r {
            Some(v) => parse_unsigned(s@, max as int) == Some(v as nat),
            None => parse_unsigned(s@, max as int) is None,
        },
{
    let plus = s.unicode_len() > 0 && s.get_char(0) == '+';
    let start: usize = if plus {
        1
    } else {
        0
    };
    proof {
        assert(s@.skip(0) =~= s@);
        if plus {
            assert(s@.skip(1) =~= s@.drop_first());
            assert(s@.len() > 0 && s@[0] == '+');
            assert(parse_unsigned(s@, max as int) == digits_reading(s@.drop_first(), max as int));
        } else {
            assert(!(s@.len() > 0 && s@[0] == '+'));
            assert(parse_unsigned(s@, max as int) == digits_reading(s@, max as int));
        }
    }
    read_digits(s, start, max)
}

/// `s` read as a `usize`, as `str::parse::<usize>` reads it: an optional
/// `+` followed by only digits, whose value fits.
pub(crate) fn parse_usize(s: &str) -> (r: Option<usize>)
    ensures
        match r {
            Some(v) => parse_unsigned(s@, usize::MAX as int) == Some(v as nat),
            None => parse_unsigned(s@, usize::MAX as int) is None,
        },
{
    match read_unsigned(s, usize::MAX as u64) {
        Some(v) => Some(v as usize),
        None => None,
    }
}

/// `s` read as a `u16`, as `str::parse::<u16>` reads it.
pub(crate) fn parse_u16(s: &str) -> (r: Option<u16>)
    ensures
        match r {
            Some(v) => parse_unsigned(s@, u16::MAX as int) == Some(v as nat),
            None => parse_unsigned(s@, u16::MAX as int) is None,
        },
{
    match read_unsigned(s, u16::MAX as u64) {
        Some(v) => Some(v as u16),
        None => None,
    }
}

/// `s` read as a `u32`, as `str::parse::<u32>` reads it.
pub(crate) fn parse_u32(s: &str) -> (r: Option<u32>)
    ensures
        match r {
            Some(v) => parse_unsigned(s@, u32::MAX as int) == Some(v as nat),
            None => parse_unsigned(s@, u32::MAX as int) is None,
        },
{
    match read_unsigned(s, u32::MAX as u64) {
        Some(v) => Some(v as u32),
        None => None,
    }
}

/// A signed integer as `str::parse` reads one: an optional `+` or `-`,
/// then one or more ASCII digits and nothing else, whose value lies in
/// `[min, max]`.
pub open spec fn parse_signed(s: Seq<char>, min: int, max: int) -> Option<int> {
    let signed = s.len() > 0 && (s[0] == '+' || s[0] == '-');
    let body = if signed {
        s.drop_first()
    } else {
        s
    };
    let value = if s.len() > 0 && s[0] == '-' {
        -(digits_value(body) as int)
    } else {
        digits_value(body) as int
    };
    if all_digits(body) && min <= value <= max {
        Some(value)
    } else {
        None
    }
}

/// `s` read as an `i32`, as `str::parse::<i32>` reads it: an optional
/// `+` or `-` followed by only digits, whose value fits.
pub(crate) fn parse_i32(s: &str) -> (r: Option<i32>)
    ensures
        match r {
            Some(v) => parse_signed(s@, i32::MIN as int, i32::MAX as int) == Some(v as int),
            None => parse_signed(s@, i32::MIN as int, i32::MAX as int) is None,
        },
{
    let n = s.unicode_len();
    let minus = n > 0 && s.get_char(0) == '-';
    let signed = n > 0 && (s.get_char(0) == '+' || minus);
    let start: usize = if signed {
        1
    } else {
        0
    };
    proof {
        assert(s@.skip(0) =~= s@);
        if signed {
            assert(s@.skip(1) =~= s@.drop_first());
        }
        let body = s@.skip(start as int);
        if minus {
            assert(parse_signed(s@, i32::MIN as int, i32::MAX as int) == match digits_reading(body, 0x8000_0000) {
                Some(v) => Some(-(v as int)),
                None => None,
            });
        } else {
            assert(parse_signed(s@, i32::MIN as int, i32::MAX as int) == match digits_reading(body, 0x7fff_ffff) {
                Some(v) => Some(v as int),
                None => None,
            });
        }
    }
    if minus {
        match read_digits(s, start, 0x8000_0000) {
            Some(v) => Some((0i64 - v as i64) as i32),
            None => None,
        }
    } else {
        match read_digits(s, start, 0x7fff_ffff) {
            Some(v) => Some(v as i32),
            None => None,
        }
    }
}

// ---- splitting ----

/// The pieces of `s` between its commas, empty ones included: what
/// `str::split(',')` yields.
pub open spec fn comma_pieces(s: Seq<char>) -> Seq<Seq<char>>
    decreases s.len(),
{
    if s.len() == 0 {
        seq![Seq::empty()]
    } else {
        let before = comma_pieces(s.drop_last());
        if s.last() == ',' {
            before.push(Seq::empty())
        } else {
            before.update(before.len() - 1, before.last().push(s.last()))
        }
    }
}

proof fn lemma_comma_pieces_nonempty(s: Seq<char>)
    ensures
        comma_pieces(s).len() >= 1,
    decreases s.len(),
{
    if s.len() > 0 {
        lemma_comma_pieces_nonempty(s.drop_last());
    }
}

/// The pieces of `text` between its commas, in order.
pub fn split_commas(text: &str) -> (r: Vec<String>)
    ensures
        r@.map_values(|p: String| p@) == comma_pieces(text@),
{
    let n = text.unicode_len();
    let mut out: Vec<String> = Vec::new();
    let mut start: usize = 0;
    let mut i: usize = 0;
    proof {
        assert(text@.take(0) =~= Seq::<char>::empty());
    }
    while i < n
        invariant
            n == text@.len(),
            start <= i <= n,
            out@.map_values(|p: String| p@).push(text@.subrange(start as int, i as int))
                == comma_pieces(text@.take(i as int)),
        decreases n - i,
    {
        let ghost prefix = text@.take(i as int);
        proof {
            assert(text@.take(i + 1).drop_last() =~= prefix);
            lemma_comma_pieces_nonempty(prefix);
        }
        let ghost old_start = start;
        let ghost before = out@.map_values(|p: String| p@);
        if text.get_char(i) == ',' {
            let piece = String::from_str(text.substring_char(start, i));
            out.push(piece);
            start = i + 1;
            proof {
                assert(out@.map_values(|p: String| p@) =~= before.push(
                    text@.subrange(old_start as int, i as int),
                ));
                assert(text@.subrange(start as int, i + 1) =~= Seq::<char>::empty());
            }
        } else {
            proof {
                assert(text@.subrange(start as int, i + 1) =~= text@.subrange(start as int, i as int).push(
                    text@[i as int],
                ));
            }
        }
        i = i + 1;
        proof {
            assert(out@.map_values(|p: String| p@).push(text@.subrange(start as int, i as int))
                =~= comma_pieces(text@.take(i as int)));
        }
    }
    proof {
        assert(text@.take(n as int) =~= text@);
    }
    out.push(String::from_str(text.substring_char(start, n)));
    out
}

// ---- case ----

/// The lower-case mapping of a string, as Rust's `str::to_lowercase` makes
/// it (Unicode's full case mapping, with the final-sigma rule).
pub uninterp spec fn lowercase(s: Seq<char>) -> Seq<char>;

/// Calls `str::to_lowercase`. Claimed: the result is [`lowercase`] of the
/// argument, a function of the argument alone.
#[verifier::external_body]
pub(crate) fn to_lowercase(s: &str) -> (r: String)
    ensures
        r@ == lowercase(s@),
{
    s.to_lowercase()
}

/// Whether `needle` occurs in `hay` as a contiguous run.
pub open spec fn has_substring(hay: Seq<char>, needle: Seq<char>) -> bool {
    exists|i: int| 0 <= i <= hay.len() - needle.len() && #[trigger] hay.subrange(i, i + needle.len()) == needle
}

/// Whether `needle` occurs in `hay` (what `str::contains` answers for a
/// string pattern).
pub fn contains(hay: &str, needle: &str) -> (r: bool)
    ensures
        r == has_substring(hay@, needle@),
{
    let hn = hay.unicode_len();
    let nn = needle.unicode_len();
    if nn > hn {
        proof {
            assert forall|i: int| 0 <= i <= hay@.len() - needle@.len() implies #[trigger] hay@.subrange(
                i,
                i + needle@.len(),
            ) != needle@ by {}
        }
        return false;
    }
    let mut i: usize = 0;
    while i <= hn - nn
        invariant
            hn == hay@.len(),
            nn == needle@.len(),
            nn <= hn,
            i <= hn - nn + 1,
            forall|k: int| 0 <= k < i ==> #[trigger] hay@.subrange(k, k + nn) != needle@,
        decreases hn - nn + 1 - i,
    {
        let mut j: usize = 0;
        while j < nn && hay.get_char(i + j) == needle.get_char(j)
            invariant
                hn == hay@.len(),
                nn == needle@.len(),
                i + nn <= hn,
                j <= nn,
                forall|q: int| 0 <= q < j ==> hay@[i + q] == needle@[q],
            decreases nn - j,
        {
            j = j + 1;
        }
        if j == nn {
            proof {
                assert(hay@.subrange(i as int, i + nn) =~= needle@);
            }
            return true;
        }
        proof {
            assert(hay@.subrange(i as int, i + nn)[j as int] != needle@[j as int]);
        }
        i = i + 1;
    }
    false
}

// ---- words ----

/// Whether a word starts at `i`: a char that is not white space, first or
/// right after white space.
pub open spec fn starts_word(s: Seq<char>, i: int) -> bool {
    !white_space(s[i]) && (i == 0 || white_space(s[i - 1]))
}

/// How many words start among the first `n` chars of `s`.
pub open spec fn words_upto(s: Seq<char>, n: int) -> nat
    decreases n,
{
    if n <= 0 {
        0
    } else {
        words_upto(s, n - 1) + if starts_word(s, n - 1) {
            1nat
        } else {
            0nat
        }
    }
}

/// How many white-space separated words `s` holds.
pub open spec fn words(s: Seq<char>) -> nat {
    words_upto(s, s.len() as int)
}

/// The number of white-space separated words in `text`.
pub fn word_count(text: &str) -> (r: usize)
    ensures
        r == words(text@),
        r <= text@.len(),
{
    let n = text.unicode_len();
    let mut count: usize = 0;
    let mut prev_white = true;
    let mut i: usize = 0;
    while i < n
        invariant
            n == text@.len(),
            i <= n,
            count == words_upto(text@, i as int),
            count <= i,
            i > 0 ==> prev_white == white_space(text@[i - 1]),
            i == 0 ==> prev_white,
        decreases n - i,
    {
        let white = is_white_space(text.get_char(i));
        if !white && prev_white {
            count = count + 1;
        }
        prev_white = white;
        i = i + 1;
    }
    count
}

// ---- numbers as text ----

/// The decimal digit `d` as text.
pub open spec fn digit_text(d: int) -> Seq<char> {
    if d == 0 {
        "0"@
    } else if d == 1 {
        "1"@
    } else if d == 2 {
        "2"@
    } else if d == 3 {
        "3"@
    } else if d == 4 {
        "4"@
    } else if d == 5 {
        "5"@
    } else if d == 6 {
        "6"@
    } else if d == 7 {
        "7"@
    } else if d == 8 {
        "8"@
    } else {
        "9"@
    }
}

/// `n` written in decimal, without leading zeros.
pub open spec fn decimal(n: nat) -> Seq<char>
    decreases n,
{
    if n < 10 {
        digit_text(n as int)
    } else {
        decimal(n / 10) + digit_text((n % 10) as int)
    }
}

/// `n` written in decimal, with a minus sign when negative.
pub open spec fn signed_decimal(n: int) -> Seq<char> {
    if n < 0 {
        "-"@ + decimal((-n) as nat)
    } else {
        decimal(n as nat)
    }
}

fn digit_str(d: u64) -> (r: &'static str)
    requires
        d < 10,
    ensures
        r@ == digit_text(d as int),
{
    if d == 0 {
        "0"
    } else if d == 1 {
        "1"
    } else if d == 2 {
        "2"
    } else if d == 3 {
        "3"
    } else if d == 4 {
        "4"
    } else if d == 5 {
        "5"
    } else if d == 6 {
        "6"
    } else if d == 7 {
        "7"
    } else if d == 8 {
        "8"
    } else {
        "9"
    }
}

/// Append `n` in decimal to `s`.
pub fn push_decimal(s: &mut String, n: u64)
    ensures
        final(s)@ == old(s)@ + decimal(n as nat),
    decreases n,
{
    if n >= 10 {
        push_decimal(s, n / 10);
    }
    s.append(digit_str(n % 10));
    assert(final(s)@ =~= old(s)@ + decimal(n as nat));
}

/// Append `n` in decimal to `s`, a minus sign first when it is negative.
pub fn push_signed(s: &mut String, n: i32)
    ensures
        final(s)@ == old(s)@ + signed_decimal(n as int),
{
    if n < 0 {
        s.append("-");
        let magnitude: u64 = (0i64 - n as i64) as u64;
        push_decimal(s, magnitude);
        assert(final(s)@ =~= old(s)@ + signed_decimal(n as int));
    } else {
        push_decimal(s, n as u64);
    }
}

} // verus!
