//! Small text utilities: decimal rendering and parsing of integers,
//! the `HH:MM:SS` clock format, whitespace trimming and splitting.

use vstd::prelude::*;

verus! {

/// The character of a decimal digit `d < 10`.
pub open spec fn digit_char(d: nat) -> char {
    (48 + d) as char
}

/// The decimal digits of `n`, most significant first, with no leading zero.
pub open spec fn decimal(n: nat) -> Seq<char>
    decreases n,
{
    if n < 10 {
        seq![digit_char(n)]
    } else {
        decimal(n / 10).push(digit_char(n % 10))
    }
}

/// `n < 100` written with exactly two digits (the `{:02}` format).
pub open spec fn two_digits(n: nat) -> Seq<char> {
    seq![digit_char(n / 10), digit_char(n % 10)]
}

/// The text that `fmt_time` gives for a time in seconds: the hour of the
/// day, the minute and the second, each with two digits, joined by `:`.
pub open spec fn clock_text(time: nat) -> Seq<char> {
    two_digits((time / 3600) % 24) + seq![':'] + two_digits((time / 60) % 60) + seq![':']
        + two_digits(time % 60)
}

pub open spec fn is_digit(c: char) -> bool {
    '0' <= c && c <= '9'
}

pub open spec fn digit_value(c: char) -> nat {
    (c as int - 48) as nat
}

/// The number that a sequence of decimal digits denotes.
pub open spec fn digits_value(s: Seq<char>) -> nat
    decreases s.len(),
{
    if s.len() == 0 {
        0
    } else {
        digits_value(s.drop_last()) * 10 + digit_value(s.last())
    }
}

pub open spec fn all_digits(s: Seq<char>) -> bool {
    forall|i: int| 0 <= i < s.len() ==> is_digit(#[trigger] s[i])
}

/// What `str::parse::<u64>` gives: an optional leading `+`, then at least
/// one decimal digit and nothing else, denoting a value that fits in `u64`.
pub open spec fn parse_u64_spec(s: Seq<char>) -> Option<u64> {
    let body = if s.len() > 0 && s[0] == '+' {
        s.drop_first()
    } else {
        s
    };
    if body.len() > 0 && all_digits(body) && digits_value(body) <= u64::MAX {
        Some(digits_value(body) as u64)
    } else {
        None
    }
}

/// What `str::parse::<u16>` gives.
pub open spec fn parse_u16_spec(s: Seq<char>) -> Option<u16> {
    match parse_u64_spec(s) {
        Some(v) => if v <= u16::MAX {
            Some(v as u16)
        } else {
            None
        },
        None => None,
    }
}

/// What `str::parse::<bool>` gives.
pub open spec fn parse_bool_spec(s: Seq<char>) -> Option<bool> {
    if s == seq!['t', 'r', 'u', 'e'] {
        Some(true)
    } else if s == seq!['f', 'a', 'l', 's', 'e'] {
        Some(false)
    } else {
        None
    }
}

/// The characters that `char::is_whitespace` accepts (Unicode `White_Space`).
pub open spec fn is_white_space(c: char) -> bool {
    let u = c as u32;
    ||| 0x09 <= u <= 0x0d
    ||| u == 0x20
    ||| u == 0x85
    ||| u == 0xa0
    ||| u == 0x1680
    ||| 0x2000 <= u <= 0x200a
    ||| u == 0x2028
    ||| u == 0x2029
    ||| u == 0x202f
    ||| u == 0x205f
    ||| u == 0x3000
}

/// Whether `s[start..end]` is `s` trimmed of white space at both ends:
/// `start` is the first index holding no white space and `end` one past
/// the last.
pub open spec fn is_trim_of(s: Seq<char>, start: int, end: int) -> bool {
    &&& 0 <= start <= end <= s.len()
    &&& forall|i: int| 0 <= i < start ==> is_white_space(#[trigger] s[i])
    &&& forall|i: int| end <= i < s.len() ==> is_white_space(#[trigger] s[i])
    &&& start < end ==> !is_white_space(s[start]) && !is_white_space(s[end - 1])
}

/// `s` without leading and trailing white space, as `str::trim` gives it.
pub open spec fn trim_spec(s: Seq<char>) -> Seq<char> {
    let (start, end) = choose|start: int, end: int| is_trim_of(s, start, end);
    s.subrange(start, end)
}

/// Appends one character to a `String` (std's `String::push`).
#[verifier::external_body]
pub(crate) fn push_char(s: &mut String, c: char)
    ensures
        final(s)@ == old(s)@.push(c),
{
    s.push(c);
}

/// Appends the characters of `t` to `s`.
pub fn push_str(s: &mut String, t: &str)
    ensures
        final(s)@ == old(s)@ + t@,
{
    let chars = chars_of(t);
    push_chars(s, &chars);
}

/// Appends a sequence of characters to `s`.
pub fn push_chars(s: &mut String, cs: &Vec<char>)
    ensures
        final(s)@ == old(s)@ + cs@,
{
    let ghost start = s@;
    let mut i: usize = 0;
    while i < cs.len()
        invariant
            i <= cs.len(),
            s@ == start + cs@.subrange(0, i as int),
        decreases cs.len() - i,
    {
        push_char(s, cs[i]);
        i = i + 1;
        assert(cs@.subrange(0, i as int) == cs@.subrange(0, i - 1).push(cs@[i - 1]));
    }
    assert(cs@.subrange(0, cs.len() as int) == cs@);
}

/// A `String` holding exactly the given characters.
pub fn string_of(cs: &Vec<char>) -> (s: String)
    ensures
        s@ == cs@,
{
    let mut s = String::new();
    push_chars(&mut s, cs);
    s
}

/// The characters of a string slice.
pub fn chars_of(t: &str) -> (v: Vec<char>)
    ensures
        v@ == t@,
{
    let mut v: Vec<char> = Vec::new();
    for c in it: t.chars()
        invariant
            v@ == it.seq().take(it.index() as int),
            it.seq() == t@,
    {
        v.push(c);
    }
    v
}

pub fn digit_of(d: u64) -> (c: char)
    requires
        d < 10,
    ensures
        c == digit_char(d as nat),
{
    let b: u8 = 48u8 + (d as u8);
    b as char
}

/// Appends the decimal digits of `n`.
pub fn push_decimal(s: &mut String, n: u64)
    ensures
        final(s)@ == old(s)@ + decimal(n as nat),
    decreases n,
{
    if n >= 10 {
        push_decimal(s, n / 10);
    }
    push_char(s, digit_of(n % 10));
}

/// The decimal text of `n`, as `u64::to_string` gives it.
pub fn decimal_string(n: u64) -> (s: String)
    ensures
        s@ == decimal(n as nat),
{
    let mut s = String::new();
    push_decimal(&mut s, n);
    s
}

fn push_two_digits(s: &mut String, n: u64)
    requires
        n < 100,
    ensures
        final(s)@ == old(s)@ + two_digits(n as nat),
{
    push_char(s, digit_of(n / 10));
    push_char(s, digit_of(n % 10));
}

/// Formats a time in seconds as `HH:MM:SS`: the hour of the day, the
/// minute and the second, each with two digits.
pub fn fmt_time(time: u64) -> (s: String)
    ensures
        s@ == clock_text(time as nat),
{
    let seconds = time % 60;
    let minutes = (time / 60) % 60;
    let hours = (time / 3600) % 24;
    let mut s = String::new();
    push_two_digits(&mut s, hours);
    push_char(&mut s, ':');
    push_two_digits(&mut s, minutes);
    push_char(&mut s, ':');
    push_two_digits(&mut s, seconds);
    s
}

/// Whether `c` is white space in the sense of `char::is_whitespace`.
pub fn is_whitespace_char(c: char) -> (b: bool)
    ensures
        b == is_white_space(c),
{
    let u = c as u32;
    (0x09 <= u && u <= 0x0d) || u == 0x20 || u == 0x85 || u == 0xa0 || u == 0x1680 || (0x2000
        <= u && u <= 0x200a) || u == 0x2028 || u == 0x2029 || u == 0x202f || u == 0x205f || u
        == 0x3000
}

proof fn lemma_trim_unique(s: Seq<char>, a: int, b: int, c: int, d: int)
    requires
        is_trim_of(s, a, b),
        is_trim_of(s, c, d),
    ensures
        s.subrange(a, b) == s.subrange(c, d),
{
    if a < b && c < d {
        assert(a == c) by {
            if a < c {
                assert(is_white_space(s[a]));
            }
            if c < a {
                assert(is_white_space(s[c]));
            }
        }
        assert(b == d) by {
            if b < d {
                assert(is_white_space(s[d - 1]));
            }
            if d < b {
                assert(is_white_space(s[b - 1]));
            }
        }
    } else if a < b {
        assert(is_white_space(s[a]));
    } else if c < d {
        assert(is_white_space(s[c]));
    }
    assert(s.subrange(a, b) =~= s.subrange(c, d));
}

/// The first index at or after `i` that holds no white space (or the end).
spec fn skip_white(s: Seq<char>, i: int) -> int
    decreases s.len() - i,
{
    if 0 <= i < s.len() && is_white_space(s[i]) {
        skip_white(s, i + 1)
    } else {
        i
    }
}

/// The end of `s[lo..j]` once the white space at its end is dropped.
spec fn drop_white(s: Seq<char>, lo: int, j: int) -> int
    decreases j - lo,
{
    if lo < j && is_white_space(s[j - 1]) {
        drop_white(s, lo, j - 1)
    } else {
        j
    }
}

proof fn lemma_skip_white(s: Seq<char>, i: int)
    requires
        0 <= i <= s.len(),
    ensures
        i <= skip_white(s, i) <= s.len(),
        forall|k: int| i <= k < skip_white(s, i) ==> is_white_space(#[trigger] s[k]),
        skip_white(s, i) < s.len() ==> !is_white_space(s[skip_white(s, i)]),
    decreases s.len() - i,
{
    if i < s.len() && is_white_space(s[i]) {
        lemma_skip_white(s, i + 1);
    }
}

proof fn lemma_drop_white(s: Seq<char>, lo: int, j: int)
    requires
        0 <= lo <= j <= s.len(),
    ensures
        lo <= drop_white(s, lo, j) <= j,
        forall|k: int| drop_white(s, lo, j) <= k < j ==> is_white_space(#[trigger] s[k]),
        lo < drop_white(s, lo, j) ==> !is_white_space(s[drop_white(s, lo, j) - 1]),
    decreases j - lo,
{
    if lo < j && is_white_space(s[j - 1]) {
        lemma_drop_white(s, lo, j - 1);
    }
}

/// Every text has its trimmed form: leading and trailing white space
/// dropped, and what is left neither starts nor ends with white space.
pub proof fn lemma_trim(s: Seq<char>)
    ensures
        exists|start: int, end: int| is_trim_of(s, start, end) && trim_spec(s) == s.subrange(start, end),
        trim_spec(s).len() > 0 ==> !is_white_space(trim_spec(s)[0]) && !is_white_space(
            trim_spec(s)[trim_spec(s).len() - 1],
        ),
{
    let a = skip_white(s, 0);
    lemma_skip_white(s, 0);
    let b = drop_white(s, a, s.len() as int);
    lemma_drop_white(s, a, s.len() as int);
    assert(is_trim_of(s, a, b)) by {
        if a < b {
            assert(a < s.len());
        }
    }
    let (c, d) = choose|c: int, d: int| is_trim_of(s, c, d);
    lemma_trim_unique(s, a, b, c, d);
    let t = trim_spec(s);
    if t.len() > 0 {
        assert(t[0] == s[a]);
        assert(t[t.len() - 1] == s[b - 1]);
    }
}

/// The characters of `t` without leading and trailing white space, as
/// `str::trim` gives them.
pub fn trim_chars(t: &Vec<char>) -> (r: Vec<char>)
    ensures
        r@ == trim_spec(t@),
{
    let n = t.len();
    let mut start: usize = 0;
    while start < n && is_whitespace_char(t[start])
        invariant
            start <= n == t.len(),
            forall|i: int| 0 <= i < start ==> is_white_space(#[trigger] t@[i]),
        decreases n - start,
    {
        start = start + 1;
    }
    let mut end: usize = n;
    while end > start && is_whitespace_char(t[end - 1])
        invariant
            start <= end <= n == t.len(),
            forall|i: int| end <= i < n ==> is_white_space(#[trigger] t@[i]),
        decreases end,
    {
        end = end - 1;
    }
    let mut r: Vec<char> = Vec::new();
    let mut i = start;
    while i < end
        invariant
            start <= i <= end <= n == t.len(),
            r@ == t@.subrange(start as int, i as int),
        decreases end - i,
    {
        r.push(t[i]);
        i = i + 1;
    }
    proof {
        assert(is_trim_of(t@, start as int, end as int));
        let (a, b) = choose|a: int, b: int| is_trim_of(t@, a, b);
        lemma_trim_unique(t@, start as int, end as int, a, b);
    }
    r
}

proof fn lemma_digits_value_bound(s: Seq<char>, bound: nat)
    requires
        all_digits(s),
        digits_value(s) <= bound,
    ensures
        forall|k: int| 0 <= k <= s.len() ==> digits_value(#[trigger] s.subrange(0, k)) <= bound,
    decreases s.len(),
{
    if s.len() > 0 {
        assert(s.subrange(0, s.len() as int) =~= s);
        let p = s.drop_last();
        assert(all_digits(p)) by {
            assert forall|i: int| 0 <= i < p.len() implies is_digit(#[trigger] p[i]) by {
                assert(p[i] == s[i]);
                assert(is_digit(s[i]));
            }
        }
        assert(digits_value(p) <= digits_value(s));
        lemma_digits_value_bound(p, bound);
        assert forall|k: int| 0 <= k <= s.len() implies digits_value(
            #[trigger] s.subrange(0, k),
        ) <= bound by {
            if k < s.len() {
                assert(s.subrange(0, k) =~= p.subrange(0, k));
            }
        }
    }
}

/// Parses decimal digits (after an optional `+`) as `str::parse::<u64>` does.
pub fn parse_u64(t: &Vec<char>) -> (r: Option<u64>)
    ensures
        r == parse_u64_spec(t@),
{
    let mut i: usize = 0;
    if t.len() > 0 && t[0] == '+' {
        i = 1;
    }
    let ghost body = if t@.len() > 0 && t@[0] == '+' {
        t@.drop_first()
    } else {
        t@
    };
    assert(body =~= t@.subrange(i as int, t@.len() as int));
    if i >= t.len() {
        return None;
    }
    let mut value: u64 = 0;
    let mut ok = true;
    while i < t.len()
        invariant
            body == t@.subrange(i0(t@), t@.len() as int),
            i0(t@) <= i <= t.len(),
            ok ==> all_digits(t@.subrange(i0(t@), i as int)),
            ok ==> value == digits_value(t@.subrange(i0(t@), i as int)),
            !ok ==> !(all_digits(body) && digits_value(body) <= u64::MAX),
        decreases t.len() - i,
    {
        let c = t[i];
        if ok {
            let ghost pre = t@.subrange(i0(t@), i as int);
            let ghost next = t@.subrange(i0(t@), i + 1);
            assert(next.drop_last() =~= pre);
            if '0' <= c && c <= '9' {
                let d = (c as u32 - 48) as u64;
                assert(digits_value(next) == digits_value(pre) * 10 + d);
                if value > (u64::MAX - d) / 10 {
                    ok = false;
                    proof {
                        assert(digits_value(next) > u64::MAX) by (nonlinear_arith)
                            requires
                                value > (u64::MAX - d) / 10,
                                digits_value(next) == value * 10 + d,
                                d < 10,
                        ;
                        if all_digits(body) && digits_value(body) <= u64::MAX {
                            lemma_digits_value_bound(body, u64::MAX as nat);
                            assert(next =~= body.subrange(0, i + 1 - i0(t@)));
                        }
                    }
                } else {
                    assert(value * 10 + d <= u64::MAX) by (nonlinear_arith)
                        requires
                            value <= (u64::MAX - d) / 10,
                            d < 10,
                    ;
                    value = value * 10 + d;
                    assert(all_digits(next)) by {
                        assert forall|j: int| 0 <= j < next.len() implies is_digit(
                            #[trigger] next[j],
                        ) by {
                            if j < pre.len() {
                                assert(next[j] == pre[j]);
                            }
                        }
                    }
                }
            } else {
                ok = false;
                assert(body[i - i0(t@)] == c);
            }
        }
        i = i + 1;
    }
    assert(t@.subrange(i0(t@), t@.len() as int) == body);
    if ok {
        Some(value)
    } else {
        None
    }
}

/// Where the digits start in `parse_u64`: after a leading `+`, if any.
pub open spec fn i0(s: Seq<char>) -> int {
    if s.len() > 0 && s[0] == '+' {
        1
    } else {
        0
    }
}

/// Parses a port or other 16-bit number as `str::parse::<u16>` does.
pub fn parse_u16(t: &Vec<char>) -> (r: Option<u16>)
    ensures
        r == parse_u16_spec(t@),
{
    match parse_u64(t) {
        Some(v) => if v <= 65535 {
            Some(v as u16)
        } else {
            None
        },
        None => None,
    }
}

/// Parses `true` or `false` as `str::parse::<bool>` does.
pub fn parse_bool(t: &Vec<char>) -> (r: Option<bool>)
    ensures
        r == parse_bool_spec(t@),
{
    if t.len() == 4 && t[0] == 't' && t[1] == 'r' && t[2] == 'u' && t[3] == 'e' {
        assert(t@ =~= seq!['t', 'r', 'u', 'e']);
        Some(true)
    } else if t.len() == 5 && t[0] == 'f' && t[1] == 'a' && t[2] == 'l' && t[3] == 's' && t[4]
        == 'e' {
        assert(t@ =~= seq!['f', 'a', 'l', 's', 'e']);
        Some(false)
    } else {
        assert(t@ != seq!['t', 'r', 'u', 'e'] && t@ != seq!['f', 'a', 'l', 's', 'e']) by {
            if t@ == seq!['t', 'r', 'u', 'e'] {
                assert(t@.len() == 4 && t@[0] == 't' && t@[1] == 'r' && t@[2] == 'u' && t@[3]
                    == 'e');
            }
            if t@ == seq!['f', 'a', 'l', 's', 'e'] {
                assert(t@.len() == 5 && t@[0] == 'f' && t@[4] == 'e');
            }
        }
        None
    }
}

/// Whether two character sequences are equal.
pub fn chars_eq(a: &Vec<char>, b: &Vec<char>) -> (r: bool)
    ensures
        r == (a@ == b@),
{
    if a.len() != b.len() {
        return false;
    }
    let mut i: usize = 0;
    while i < a.len()
        invariant
            i <= a.len() == b.len(),
            forall|j: int| 0 <= j < i ==> a@[j] == b@[j],
        decreases a.len() - i,
    {
        if a[i] != b[i] {
            return false;
        }
        i = i + 1;
    }
    assert(a@ =~= b@);
    true
}

/// Whether two strings hold the same text.
pub fn str_eq(a: &str, b: &str) -> (r: bool)
    ensures
        r == (a@ == b@),
{
    let ca = chars_of(a);
    let cb = chars_of(b);
    chars_eq(&ca, &cb)
}

/// Facts about the decimal text of a number: it is a non-empty run of
/// digits that denotes the number, it starts with `0` only for 0, and it has
/// one digit below 10, two below 100, three below 1000.
pub proof fn lemma_decimal(n: nat)
    ensures
        decimal(n).len() > 0,
        all_digits(decimal(n)),
        digits_value(decimal(n)) == n,
        n >= 1 ==> decimal(n)[0] != '0',
        n < 10 ==> decimal(n).len() == 1,
        10 <= n < 100 ==> decimal(n).len() == 2,
        100 <= n < 1000 ==> decimal(n).len() == 3,
    decreases n,
{
    if n >= 10 {
        lemma_decimal(n / 10);
        let d = decimal(n / 10);
        let s = decimal(n);
        assert(s == d.push(digit_char(n % 10)));
        assert(s.drop_last() =~= d);
        assert forall|i: int| 0 <= i < s.len() implies is_digit(#[trigger] s[i]) by {
            if i < d.len() {
                assert(s[i] == d[i]);
            }
        }
        assert(s[0] == d[0]);
        assert(digit_value(digit_char(n % 10)) == n % 10);
        assert(digits_value(s) == digits_value(d) * 10 + digit_value(digit_char(n % 10)));
        assert(digits_value(s) == n);
    } else {
        let s = decimal(n);
        assert(s.drop_last() =~= Seq::<char>::empty());
        assert(digit_value(digit_char(n)) == n);
        assert(digits_value(Seq::<char>::empty()) == 0);
        assert(digits_value(s) == digits_value(s.drop_last()) * 10 + digit_value(s.last()));
    }
}

/// A number written in decimal reads back as itself.
pub proof fn lemma_parse_decimal(n: u64)
    ensures
        parse_u64_spec(decimal(n as nat)) == Some(n),
{
    lemma_decimal(n as nat);
    let s = decimal(n as nat);
    assert(is_digit(s[0]));
}

/// `true` and `false` read back as themselves.
pub proof fn lemma_parse_bool_text(b: bool)
    ensures
        parse_bool_spec(if b {
            seq!['t', 'r', 'u', 'e']
        } else {
            seq!['f', 'a', 'l', 's', 'e']
        }) == Some(b),
{
    if !b {
        assert(seq!['f', 'a', 'l', 's', 'e'] != seq!['t', 'r', 'u', 'e']) by {
            assert(seq!['f', 'a', 'l', 's', 'e'].len() != seq!['t', 'r', 'u', 'e'].len());
        }
    }
}

} // verus!
