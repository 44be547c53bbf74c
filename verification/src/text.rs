//! Character-sequence helpers shared by the parsers and policies of the crate.

use vstd::prelude::*;

verus! {

/// Whether `c` has the Unicode `White_Space` property.
pub open spec fn is_white_space(c: char) -> bool {
    ||| c == ' '
    ||| ('\u{9}' <= c && c <= '\u{d}')
    ||| c == '\u{85}'
    ||| c == '\u{a0}'
    ||| c == '\u{1680}'
    ||| ('\u{2000}' <= c && c <= '\u{200a}')
    ||| c == '\u{2028}'
    ||| c == '\u{2029}'
    ||| c == '\u{202f}'
    ||| c == '\u{205f}'
    ||| c == '\u{3000}'
}

/// `s` without its leading white space.
pub open spec fn trim_start(s: Seq<char>) -> Seq<char>
    decreases s.len(),
{
    if s.len() > 0 && is_white_space(s[0]) {
        trim_start(s.drop_first())
    } else {
        s
    }
}

/// `s` without its trailing white space.
pub open spec fn trim_end(s: Seq<char>) -> Seq<char>
    decreases s.len(),
{
    if s.len() > 0 && is_white_space(s.last()) {
        trim_end(s.drop_last())
    } else {
        s
    }
}

/// `s` without leading and trailing white space.
pub open spec fn trim(s: Seq<char>) -> Seq<char> {
    trim_end(trim_start(s))
}

pub open spec fn starts_with(s: Seq<char>, prefix: Seq<char>) -> bool {
    prefix.len() <= s.len() && s.subrange(0, prefix.len() as int) == prefix
}

pub open spec fn ends_with(s: Seq<char>, suffix: Seq<char>) -> bool {
    suffix.len() <= s.len() && s.subrange(s.len() - suffix.len(), s.len() as int) == suffix
}

/// `needle` occurs in `s` at position `i`.
pub open spec fn occurs_at(s: Seq<char>, needle: Seq<char>, i: int) -> bool {
    0 <= i && i + needle.len() <= s.len() && s.subrange(i, i + needle.len()) == needle
}

pub open spec fn contains(s: Seq<char>, needle: Seq<char>) -> bool {
    exists|i: int| occurs_at(s, needle, i)
}

pub open spec fn has_char(s: Seq<char>, c: char) -> bool {
    exists|i: int| 0 <= i < s.len() && s[i] == c
}

pub open spec fn ascii_lower_char(c: char) -> char {
    if 'A' <= c && c <= 'Z' {
        ((c as u32) + 32) as char
    } else {
        c
    }
}

/// Whether every character of `s` is ASCII.
pub open spec fn all_ascii(s: Seq<char>) -> bool {
    forall|i: int| 0 <= i < s.len() ==> (#[trigger] s[i] as u32) < 128
}

/// `s` with its ASCII upper-case letters mapped to lower case.
pub open spec fn ascii_lower(s: Seq<char>) -> Seq<char> {
    s.map_values(|c: char| ascii_lower_char(c))
}

pub open spec fn decimal_digit(d: int) -> char {
    ((d + 48) as u32) as char
}

/// The decimal representation of `n`, without leading zeros.
pub open spec fn decimal(n: nat) -> Seq<char>
    decreases n,
{
    if n < 10 {
        seq![decimal_digit(n as int)]
    } else {
        decimal(n / 10).push(decimal_digit((n % 10) as int))
    }
}

/// The characters of an optional string.
pub open spec fn opt_view(value: Option<String>) -> Option<Seq<char>> {
    match value {
        Some(s) => Some(s@),
        None => None,
    }
}

/// The characters of `s`, in order.
#[verifier::external_body]
pub(crate) fn chars_of(s: &str) -> (r: Vec<char>)
    ensures
        r@ == s@,
{
    s.chars().collect()
}

/// A string made of the characters of `v`, in order.
#[verifier::external_body]
pub(crate) fn string_of(v: &[char]) -> (r: String)
    ensures
        r@ == v@,
{
    v.iter().collect()
}

/// Calls `std::str::from_utf8`: the text that `bytes` encode, when they are UTF-8.
#[verifier::external_body]
pub(crate) fn utf8_text(bytes: &[u8]) -> (r: Option<String>)
    ensures
        match r {
            Some(text) => vstd::utf8::encode_utf8(text@) == bytes@,
            None => !vstd::utf8::valid_utf8(bytes@),
        },
{
    std::str::from_utf8(bytes).ok().map(|text| text.to_owned())
}

/// Appends one character to `s`.
#[verifier::external_body]
pub(crate) fn push_char(s: &mut String, c: char)
    ensures
        final(s)@ == old(s)@.push(c),
{
    s.push(c);
}

/// Unicode full lower-case mapping of `s`, as `str::to_lowercase` computes it.
pub uninterp spec fn spec_to_lowercase(s: Seq<char>) -> Seq<char>;

/// Calls `str::to_lowercase`; the result is the Unicode lower-case mapping of `s`,
/// which on ASCII text maps each upper-case letter to its lower case and keeps
/// every other character.
#[verifier::external_body]
pub(crate) fn to_lowercase(s: &str) -> (r: String)
    ensures
        r@ == spec_to_lowercase(s@),
        all_ascii(s@) ==> r@ == ascii_lower(s@),
{
    s.to_lowercase()
}

proof fn lemma_trim_start_ascii(s: Seq<char>)
    requires
        all_ascii(s),
    ensures
        all_ascii(trim_start(s)),
    decreases s.len(),
{
    if s.len() > 0 && is_white_space(s[0]) {
        let t = s.drop_first();
        assert forall|i: int| 0 <= i < t.len() implies (#[trigger] t[i] as u32) < 128 by {
            assert(t[i] == s[i + 1]);
        }
        lemma_trim_start_ascii(t);
    }
}

proof fn lemma_trim_end_ascii(s: Seq<char>)
    requires
        all_ascii(s),
    ensures
        all_ascii(trim_end(s)),
    decreases s.len(),
{
    if s.len() > 0 && is_white_space(s.last()) {
        let t = s.drop_last();
        assert forall|i: int| 0 <= i < t.len() implies (#[trigger] t[i] as u32) < 128 by {
            assert(t[i] == s[i]);
        }
        lemma_trim_end_ascii(t);
    }
}

/// Trimming ASCII text leaves ASCII text.
pub proof fn lemma_trim_keeps_ascii(s: Seq<char>)
    requires
        all_ascii(s),
    ensures
        all_ascii(trim(s)),
{
    lemma_trim_start_ascii(s);
    lemma_trim_end_ascii(trim_start(s));
}

proof fn lemma_trim_start(s: Seq<char>, a: int)
    requires
        0 <= a <= s.len(),
        forall|i: int| 0 <= i < a ==> is_white_space(#[trigger] s[i]),
        a == s.len() || !is_white_space(s[a]),
    ensures
        trim_start(s) == s.subrange(a, s.len() as int),
    decreases a,
{
    if a == 0 {
        assert(s.subrange(0, s.len() as int) =~= s);
    } else {
        assert(is_white_space(s[0]));
        let t = s.drop_first();
        assert forall|i: int| 0 <= i < a - 1 implies is_white_space(#[trigger] t[i]) by {
            assert(t[i] == s[i + 1]);
        }
        lemma_trim_start(t, a - 1);
        assert(t.subrange(a - 1, t.len() as int) =~= s.subrange(a, s.len() as int));
    }
}

proof fn lemma_trim_end(t: Seq<char>, b: int)
    requires
        0 <= b <= t.len(),
        forall|i: int| b <= i < t.len() ==> is_white_space(#[trigger] t[i]),
        b == 0 || !is_white_space(t[b - 1]),
    ensures
        trim_end(t) == t.subrange(0, b),
    decreases t.len() - b,
{
    if b == t.len() {
        assert(t.subrange(0, b) =~= t);
    } else {
        assert(is_white_space(t.last()));
        let u = t.drop_last();
        assert forall|i: int| b <= i < u.len() implies is_white_space(#[trigger] u[i]) by {
            assert(u[i] == t[i]);
        }
        lemma_trim_end(u, b);
        assert(u.subrange(0, b) =~= t.subrange(0, b));
    }
}

/// `s` without its leading and trailing white space, as `str::trim` gives it.
pub fn trimmed(s: &str) -> (r: String)
    ensures
        r@ == trim(s@),
{
    let chars = chars_of(s);
    let n = chars.len();
    let mut a: usize = 0;
    while a < n && is_white_space_char(chars[a])
        invariant
            a <= n,
            n == chars@.len(),
            forall|i: int| 0 <= i < a ==> is_white_space(#[trigger] chars@[i]),
        decreases n - a,
    {
        a = a + 1;
    }
    let mut b: usize = n;
    while b > a && is_white_space_char(chars[b - 1])
        invariant
            a <= b <= n,
            n == chars@.len(),
            forall|i: int| b <= i < n ==> is_white_space(#[trigger] chars@[i]),
        decreases b,
    {
        b = b - 1;
    }
    let mut out = String::new();
    let mut k: usize = a;
    while k < b
        invariant
            a <= k <= b,
            b <= n,
            n == chars@.len(),
            out@ == chars@.subrange(a as int, k as int),
        decreases b - k,
    {
        push_char(&mut out, chars[k]);
        proof {
            assert(out@ =~= chars@.subrange(a as int, k + 1));
        }
        k = k + 1;
    }
    proof {
        lemma_trim_start(s@, a as int);
        let t = s@.subrange(a as int, n as int);
        assert forall|i: int| b - a <= i < t.len() implies is_white_space(#[trigger] t[i]) by {
            assert(t[i] == s@[i + a]);
        }
        if b > a {
            assert(t[b - a - 1] == s@[b - 1]);
        }
        lemma_trim_end(t, b - a);
        assert(t.subrange(0, b - a) =~= s@.subrange(a as int, b as int));
    }
    out
}

/// Whether `a` and `b` hold the same characters.
pub fn str_eq(a: &str, b: &str) -> (r: bool)
    ensures
        r == (a@ == b@),
{
    let x = chars_of(a);
    let y = chars_of(b);
    if x.len() != y.len() {
        return false;
    }
    let mut i: usize = 0;
    while i < x.len()
        invariant
            i <= x.len(),
            x.len() == y.len(),
            x@ == a@,
            y@ == b@,
            forall|j: int| 0 <= j < i ==> x@[j] == y@[j],
        decreases x.len() - i,
    {
        if x[i] != y[i] {
            return false;
        }
        i = i + 1;
    }
    proof {
        assert(a@ =~= b@);
    }
    true
}

/// `s` with its ASCII letters in lower case, as `str::to_ascii_lowercase` gives it.
pub fn ascii_lowercase(s: &str) -> (r: String)
    ensures
        r@ == ascii_lower(s@),
{
    let chars = chars_of(s);
    let mut out = String::new();
    let mut i: usize = 0;
    while i < chars.len()
        invariant
            i <= chars.len(),
            chars@ == s@,
            out@ == ascii_lower(s@.subrange(0, i as int)),
        decreases chars.len() - i,
    {
        push_char(&mut out, ascii_lower_of(chars[i]));
        proof {
            assert(out@ =~= ascii_lower(s@.subrange(0, i + 1)));
        }
        i = i + 1;
    }
    proof {
        assert(s@.subrange(0, s@.len() as int) =~= s@);
    }
    out
}

/// Whether `a` and `b` are equal once their ASCII letters are in lower case, as
/// `str::eq_ignore_ascii_case` decides it.
pub fn eq_ignore_ascii_case(a: &str, b: &str) -> (r: bool)
    ensures
        r == (ascii_lower(a@) == ascii_lower(b@)),
{
    let x = chars_of(a);
    let y = chars_of(b);
    if x.len() != y.len() {
        proof {
            assert(ascii_lower(a@).len() != ascii_lower(b@).len());
        }
        return false;
    }
    let mut i: usize = 0;
    while i < x.len()
        invariant
            i <= x.len(),
            x.len() == y.len(),
            x@ == a@,
            y@ == b@,
            forall|j: int| 0 <= j < i ==> ascii_lower_char(x@[j]) == ascii_lower_char(y@[j]),
        decreases x.len() - i,
    {
        if ascii_lower_of(x[i]) != ascii_lower_of(y[i]) {
            proof {
                assert(ascii_lower(a@)[i as int] != ascii_lower(b@)[i as int]);
            }
            return false;
        }
        i = i + 1;
    }
    proof {
        assert(ascii_lower(a@) =~= ascii_lower(b@));
    }
    true
}

/// Whether `s` begins with `prefix`.
pub fn str_starts_with(s: &str, prefix: &str) -> (r: bool)
    ensures
        r == starts_with(s@, prefix@),
{
    let x = chars_of(s);
    let p = chars_of(prefix);
    if p.len() > x.len() {
        return false;
    }
    let mut i: usize = 0;
    while i < p.len()
        invariant
            i <= p.len(),
            p.len() <= x.len(),
            x@ == s@,
            p@ == prefix@,
            forall|j: int| 0 <= j < i ==> x@[j] == p@[j],
        decreases p.len() - i,
    {
        if x[i] != p[i] {
            proof {
                assert(s@.subrange(0, prefix@.len() as int)[i as int] != prefix@[i as int]);
            }
            return false;
        }
        i = i + 1;
    }
    proof {
        assert(s@.subrange(0, prefix@.len() as int) =~= prefix@);
    }
    true
}

/// Whether `s` ends with `suffix`.
pub fn str_ends_with(s: &str, suffix: &str) -> (r: bool)
    ensures
        r == ends_with(s@, suffix@),
{
    let x = chars_of(s);
    let p = chars_of(suffix);
    if p.len() > x.len() {
        return false;
    }
    let offset = x.len() - p.len();
    let mut i: usize = 0;
    while i < p.len()
        invariant
            i <= p.len(),
            offset + p.len() == x.len(),
            x@ == s@,
            p@ == suffix@,
            forall|j: int| 0 <= j < i ==> x@[offset + j] == p@[j],
        decreases p.len() - i,
    {
        if x[offset + i] != p[i] {
            proof {
                assert(s@.subrange(offset as int, s@.len() as int)[i as int] != suffix@[i as int]);
            }
            return false;
        }
        i = i + 1;
    }
    proof {
        assert(s@.subrange(offset as int, s@.len() as int) =~= suffix@);
    }
    true
}

/// Whether `needle` occurs in `s`.
pub fn str_contains(s: &str, needle: &str) -> (r: bool)
    ensures
        r == contains(s@, needle@),
{
    let x = chars_of(s);
    let w = chars_of(needle);
    if w.len() > x.len() {
        proof {
            assert forall|j: int| !occurs_at(s@, needle@, j) by {}
        }
        return false;
    }
    let last = x.len() - w.len();
    let mut i: usize = 0;
    loop
        invariant
            i <= last,
            last == x.len() - w.len(),
            w.len() <= x.len(),
            x@ == s@,
            w@ == needle@,
            forall|j: int| 0 <= j < i ==> !occurs_at(s@, needle@, j),
        ensures
            forall|j: int| 0 <= j <= last ==> !occurs_at(s@, needle@, j),
        decreases last - i,
    {
        if matches_at(&x, &w, i) {
            proof {
                assert(occurs_at(s@, needle@, i as int));
            }
            return true;
        }
        if i == last {
            break;
        }
        i = i + 1;
    }
    proof {
        assert forall|j: int| !occurs_at(s@, needle@, j) by {
            if j > last as int {
                assert(!occurs_at(s@, needle@, j));
            }
        }
    }
    false
}

/// `word` stands at position `i` of `s` as a whole white-space-separated token.
pub open spec fn word_at(s: Seq<char>, word: Seq<char>, i: int) -> bool {
    &&& occurs_at(s, word, i)
    &&& (i == 0 || is_white_space(s[i - 1]))
    &&& (i + word.len() == s.len() || is_white_space(s[i + word.len()]))
}

/// `word` is one of the white-space-separated tokens of `s` (for a non-empty
/// `word` without white space, what `s.split_whitespace().any(|t| t == word)` decides).
pub open spec fn has_word(s: Seq<char>, word: Seq<char>) -> bool {
    exists|i: int| word_at(s, word, i)
}

fn matches_at(x: &Vec<char>, w: &Vec<char>, i: usize) -> (r: bool)
    requires
        i + w.len() <= x.len(),
    ensures
        r == (x@.subrange(i as int, i + w.len()) == w@),
{
    let mut k: usize = 0;
    while k < w.len()
        invariant
            k <= w.len(),
            i + w.len() <= x.len(),
            forall|j: int| 0 <= j < k ==> x@[i + j] == w@[j],
        decreases w.len() - k,
    {
        if x[i + k] != w[k] {
            proof {
                assert(x@.subrange(i as int, i + w.len())[k as int] != w@[k as int]);
            }
            return false;
        }
        k = k + 1;
    }
    proof {
        assert(x@.subrange(i as int, i + w.len()) =~= w@);
    }
    true
}

/// Whether `word` is one of the white-space-separated tokens of `s`.
pub fn contains_word(s: &str, word: &str) -> (r: bool)
    ensures
        r == has_word(s@, word@),
{
    let x = chars_of(s);
    let w = chars_of(word);
    if w.len() > x.len() {
        return false;
    }
    let last = x.len() - w.len();
    let mut i: usize = 0;
    loop
        invariant
            i <= last,
            last == x.len() - w.len(),
            w.len() <= x.len(),
            x@ == s@,
            w@ == word@,
            forall|j: int| 0 <= j < i ==> !word_at(s@, word@, j),
        ensures
            forall|j: int| 0 <= j <= last ==> !word_at(s@, word@, j),
        decreases last - i,
    {
        let before = i == 0 || is_white_space_char(x[i - 1]);
        let after = i + w.len() == x.len() || is_white_space_char(x[i + w.len()]);
        if before && after && matches_at(&x, &w, i) {
            proof {
                assert(word_at(s@, word@, i as int));
            }
            return true;
        }
        proof {
            if word_at(s@, word@, i as int) {
                assert(s@.subrange(i as int, i + word@.len()) == x@.subrange(i as int, i + w@.len()));
            }
        }
        if i == last {
            break;
        }
        i = i + 1;
    }
    proof {
        assert forall|j: int| !word_at(s@, word@, j) by {
            if j > last as int {
                assert(!occurs_at(s@, word@, j));
            }
        }
    }
    false
}

/// The number of bytes of the UTF-8 encoding of `s`.
pub open spec fn utf8_len(s: Seq<char>) -> nat {
    vstd::utf8::encode_utf8(s).len()
}

pub fn byte_len(s: &str) -> (r: usize)
    ensures
        r == utf8_len(s@) as usize,
{
    s.len()
}

pub fn is_white_space_char(c: char) -> (r: bool)
    ensures
        r == is_white_space(c),
{
    c == ' ' || ('\u{9}' <= c && c <= '\u{d}') || c == '\u{85}' || c == '\u{a0}' || c
        == '\u{1680}' || ('\u{2000}' <= c && c <= '\u{200a}') || c == '\u{2028}' || c
        == '\u{2029}' || c == '\u{202f}' || c == '\u{205f}' || c == '\u{3000}'
}

pub fn ascii_lower_of(c: char) -> (r: char)
    ensures
        r == ascii_lower_char(c),
{
    if 'A' <= c && c <= 'Z' {
        let v: u8 = c as u8;
        let w: u8 = v + 32;
        w as char
    } else {
        c
    }
}

pub fn digit_char(d: usize) -> (r: char)
    requires
        d < 10,
    ensures
        r == decimal_digit(d as int),
{
    let v: u8 = d as u8;
    (v + 48) as char
}

/// The decimal representation of `n`.
pub fn decimal_string_u64(n: u64) -> (r: String)
    ensures
        r@ == decimal(n as nat),
    decreases n,
{
    if n < 10 {
        let mut s = String::new();
        push_char(&mut s, digit_char(n as usize));
        proof {
            assert(s@ =~= decimal(n as nat));
        }
        s
    } else {
        let mut s = decimal_string_u64(n / 10);
        push_char(&mut s, digit_char((n % 10) as usize));
        s
    }
}

/// The decimal representation of `n`.
pub fn decimal_string(n: usize) -> (r: String)
    ensures
        r@ == decimal(n as nat),
    decreases n,
{
    if n < 10 {
        let mut s = String::new();
        push_char(&mut s, digit_char(n));
        proof {
            assert(s@ =~= decimal(n as nat));
        }
        s
    } else {
        let mut s = decimal_string(n / 10);
        push_char(&mut s, digit_char(n % 10));
        s
    }
}

/// Whether `c` is an ASCII digit.
pub open spec fn is_digit(c: char) -> bool {
    '0' <= c && c <= '9'
}

/// The value of the ASCII digit `c`.
pub open spec fn digit_value(c: char) -> int {
    (c as u32) as int - 48
}

/// The value of a run of ASCII digits, read in base ten.
pub open spec fn digits_value(s: Seq<char>) -> int
    decreases s.len(),
{
    if s.len() == 0 {
        0
    } else {
        digits_value(s.drop_last()) * 10 + digit_value(s.last())
    }
}

/// The length of a leading `+` or `-` sign of `s`.
pub open spec fn sign_length(s: Seq<char>) -> int {
    if s.len() > 0 && (s[0] == '-' || s[0] == '+') {
        1
    } else {
        0
    }
}

/// The integer that `s` writes as `str::parse` reads one: an optional `+` or
/// `-` sign followed by one or more ASCII digits, and nothing else.
pub open spec fn integer_text(s: Seq<char>) -> Option<int> {
    let digits = s.subrange(sign_length(s), s.len() as int);
    if digits.len() > 0 && forall|i: int| 0 <= i < digits.len() ==> is_digit(#[trigger] digits[i]) {
        Some(
            if s[0] == '-' {
                -digits_value(digits)
            } else {
                digits_value(digits)
            },
        )
    } else {
        None
    }
}

/// What `str::parse::<i32>` gives for `s`: the integer it writes, where that
/// fits in an `i32`.
pub open spec fn i32_text(s: Seq<char>) -> Option<i32> {
    match integer_text(s) {
        Some(v) => if i32::MIN <= v && v <= i32::MAX {
            Some(v as i32)
        } else {
            None
        },
        None => None,
    }
}

proof fn lemma_digits_value_nonnegative(s: Seq<char>)
    requires
        forall|i: int| 0 <= i < s.len() ==> is_digit(#[trigger] s[i]),
    ensures
        digits_value(s) >= 0,
    decreases s.len(),
{
    if s.len() > 0 {
        let t = s.drop_last();
        assert forall|i: int| 0 <= i < t.len() implies is_digit(#[trigger] t[i]) by {
            assert(t[i] == s[i]);
        }
        lemma_digits_value_nonnegative(t);
        assert(is_digit(s[s.len() - 1]));
    }
}

/// Reads `s` as `str::parse::<i32>` does.
pub fn parse_i32(s: &str) -> (r: Option<i32>)
    ensures
        r == i32_text(s@),
{
    let chars = chars_of(s);
    let n = chars.len();
    let mut start: usize = 0;
    if n > 0 && (chars[0] == '-' || chars[0] == '+') {
        start = 1;
    }
    let ghost digits = s@.subrange(sign_length(s@), s@.len() as int);
    if start >= n {
        proof {
            assert(digits.len() == 0);
        }
        return None;
    }
    let cap: u64 = 2147483649;
    let mut magnitude: u64 = 0;
    let mut i: usize = start;
    while i < n
        invariant
            start <= i <= n,
            n == s@.len(),
            chars@ == s@,
            start == sign_length(s@),
            digits == s@.subrange(start as int, n as int),
            forall|j: int| start <= j < i ==> is_digit(#[trigger] s@[j]),
            cap == 2147483649,
            magnitude <= cap,
            magnitude == (if digits_value(s@.subrange(start as int, i as int)) < cap {
                digits_value(s@.subrange(start as int, i as int))
            } else {
                cap as int
            }),
        decreases n - i,
    {
        let c = chars[i];
        if !('0' <= c && c <= '9') {
            proof {
                assert(!is_digit(digits[i - start]));
            }
            return None;
        }
        let d: u64 = (c as u32 - 48) as u64;
        assert(d <= 9 && d as int == digit_value(c));
        let ghost before = s@.subrange(start as int, i as int);
        proof {
            assert(s@.subrange(start as int, i + 1).drop_last() =~= before);
            assert forall|j: int| 0 <= j < before.len() implies is_digit(#[trigger] before[j]) by {
                assert(before[j] == s@[start + j]);
            }
            lemma_digits_value_nonnegative(before);
            assert(digits_value(s@.subrange(start as int, i + 1)) == digits_value(before) * 10 + d);
        }
        if magnitude < cap {
            let next = magnitude * 10 + d;
            magnitude = if next > cap {
                cap
            } else {
                next
            };
        } else {
            proof {
                assert(digits_value(before) * 10 + d >= cap) by (nonlinear_arith)
                    requires
                        digits_value(before) >= cap,
                        d >= 0,
                ;
            }
        }
        i = i + 1;
    }
    proof {
        assert(s@.subrange(start as int, n as int) == digits);
        assert forall|j: int| 0 <= j < digits.len() implies is_digit(#[trigger] digits[j]) by {
            assert(digits[j] == s@[start + j]);
        }
        lemma_digits_value_nonnegative(digits);
    }
    if chars[0] == '-' {
        if magnitude <= 2147483648 {
            let v: i64 = 0 - (magnitude as i64);
            Some(v as i32)
        } else {
            None
        }
    } else if magnitude <= 2147483647 {
        Some(magnitude as i32)
    } else {
        None
    }
}

proof fn lemma_decimal_digits(n: nat)
    ensures
        decimal(n).len() > 0,
        forall|i: int| 0 <= i < decimal(n).len() ==> is_digit(#[trigger] decimal(n)[i]),
        digits_value(decimal(n)) == n,
    decreases n,
{
    if n < 10 {
        let s = decimal(n);
        assert(s.drop_last() =~= Seq::<char>::empty());
        assert(digits_value(Seq::<char>::empty()) == 0);
        assert(s.last() == decimal_digit(n as int));
        assert(digit_value(decimal_digit(n as int)) == n);
        assert(digits_value(s) == digits_value(s.drop_last()) * 10 + digit_value(s.last()));
    } else {
        lemma_decimal_digits(n / 10);
        let t = decimal(n / 10);
        let c = decimal_digit((n % 10) as int);
        assert(decimal(n).drop_last() =~= t);
        assert(digit_value(c) == n % 10);
        assert((n / 10) * 10 + n % 10 == n);
        assert(digits_value(decimal(n)) == digits_value(t) * 10 + digit_value(c));
        assert forall|i: int| 0 <= i < decimal(n).len() implies is_digit(#[trigger] decimal(n)[i]) by {
            if i < t.len() {
                assert(decimal(n)[i] == t[i]);
            }
        }
    }
}

/// Reading an integer back from its decimal text gives the integer: the
/// digits of `n` read as `n` where it fits in an `i32`, and as nothing where it
/// does not; with a `-` in front they read as `-n`, and with a `+` as `n`.
pub proof fn law_i32_text_reads_decimal(n: nat)
    ensures
        n <= i32::MAX ==> i32_text(decimal(n)) == Some(n as i32),
        n > i32::MAX ==> i32_text(decimal(n)) is None,
        n <= i32::MAX + 1 ==> i32_text(seq!['-'] + decimal(n)) == Some((-n) as i32),
        n <= i32::MAX ==> i32_text(seq!['+'] + decimal(n)) == Some(n as i32),
{
    lemma_decimal_digits(n);
    let d = decimal(n);
    assert(is_digit(d[0]));
    assert(d.subrange(0, d.len() as int) =~= d);
    let minus = seq!['-'] + d;
    let plus = seq!['+'] + d;
    assert(minus.subrange(1, minus.len() as int) =~= d);
    assert(plus.subrange(1, plus.len() as int) =~= d);
    assert(minus[0] == '-');
    assert(plus[0] == '+');
}

} // verus!
