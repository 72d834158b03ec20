//! Character-level text handling shared by the sysfs parsers and the
//! helper's validators: Unicode whitespace, trimming, line and word
//! splitting, decimal parsing and decimal formatting.

use vstd::prelude::*;
use vstd::slice::slice_subrange;
use vstd::slice::slice_to_vec;

verus! {

/// The characters that `char::is_whitespace` accepts (Unicode `White_Space`).
pub open spec fn is_whitespace(c: char) -> bool {
    ||| ('\t' <= c && c <= '\r')
    ||| c == ' '
    ||| c == '\u{85}'
    ||| c == '\u{a0}'
    ||| c == '\u{1680}'
    ||| ('\u{2000}' <= c && c <= '\u{200a}')
    ||| c == '\u{2028}'
    ||| c == '\u{2029}'
    ||| c == '\u{202f}'
    ||| c == '\u{205f}'
    ||| c == '\u{3000}'
}

pub fn char_is_whitespace(c: char) -> (r: bool)
    ensures
        r == is_whitespace(c),
{
    ('\t' <= c && c <= '\r') || c == ' ' || c == '\u{85}' || c == '\u{a0}' || c == '\u{1680}'
        || ('\u{2000}' <= c && c <= '\u{200a}') || c == '\u{2028}' || c == '\u{2029}' || c
        == '\u{202f}' || c == '\u{205f}' || c == '\u{3000}'
}

/// ASCII decimal digit.
pub open spec fn is_digit(c: char) -> bool {
    '0' <= c && c <= '9'
}

/// ASCII hexadecimal digit, either case.
pub open spec fn is_hex_digit(c: char) -> bool {
    ||| is_digit(c)
    ||| ('a' <= c && c <= 'f')
    ||| ('A' <= c && c <= 'F')
}

/// ASCII letter.
pub open spec fn is_alpha(c: char) -> bool {
    ('a' <= c && c <= 'z') || ('A' <= c && c <= 'Z')
}

pub fn char_is_digit(c: char) -> (r: bool)
    ensures
        r == is_digit(c),
{
    '0' <= c && c <= '9'
}

pub fn char_is_hex_digit(c: char) -> (r: bool)
    ensures
        r == is_hex_digit(c),
{
    ('0' <= c && c <= '9') || ('a' <= c && c <= 'f') || ('A' <= c && c <= 'F')
}

pub fn char_is_alpha(c: char) -> (r: bool)
    ensures
        r == is_alpha(c),
{
    ('a' <= c && c <= 'z') || ('A' <= c && c <= 'Z')
}

/// Removes leading whitespace.
pub open spec fn trim_start(s: Seq<char>) -> Seq<char>
    decreases s.len(),
{
    if s.len() > 0 && is_whitespace(s[0]) {
        trim_start(s.drop_first())
    } else {
        s
    }
}

/// Removes trailing whitespace.
pub open spec fn trim_end(s: Seq<char>) -> Seq<char>
    decreases s.len(),
{
    if s.len() > 0 && is_whitespace(s.last()) {
        trim_end(s.drop_last())
    } else {
        s
    }
}

/// What `str::trim` leaves of `s`.
pub open spec fn trim(s: Seq<char>) -> Seq<char> {
    trim_end(trim_start(s))
}

/// Every character is an ASCII digit and there is at least one.
pub open spec fn all_digits(s: Seq<char>) -> bool {
    s.len() > 0 && forall|i: int| 0 <= i < s.len() ==> is_digit(#[trigger] s[i])
}

pub open spec fn digit_value(c: char) -> int {
    (c as int) - ('0' as int)
}

/// The number that a string of decimal digits denotes.
pub open spec fn digits_value(s: Seq<char>) -> int
    decreases s.len(),
{
    if s.len() == 0 {
        0
    } else {
        digits_value(s.drop_last()) * 10 + digit_value(s.last())
    }
}

/// The integer that `str::parse` reads from `s` before any range check: an
/// optional `+` (or, when `signed`, `-`) followed by one or more ASCII digits.
pub open spec fn integer_value(s: Seq<char>, signed: bool) -> Option<int> {
    if s.len() > 0 && s[0] == '+' {
        if all_digits(s.drop_first()) {
            Some(digits_value(s.drop_first()))
        } else {
            None
        }
    } else if signed && s.len() > 0 && s[0] == '-' {
        if all_digits(s.drop_first()) {
            Some(-digits_value(s.drop_first()))
        } else {
            None
        }
    } else if all_digits(s) {
        Some(digits_value(s))
    } else {
        None
    }
}

/// `s.parse::<u32>()` as an option.
pub open spec fn parse_u32_spec(s: Seq<char>) -> Option<u32> {
    match integer_value(s, false) {
        Some(v) => if 0 <= v <= u32::MAX {
            Some(v as u32)
        } else {
            None
        },
        None => None,
    }
}

/// `s.parse::<u16>()` as an option.
pub open spec fn parse_u16_spec(s: Seq<char>) -> Option<u16> {
    match integer_value(s, false) {
        Some(v) => if 0 <= v <= u16::MAX {
            Some(v as u16)
        } else {
            None
        },
        None => None,
    }
}

/// `s.parse::<i32>()` as an option.
pub open spec fn parse_i32_spec(s: Seq<char>) -> Option<i32> {
    match integer_value(s, true) {
        Some(v) => if i32::MIN <= v <= i32::MAX {
            Some(v as i32)
        } else {
            None
        },
        None => None,
    }
}

/// Position of the first `c` in `s`, or `s.len()` when there is none.
pub open spec fn find_char(s: Seq<char>, c: char) -> int
    decreases s.len(),
{
    if s.len() == 0 {
        0
    } else if s[0] == c {
        0
    } else {
        1 + find_char(s.drop_first(), c)
    }
}

/// A line ended by `\n` loses one trailing `\r`.
pub open spec fn strip_cr(s: Seq<char>) -> Seq<char> {
    if s.len() > 0 && s.last() == '\r' {
        s.drop_last()
    } else {
        s
    }
}

/// The lines that `str::lines` yields: split at `\n`, a `\r` before the
/// `\n` dropped, no empty line after a final `\n`.
pub open spec fn lines(s: Seq<char>) -> Seq<Seq<char>>
    decreases s.len(),
{
    if s.len() == 0 {
        seq![]
    } else {
        let i = find_char(s, '\n');
        if i >= s.len() {
            seq![s]
        } else {
            proof {
                lemma_find_char_bounds(s, '\n');
            }
            seq![strip_cr(s.take(i))] + lines(s.skip(i + 1))
        }
    }
}

/// Position of the first whitespace character, or `s.len()`.
pub open spec fn find_whitespace(s: Seq<char>) -> int
    decreases s.len(),
{
    if s.len() == 0 {
        0
    } else if is_whitespace(s[0]) {
        0
    } else {
        1 + find_whitespace(s.drop_first())
    }
}

/// The words that `str::split_whitespace` yields.
pub open spec fn words(s: Seq<char>) -> Seq<Seq<char>>
    decreases s.len(),
{
    let t = trim_start(s);
    if t.len() == 0 {
        seq![]
    } else {
        let i = find_whitespace(t);
        proof {
            lemma_trim_start_len(s);
            lemma_find_whitespace_bounds(t);
        }
        seq![t.take(i)] + words(t.skip(i))
    }
}

pub proof fn lemma_find_char_bounds(s: Seq<char>, c: char)
    ensures
        0 <= find_char(s, c) <= s.len(),
        find_char(s, c) < s.len() ==> s[find_char(s, c)] == c,
        forall|j: int| 0 <= j < find_char(s, c) ==> s[j] != c,
    decreases s.len(),
{
    if s.len() > 0 && s[0] != c {
        lemma_find_char_bounds(s.drop_first(), c);
        assert forall|j: int| 0 <= j < find_char(s, c) implies s[j] != c by {
            if j > 0 {
                assert(s[j] == s.drop_first()[j - 1]);
            }
        }
    }
}

pub proof fn lemma_find_whitespace_bounds(s: Seq<char>)
    ensures
        0 <= find_whitespace(s) <= s.len(),
        find_whitespace(s) < s.len() ==> is_whitespace(s[find_whitespace(s)]),
        forall|j: int| 0 <= j < find_whitespace(s) ==> !is_whitespace(#[trigger] s[j]),
    decreases s.len(),
{
    if s.len() > 0 && !is_whitespace(s[0]) {
        lemma_find_whitespace_bounds(s.drop_first());
        assert forall|j: int| 0 <= j < find_whitespace(s) implies !is_whitespace(#[trigger] s[j]) by {
            if j > 0 {
                assert(s[j] == s.drop_first()[j - 1]);
            }
        }
    }
}

pub proof fn lemma_trim_start_len(s: Seq<char>)
    ensures
        trim_start(s).len() <= s.len(),
        trim_start(s) == s.skip(s.len() - trim_start(s).len()),
        trim_start(s).len() > 0 ==> !is_whitespace(trim_start(s)[0]),
    decreases s.len(),
{
    if s.len() > 0 && is_whitespace(s[0]) {
        lemma_trim_start_len(s.drop_first());
        assert(s.drop_first().skip(s.drop_first().len() - trim_start(s).len()) =~= s.skip(
            s.len() - trim_start(s).len(),
        ));
    } else {
        assert(s.skip(0) =~= s);
    }
}

/// Skipping a whitespace prefix does not change what `trim_start` leaves.
pub proof fn lemma_trim_start_skip(s: Seq<char>, i: int)
    requires
        0 <= i <= s.len(),
        forall|j: int| 0 <= j < i ==> is_whitespace(#[trigger] s[j]),
    ensures
        trim_start(s) == trim_start(s.skip(i)),
    decreases i,
{
    if i > 0 {
        assert(s.drop_first().skip(i - 1) =~= s.skip(i));
        lemma_trim_start_skip(s.drop_first(), i - 1);
    } else {
        assert(s.skip(0) =~= s);
    }
}

/// Dropping a whitespace suffix does not change what `trim_end` leaves.
pub proof fn lemma_trim_end_take(s: Seq<char>, i: int)
    requires
        0 <= i <= s.len(),
        forall|j: int| i <= j < s.len() ==> is_whitespace(#[trigger] s[j]),
    ensures
        trim_end(s) == trim_end(s.take(i)),
    decreases s.len() - i,
{
    if i < s.len() {
        assert(s.drop_last().take(i) =~= s.take(i));
        lemma_trim_end_take(s.drop_last(), i);
    } else {
        assert(s.take(i) =~= s);
    }
}

pub proof fn lemma_find_whitespace_at(t: Seq<char>, k: int)
    requires
        0 <= k <= t.len(),
        forall|j: int| 0 <= j < k ==> !is_whitespace(#[trigger] t[j]),
        k == t.len() || is_whitespace(t[k]),
    ensures
        find_whitespace(t) == k,
    decreases k,
{
    if k > 0 {
        assert forall|j: int| 0 <= j < k - 1 implies !is_whitespace(#[trigger] t.drop_first()[j]) by {}
        lemma_find_whitespace_at(t.drop_first(), k - 1);
    }
}

/// A word: one or more characters, none of them whitespace.
pub open spec fn is_word(w: Seq<char>) -> bool {
    w.len() > 0 && forall|k: int| 0 <= k < w.len() ==> !is_whitespace(#[trigger] w[k])
}

/// A lone word splits into itself.
pub proof fn lemma_words_single(w: Seq<char>)
    requires
        is_word(w),
    ensures
        words(w) == seq![w],
{
    lemma_find_whitespace_at(w, w.len() as int);
    assert(w.take(w.len() as int) =~= w);
    assert(trim_start(w.skip(w.len() as int)) =~= Seq::<char>::empty());
    assert(words(w.skip(w.len() as int)) =~= Seq::<Seq<char>>::empty());
    assert(seq![w] + Seq::<Seq<char>>::empty() =~= seq![w]);
}

/// A word, a space and more text split into the word and the words of the
/// rest.
pub proof fn lemma_words_cons(w: Seq<char>, rest: Seq<char>)
    requires
        is_word(w),
    ensures
        words(w + seq![' '] + rest) == seq![w] + words(rest),
{
    let s = w + seq![' '] + rest;
    assert forall|j: int| 0 <= j < w.len() implies !is_whitespace(#[trigger] s[j]) by {}
    lemma_find_whitespace_at(s, w.len() as int);
    assert(s.take(w.len() as int) =~= w);
    let after = s.skip(w.len() as int);
    assert(after =~= seq![' '] + rest);
    assert(after.drop_first() =~= rest);
    assert(words(after) == words(rest));
}

/// The digit characters are digits, of the value they stand for.
pub proof fn lemma_char_of_digit(d: nat)
    requires
        d < 10,
    ensures
        is_digit(char_of_digit(d)),
        digit_value(char_of_digit(d)) == d,
{
}

/// The decimal digits of `n` are digits and read back as `n`.
pub proof fn lemma_nat_decimal(n: nat)
    ensures
        all_digits(nat_decimal(n)),
        digits_value(nat_decimal(n)) == n,
    decreases n,
{
    if n < 10 {
        lemma_char_of_digit(n);
        let s = nat_decimal(n);
        assert(s.drop_last() =~= Seq::<char>::empty());
        assert(digits_value(s) == digits_value(s.drop_last()) * 10 + digit_value(s.last()));
    } else {
        lemma_nat_decimal(n / 10);
        lemma_char_of_digit(n % 10);
        let s = nat_decimal(n);
        let p = nat_decimal(n / 10);
        assert(s.drop_last() =~= p);
        assert forall|i: int| 0 <= i < s.len() implies is_digit(#[trigger] s[i]) by {}
    }
}

/// Ten to the power `k`.
pub open spec fn pow10(k: nat) -> nat
    decreases k,
{
    if k == 0 {
        1
    } else {
        10 * pow10((k - 1) as nat)
    }
}

/// A number under `10^k` has at most `k` decimal digits.
pub proof fn lemma_nat_decimal_len(n: nat, k: nat)
    requires
        k >= 1,
        n < pow10(k),
    ensures
        nat_decimal(n).len() <= k,
    decreases k,
{
    if n >= 10 {
        assert(k >= 2) by {
            if k == 1 {
                assert(pow10(1) == 10) by {
                    reveal_with_fuel(pow10, 2);
                }
            }
        }
        let m = pow10((k - 1) as nat);
        assert(n / 10 < m) by (nonlinear_arith)
            requires
                n < 10 * m,
        ;
        lemma_nat_decimal_len(n / 10, (k - 1) as nat);
    }
}

/// What `to_string` prints for an integer is a word: digits, after a `-`
/// when the number is negative.
pub proof fn lemma_decimal_word(v: int)
    ensures
        is_word(decimal(v)),
        v >= 0 ==> all_digits(decimal(v)),
        v < 0 ==> decimal(v)[0] == '-' && all_digits(decimal(v).drop_first()),
{
    if v >= 0 {
        lemma_nat_decimal(v as nat);
    } else {
        lemma_nat_decimal((-v) as nat);
        let d = decimal(v);
        assert(d.drop_first() =~= nat_decimal((-v) as nat));
        assert forall|k: int| 0 <= k < d.len() implies !is_whitespace(#[trigger] d[k]) by {}
    }
}

/// The characters of `s`, one per element.
pub fn chars_of(s: &str) -> (v: Vec<char>)
    ensures
        v@ == s@,
{
    let n = s.unicode_len();
    let mut v: Vec<char> = Vec::new();
    let mut i: usize = 0;
    while i < n
        invariant
            i <= n,
            n == s@.len(),
            v@ == s@.take(i as int),
        decreases n - i,
    {
        v.push(s.get_char(i));
        i = i + 1;
        assert(v@ =~= s@.take(i as int));
    }
    assert(s@.take(n as int) =~= s@);
    v
}

/// Calls `String::push`, which std documents as appending the character
/// to the end of the string; the contract says exactly that.
#[verifier::external_body]
fn push_char(s: &mut String, c: char)
    ensures
        final(s)@ == old(s)@.push(c),
{
    s.push(c)
}

/// A `String` holding exactly the given characters.
pub(crate) fn string_from_chars(chars: &[char]) -> (s: String)
    ensures
        s@ == chars@,
{
    let mut s = String::new();
    let mut i: usize = 0;
    while i < chars.len()
        invariant
            i <= chars.len(),
            s@ == chars@.take(i as int),
        decreases chars.len() - i,
    {
        push_char(&mut s, chars[i]);
        i = i + 1;
        assert(s@ =~= chars@.take(i as int));
    }
    assert(chars@.take(chars.len() as int) =~= chars@);
    s
}

/// `str::trim` on a character slice.
pub fn trim_chars(s: &[char]) -> (r: &[char])
    ensures
        r@ == trim(s@),
{
    let n = s.len();
    let mut lo: usize = 0;
    while lo < n && char_is_whitespace(s[lo])
        invariant
            lo <= n,
            n == s@.len(),
            forall|j: int| 0 <= j < lo ==> is_whitespace(#[trigger] s@[j]),
        decreases n - lo,
    {
        lo = lo + 1;
    }
    proof {
        lemma_trim_start_skip(s@, lo as int);
    }
    let mut hi: usize = n;
    while hi > lo && char_is_whitespace(s[hi - 1])
        invariant
            lo <= hi <= n,
            n == s@.len(),
            forall|j: int| hi <= j < n ==> is_whitespace(#[trigger] s@[j]),
        decreases hi,
    {
        hi = hi - 1;
    }
    proof {
        let t = s@.skip(lo as int);
        lemma_trim_end_take(t, hi - lo);
        assert(t.take(hi - lo) =~= s@.subrange(lo as int, hi as int));
    }
    slice_subrange(s, lo, hi)
}

/// `str::trim` producing an owned string.
pub fn trim_text(s: &str) -> (r: String)
    ensures
        r@ == trim(s@),
{
    let v = chars_of(s);
    string_from_chars(trim_chars(v.as_slice()))
}

/// Whether two character sequences are equal.
pub fn chars_eq(a: &[char], b: &[char]) -> (r: bool)
    ensures
        r == (a@ == b@),
{
    if a.len() != b.len() {
        return false;
    }
    let mut i: usize = 0;
    while i < a.len()
        invariant
            i <= a.len(),
            a.len() == b.len(),
            forall|j: int| 0 <= j < i ==> a@[j] == b@[j],
        decreases a.len() - i,
    {
        if a[i] != b[i] {
            return false;
        }
        i = i + 1;
    }
    assert(a@ =~= b@);
    true
}

/// Whether a character sequence equals a string.
pub fn chars_eq_str(a: &[char], b: &str) -> (r: bool)
    ensures
        r == (a@ == b@),
{
    let n = b.unicode_len();
    if a.len() != n {
        return false;
    }
    let mut i: usize = 0;
    while i < n
        invariant
            i <= n,
            a.len() == n,
            n == b@.len(),
            forall|j: int| 0 <= j < i ==> a@[j] == b@[j],
        decreases n - i,
    {
        if a[i] != b.get_char(i) {
            return false;
        }
        i = i + 1;
    }
    assert(a@ =~= b@);
    true
}

/// Whether two strings are equal.
pub fn str_eq(a: &str, b: &str) -> (r: bool)
    ensures
        r == (a@ == b@),
{
    let v = chars_of(a);
    chars_eq_str(v.as_slice(), b)
}

/// Whether every character is an ASCII digit and there is at least one.
pub fn chars_all_digits(s: &[char]) -> (r: bool)
    ensures
        r == all_digits(s@),
{
    if s.len() == 0 {
        return false;
    }
    let mut i: usize = 0;
    while i < s.len()
        invariant
            i <= s.len(),
            forall|j: int| 0 <= j < i ==> is_digit(#[trigger] s@[j]),
        decreases s.len() - i,
    {
        if !char_is_digit(s[i]) {
            return false;
        }
        i = i + 1;
    }
    true
}

proof fn lemma_digits_value_step(s: Seq<char>, i: int)
    requires
        0 <= i < s.len(),
    ensures
        digits_value(s.take(i + 1)) == digits_value(s.take(i)) * 10 + digit_value(s[i]),
{
    assert(s.take(i + 1).drop_last() =~= s.take(i));
}

/// The magnitude cap used while reading digits: one more than `u32::MAX`.
const DIGIT_CAP: u64 = 0x1_0000_0000;

/// `min(digits_value(s), 2^32)` for a string of digits.
fn capped_digits_value(s: &[char]) -> (r: u64)
    requires
        all_digits(s@),
    ensures
        r == if digits_value(s@) < DIGIT_CAP {
            digits_value(s@)
        } else {
            DIGIT_CAP as int
        },
{
    let mut acc: u64 = 0;
    let mut i: usize = 0;
    assert(s@.take(0) =~= Seq::<char>::empty());
    while i < s.len()
        invariant
            i <= s.len(),
            all_digits(s@),
            digits_value(s@.take(i as int)) >= 0,
            acc == if digits_value(s@.take(i as int)) < DIGIT_CAP {
                digits_value(s@.take(i as int))
            } else {
                DIGIT_CAP as int
            },
        decreases s.len() - i,
    {
        let c = s[i];
        let d = (c as u32 - '0' as u32) as u64;
        proof {
            lemma_digits_value_step(s@, i as int);
        }
        let ghost prev = digits_value(s@.take(i as int));
        if acc >= DIGIT_CAP {
            assert(digits_value(s@.take(i as int + 1)) >= DIGIT_CAP) by (nonlinear_arith)
                requires
                    prev >= DIGIT_CAP,
                    digits_value(s@.take(i as int + 1)) == prev * 10 + d,
                    d >= 0,
            ;
        } else {
            let next = acc * 10 + d;
            acc = if next < DIGIT_CAP {
                next
            } else {
                DIGIT_CAP
            };
        }
        i = i + 1;
    }
    assert(s@.take(s.len() as int) =~= s@);
    acc
}

/// `s.parse::<u32>().ok()` on a character slice.
pub fn parse_u32(s: &[char]) -> (r: Option<u32>)
    ensures
        r == parse_u32_spec(s@),
{
    let digits = if s.len() > 0 && s[0] == '+' {
        slice_subrange(s, 1, s.len())
    } else {
        s
    };
    assert(s.len() > 0 && s@[0] == '+' ==> digits@ =~= s@.drop_first());
    if !chars_all_digits(digits) {
        return None;
    }
    let v = capped_digits_value(digits);
    if v <= u32::MAX as u64 {
        Some(v as u32)
    } else {
        None
    }
}

/// `s.parse::<u16>().ok()` on a character slice.
pub fn parse_u16(s: &[char]) -> (r: Option<u16>)
    ensures
        r == parse_u16_spec(s@),
{
    match parse_u32(s) {
        Some(v) => if v <= 0xffff {
            Some(v as u16)
        } else {
            None
        },
        None => None,
    }
}

/// `s.parse::<i32>().ok()` on a character slice.
pub fn parse_i32(s: &[char]) -> (r: Option<i32>)
    ensures
        r == parse_i32_spec(s@),
{
    let negative = s.len() > 0 && s[0] == '-';
    let digits = if s.len() > 0 && (s[0] == '+' || s[0] == '-') {
        slice_subrange(s, 1, s.len())
    } else {
        s
    };
    assert(s.len() > 0 && (s@[0] == '+' || s@[0] == '-') ==> digits@ =~= s@.drop_first());
    if !chars_all_digits(digits) {
        return None;
    }
    let v = capped_digits_value(digits);
    if negative {
        if v <= 0x8000_0000 {
            Some((0 - (v as i64)) as i32)
        } else {
            None
        }
    } else {
        if v <= 0x7fff_ffff {
            Some(v as i32)
        } else {
            None
        }
    }
}

/// Decimal digits of a natural number, most significant first.
pub open spec fn nat_decimal(n: nat) -> Seq<char>
    decreases n,
{
    if n < 10 {
        seq![char_of_digit(n)]
    } else {
        nat_decimal(n / 10) + seq![char_of_digit(n % 10)]
    }
}

pub open spec fn char_of_digit(d: nat) -> char {
    if d == 0 {
        '0'
    } else if d == 1 {
        '1'
    } else if d == 2 {
        '2'
    } else if d == 3 {
        '3'
    } else if d == 4 {
        '4'
    } else if d == 5 {
        '5'
    } else if d == 6 {
        '6'
    } else if d == 7 {
        '7'
    } else if d == 8 {
        '8'
    } else {
        '9'
    }
}

/// What `to_string` prints for an integer: `-` before the magnitude of a
/// negative number, no leading zeros.
pub open spec fn decimal(n: int) -> Seq<char> {
    if n < 0 {
        seq!['-'] + nat_decimal((-n) as nat)
    } else {
        nat_decimal(n as nat)
    }
}

fn digit_char(d: u64) -> (c: char)
    requires
        d < 10,
    ensures
        c == char_of_digit(d as nat),
{
    if d == 0 {
        '0'
    } else if d == 1 {
        '1'
    } else if d == 2 {
        '2'
    } else if d == 3 {
        '3'
    } else if d == 4 {
        '4'
    } else if d == 5 {
        '5'
    } else if d == 6 {
        '6'
    } else if d == 7 {
        '7'
    } else if d == 8 {
        '8'
    } else {
        '9'
    }
}

/// Appends the decimal digits of `n` to `out`.
fn push_nat_decimal(out: &mut Vec<char>, n: u64)
    ensures
        final(out)@ == old(out)@ + nat_decimal(n as nat),
    decreases n,
{
    if n < 10 {
        out.push(digit_char(n));
    } else {
        push_nat_decimal(out, n / 10);
        out.push(digit_char(n % 10));
    }
}

/// `n.to_string()` as characters, for any `i64`.
pub fn i64_decimal(n: i64) -> (r: Vec<char>)
    ensures
        r@ == decimal(n as int),
{
    let mut out: Vec<char> = Vec::new();
    if n < 0 {
        out.push('-');
        let magnitude: u64 = ((-(n + 1)) as u64) + 1;
        push_nat_decimal(&mut out, magnitude);
    } else {
        push_nat_decimal(&mut out, n as u64);
    }
    out
}


pub proof fn lemma_find_char_at(t: Seq<char>, c: char, k: int)
    requires
        0 <= k <= t.len(),
        forall|j: int| 0 <= j < k ==> #[trigger] t[j] != c,
        k == t.len() || t[k] == c,
    ensures
        find_char(t, c) == k,
    decreases k,
{
    if k > 0 {
        assert forall|j: int| 0 <= j < k - 1 implies #[trigger] t.drop_first()[j] != c by {}
        lemma_find_char_at(t.drop_first(), c, k - 1);
    }
}

/// Position of the first `c` at or after `from`, or `s.len()`.
pub fn find_char_from(s: &[char], c: char, from: usize) -> (r: usize)
    requires
        from <= s.len(),
    ensures
        from <= r <= s.len(),
        r - from == find_char(s@.skip(from as int), c),
{
    let mut i = from;
    while i < s.len() && s[i] != c
        invariant
            from <= i <= s.len(),
            forall|j: int| from <= j < i ==> #[trigger] s@[j] != c,
        decreases s.len() - i,
    {
        i = i + 1;
    }
    proof {
        let t = s@.skip(from as int);
        assert forall|j: int| 0 <= j < i - from implies #[trigger] t[j] != c by {}
        lemma_find_char_at(t, c, i - from);
    }
    i
}

/// The lines of `s`, as `str::lines` yields them.
pub fn split_lines(s: &[char]) -> (r: Vec<Vec<char>>)
    ensures
        r@.map_values(|w: Vec<char>| w@) == lines(s@),
{
    let n = s.len();
    let mut out: Vec<Vec<char>> = Vec::new();
    let ghost mut acc: Seq<Seq<char>> = seq![];
    let mut pos: usize = 0;
    assert(s@.skip(0) =~= s@);
    while pos < n
        invariant
            pos <= n,
            n == s@.len(),
            out@.len() == acc.len(),
            forall|i: int| 0 <= i < acc.len() ==> #[trigger] out@[i]@ == acc[i],
            lines(s@) == acc + lines(s@.skip(pos as int)),
        decreases n - pos,
    {
        let end = find_char_from(s, '\n', pos);
        let ghost rest = s@.skip(pos as int);
        let line: Vec<char>;
        if end < n {
            let mut stop = end;
            if stop > pos && s[stop - 1] == '\r' {
                stop = stop - 1;
            }
            line = slice_to_vec(slice_subrange(s, pos, stop));
            proof {
                assert(rest.take(end - pos) =~= s@.subrange(pos as int, end as int));
                assert(strip_cr(rest.take(end - pos)) =~= line@);
                assert(rest.skip(end - pos + 1) =~= s@.skip(end + 1));
            }
            pos = end + 1;
        } else {
            line = slice_to_vec(slice_subrange(s, pos, n));
            proof {
                assert(rest =~= line@);
                assert(s@.skip(n as int) =~= Seq::<char>::empty());
                assert(lines(s@.skip(n as int)) =~= Seq::<Seq<char>>::empty());
                assert(seq![line@] + lines(s@.skip(n as int)) =~= seq![line@]);
            }
            pos = n;
        }
        proof {
            assert(acc + lines(rest) =~= acc.push(line@) + lines(s@.skip(pos as int)));
            acc = acc.push(line@);
        }
        out.push(line);
    }
    proof {
        assert(s@.skip(pos as int) =~= Seq::<char>::empty());
        assert(lines(s@.skip(pos as int)) =~= Seq::<Seq<char>>::empty());
        assert(acc + lines(s@.skip(pos as int)) =~= acc);
        assert(out@.map_values(|w: Vec<char>| w@) =~= acc);
    }
    out
}

/// What `str::to_uppercase` returns for a string (Unicode case mapping).
pub uninterp spec fn str_to_uppercase(s: Seq<char>) -> Seq<char>;

/// What `str::to_lowercase` returns for a string (Unicode case mapping).
pub uninterp spec fn str_to_lowercase(s: Seq<char>) -> Seq<char>;

/// `char::to_ascii_lowercase`: an ASCII capital letter becomes small, any
/// other character stays.
pub open spec fn ascii_lower(c: char) -> char {
    if 'A' <= c && c <= 'Z' {
        ((c as int) + 32) as char
    } else {
        c
    }
}

/// `char::to_ascii_uppercase`: an ASCII small letter becomes capital, any
/// other character stays.
pub open spec fn ascii_upper(c: char) -> char {
    if 'a' <= c && c <= 'z' {
        ((c as int) - 32) as char
    } else {
        c
    }
}

/// Every character is ASCII.
pub open spec fn all_ascii(s: Seq<char>) -> bool {
    forall|i: int| 0 <= i < s.len() ==> (#[trigger] s[i] as int) < 0x80
}

/// Calls `str::to_uppercase`. Its result is the Unicode uppercase mapping of
/// the whole string, which depends on nothing but the argument; the
/// contract names that result, and says of an all-ASCII string what the
/// Unicode mapping is there: each ASCII letter in upper case, every other
/// character unchanged. Of other strings it says nothing more.
#[verifier::external_body]
pub(crate) fn to_uppercase(s: &str) -> (r: String)
    ensures
        r@ == str_to_uppercase(s@),
        all_ascii(s@) ==> r@ == s@.map_values(|c: char| ascii_upper(c)),
{
    s.to_uppercase()
}

/// Calls `str::to_lowercase`. Its result is the Unicode lowercase mapping of
/// the whole string, which depends on nothing but the argument; the
/// contract names that result, and says of an all-ASCII string what the
/// Unicode mapping is there: each ASCII letter in lower case, every other
/// character unchanged. Of other strings it says nothing more.
#[verifier::external_body]
pub(crate) fn to_lowercase(s: &str) -> (r: String)
    ensures
        r@ == str_to_lowercase(s@),
        all_ascii(s@) ==> r@ == s@.map_values(|c: char| ascii_lower(c)),
{
    s.to_lowercase()
}

} // verus!
