//! Character-level string utilities with exact contracts: substring search,
//! trimming, splitting, and decimal parsing and formatting.

use vstd::prelude::*;

verus! {

/// Whether `needle` occurs as a contiguous subsequence of `hay`.
pub open spec fn spec_contains(hay: Seq<char>, needle: Seq<char>) -> bool {
    exists|i: int|
        0 <= i <= hay.len() - needle.len() && #[trigger] hay.subrange(i, i + needle.len() as int)
            == needle
}

fn match_at(hay: &str, needle: &str, i: usize) -> (r: bool)
    requires
        i + needle@.len() <= hay@.len(),
    ensures
        r == (hay@.subrange(i as int, i as int + needle@.len() as int) == needle@),
{
    let hn = hay.unicode_len();
    let nn = needle.unicode_len();
    let mut j: usize = 0;
    while j < nn
        invariant
            j <= nn,
            hn == hay@.len(),
            nn == needle@.len(),
            i + nn <= hay@.len(),
            forall|k: int| 0 <= k < j ==> hay@[i + k] == needle@[k],
        decreases nn - j,
    {
        if hay.get_char(i + j) != needle.get_char(j) {
            proof {
                assert(hay@.subrange(i as int, i as int + nn as int)[j as int] == hay@[i + j]);
            }
            return false;
        }
        j = j + 1;
    }
    proof {
        assert(hay@.subrange(i as int, i as int + nn as int) =~= needle@);
    }
    true
}

/// Whether `needle` occurs as a contiguous run of characters inside `hay`.
pub fn contains_str(hay: &str, needle: &str) -> (r: bool)
    ensures
        r == spec_contains(hay@, needle@),
{
    let hn = hay.unicode_len();
    let nn = needle.unicode_len();
    if nn > hn {
        return false;
    }
    if nn == 0 {
        proof {
            assert(hay@.subrange(0, 0 + needle@.len() as int) =~= needle@);
        }
        return true;
    }
    let mut i: usize = 0;
    while i <= hn - nn
        invariant
            0 < nn <= hn,
            hn == hay@.len(),
            nn == needle@.len(),
            i <= hn - nn + 1,
            forall|k: int|
                0 <= k < i ==> #[trigger] hay@.subrange(k, k + nn as int) != needle@,
        decreases hn - i,
    {
        if match_at(hay, needle, i) {
            return true;
        }
        i = i + 1;
    }
    false
}

/// The characters that `str::trim` removes: the Unicode white-space set.
pub open spec fn is_space(c: char) -> bool {
    ||| c == ' '
    ||| c == '\t'
    ||| c == '\n'
    ||| c == '\r'
    ||| c == '\u{b}'
    ||| c == '\u{c}'
    ||| c == '\u{85}'
    ||| c == '\u{a0}'
    ||| c == '\u{1680}'
    ||| (0x2000 <= c as u32 && c as u32 <= 0x200a)
    ||| c == '\u{2028}'
    ||| c == '\u{2029}'
    ||| c == '\u{202f}'
    ||| c == '\u{205f}'
    ||| c == '\u{3000}'
}

fn is_space_char(c: char) -> (r: bool)
    ensures
        r == is_space(c),
{
    c == ' ' || c == '\t' || c == '\n' || c == '\r' || c == '\u{b}' || c == '\u{c}' || c == '\u{85}'
        || c == '\u{a0}' || c == '\u{1680}' || (0x2000 <= c as u32 && c as u32 <= 0x200a) || c
        == '\u{2028}' || c == '\u{2029}' || c == '\u{202f}' || c == '\u{205f}' || c == '\u{3000}'
}

/// First index at or after `i` that does not hold a white-space character.
pub open spec fn trim_start_idx(s: Seq<char>, i: int) -> int
    decreases s.len() - i,
{
    if 0 <= i && i < s.len() && is_space(s[i]) {
        trim_start_idx(s, i + 1)
    } else {
        i
    }
}

/// Last bound at or before `e` such that no trailing white-space remains.
pub open spec fn trim_end_idx(s: Seq<char>, e: int) -> int
    decreases e,
{
    if 0 < e && e <= s.len() && is_space(s[e - 1]) {
        trim_end_idx(s, e - 1)
    } else {
        e
    }
}

/// `str::trim`: the text with leading and trailing white-space removed.
pub open spec fn spec_trim(s: Seq<char>) -> Seq<char> {
    let a = trim_start_idx(s, 0);
    let b = trim_end_idx(s, s.len() as int);
    if a >= b {
        Seq::empty()
    } else {
        s.subrange(a, b)
    }
}

proof fn lemma_trim_end_le(s: Seq<char>, e: int)
    requires
        0 <= e <= s.len(),
    ensures
        0 <= trim_end_idx(s, e) <= e,
    decreases e,
{
    if 0 < e && is_space(s[e - 1]) {
        lemma_trim_end_le(s, e - 1);
    }
}

/// The text with leading and trailing white-space removed.
pub fn trim_str(s: &str) -> (r: String)
    ensures
        r@ == spec_trim(s@),
{
    let n = s.unicode_len();
    let mut a: usize = 0;
    while a < n && is_space_char(s.get_char(a))
        invariant
            n == s@.len(),
            a <= n,
            trim_start_idx(s@, 0) == trim_start_idx(s@, a as int),
        decreases n - a,
    {
        a = a + 1;
    }
    let mut b: usize = n;
    while b > a && is_space_char(s.get_char(b - 1))
        invariant
            n == s@.len(),
            a <= b <= n,
            trim_end_idx(s@, n as int) == trim_end_idx(s@, b as int),
        decreases b,
    {
        b = b - 1;
    }
    proof {
        if b == a {
            lemma_trim_end_le(s@, b as int);
            assert(s@.subrange(a as int, b as int) =~= Seq::<char>::empty());
        }
    }
    s.substring_char(a, b).to_owned()
}

/// First index at or after `i` whose character is not `c`.
pub open spec fn skip_start_idx(s: Seq<char>, c: char, i: int) -> int
    decreases s.len() - i,
{
    if 0 <= i && i < s.len() && s[i] == c {
        skip_start_idx(s, c, i + 1)
    } else {
        i
    }
}

/// Last bound at or before `e` such that no trailing `c` remains.
pub open spec fn skip_end_idx(s: Seq<char>, c: char, e: int) -> int
    decreases e,
{
    if 0 < e && e <= s.len() && s[e - 1] == c {
        skip_end_idx(s, c, e - 1)
    } else {
        e
    }
}

/// `str::trim_start_matches` with a single-character pattern.
pub open spec fn spec_trim_start_matches(s: Seq<char>, c: char) -> Seq<char> {
    s.subrange(skip_start_idx(s, c, 0), s.len() as int)
}

/// `str::trim_end_matches` with a single-character pattern.
pub open spec fn spec_trim_end_matches(s: Seq<char>, c: char) -> Seq<char> {
    s.subrange(0, skip_end_idx(s, c, s.len() as int))
}

/// The text with every leading occurrence of `c` removed.
pub fn trim_start_matches_char(s: &str, c: char) -> (r: String)
    ensures
        r@ == spec_trim_start_matches(s@, c),
{
    let n = s.unicode_len();
    let mut a: usize = 0;
    while a < n && s.get_char(a) == c
        invariant
            n == s@.len(),
            a <= n,
            skip_start_idx(s@, c, 0) == skip_start_idx(s@, c, a as int),
        decreases n - a,
    {
        a = a + 1;
    }
    s.substring_char(a, n).to_owned()
}

/// The text with every trailing occurrence of `c` removed.
pub fn trim_end_matches_char(s: &str, c: char) -> (r: String)
    ensures
        r@ == spec_trim_end_matches(s@, c),
{
    let n = s.unicode_len();
    let mut b: usize = n;
    while b > 0 && s.get_char(b - 1) == c
        invariant
            n == s@.len(),
            b <= n,
            skip_end_idx(s@, c, n as int) == skip_end_idx(s@, c, b as int),
        decreases b,
    {
        b = b - 1;
    }
    s.substring_char(0, b).to_owned()
}

/// Index of the first occurrence of `c` at or after position `i`, if any.
pub open spec fn find_char_from(s: Seq<char>, c: char, i: int) -> Option<int>
    decreases s.len() - i,
{
    if i < 0 {
        None
    } else if i >= s.len() {
        None
    } else if s[i] == c {
        Some(i)
    } else {
        find_char_from(s, c, i + 1)
    }
}

pub proof fn lemma_find_char_bounds(s: Seq<char>, c: char, i: int)
    requires
        0 <= i,
    ensures
        match find_char_from(s, c, i) {
            Some(j) => i <= j < s.len() && s[j] == c,
            None => true,
        },
    decreases s.len() - i,
{
    if i < s.len() && s[i] != c {
        lemma_find_char_bounds(s, c, i + 1);
    }
}

/// Index of the first occurrence of `c` in `s`, if any.
pub fn find_char(s: &str, c: char) -> (r: Option<usize>)
    ensures
        match r {
            Some(i) => find_char_from(s@, c, 0) == Some(i as int),
            None => find_char_from(s@, c, 0) is None,
        },
{
    let n = s.unicode_len();
    let mut i: usize = 0;
    while i < n
        invariant
            n == s@.len(),
            i <= n,
            find_char_from(s@, c, 0) == find_char_from(s@, c, i as int),
        decreases n - i,
    {
        if s.get_char(i) == c {
            return Some(i);
        }
        i = i + 1;
    }
    None
}

/// `str::split_once` with a single-character pattern: the parts before and
/// after the first occurrence of `c`, if `c` occurs at all.
pub open spec fn spec_split_once(s: Seq<char>, c: char) -> Option<(Seq<char>, Seq<char>)> {
    match find_char_from(s, c, 0) {
        Some(i) => Some((s.take(i), s.skip(i + 1))),
        None => None,
    }
}

/// Splits at the first occurrence of `c`, if any.
pub fn split_once_char(s: &str, c: char) -> (r: Option<(String, String)>)
    ensures
        match r {
            Some(p) => spec_split_once(s@, c) == Some((p.0@, p.1@)),
            None => spec_split_once(s@, c) is None,
        },
{
    let n = s.unicode_len();
    match find_char(s, c) {
        Some(i) => {
            proof {
                lemma_find_char_bounds(s@, c, 0);
                assert(s@.take(i as int) =~= s@.subrange(0, i as int));
                assert(s@.skip(i as int + 1) =~= s@.subrange(i as int + 1, n as int));
            }
            Some((s.substring_char(0, i).to_owned(), s.substring_char(i + 1, n).to_owned()))
        },
        None => None,
    }
}

/// `str::split` with a single-character separator: the parts between the
/// occurrences of `c`, empty parts included.
pub open spec fn spec_split(s: Seq<char>, c: char) -> Seq<Seq<char>>
    decreases s.len(),
    via spec_split_decreases
{
    match find_char_from(s, c, 0) {
        None => seq![s],
        Some(i) => seq![s.take(i)] + spec_split(s.skip(i + 1), c),
    }
}

#[via_fn]
proof fn spec_split_decreases(s: Seq<char>, c: char) {
    lemma_find_char_bounds(s, c, 0);
}

/// Splits at every occurrence of `c`; a text without `c` gives one part.
pub fn split_char(s: &str, c: char) -> (r: Vec<String>)
    ensures
        ({
            let parts = spec_split(s@, c);
            &&& r@.len() == parts.len()
            &&& forall|k: int| 0 <= k < parts.len() ==> (#[trigger] r@[k])@ == parts[k]
        }),
{
    let ghost parts = spec_split(s@, c);
    let mut out: Vec<String> = Vec::new();
    let mut rest: &str = s;
    let ghost restv = s@;
    let mut done = false;
    proof {
        assert(parts.skip(0) =~= parts);
    }
    while !done
        invariant
            !done ==> restv == rest@,
            out@.len() <= parts.len(),
            forall|k: int| 0 <= k < out@.len() ==> (#[trigger] out@[k])@ == parts[k],
            !done ==> spec_split(restv, c) == parts.skip(out@.len() as int),
            done ==> out@.len() == parts.len(),
        decreases (if done {
            0int
        } else {
            rest@.len() + 1 as int
        }),
    {
        let ghost n0 = out@.len() as int;
        proof {
            lemma_find_char_bounds(rest@, c, 0);
            assert(parts.skip(n0).len() > 0);
            assert(parts.skip(n0)[0] == parts[n0]);
            assert(parts.skip(n0).skip(1) =~= parts.skip(n0 + 1));
        }
        match find_char(rest, c) {
            Some(i) => {
                let len = rest.unicode_len();
                proof {
                    assert(rest@.take(i as int) =~= rest@.subrange(0, i as int));
                    assert(rest@.skip(i as int + 1) =~= rest@.subrange(i as int + 1, len as int));
                }
                out.push(rest.substring_char(0, i).to_owned());
                let next = rest.substring_char(i + 1, len);
                rest = next;
                proof {
                    restv = rest@;
                }
            },
            None => {
                out.push(rest.to_owned());
                done = true;
                proof {
                    assert(parts.skip(n0) =~= seq![restv]);
                }
            },
        }
    }
    out
}

/// Index of the first occurrence of `needle` at or after position `i`.
pub open spec fn find_sub_from(s: Seq<char>, needle: Seq<char>, i: int) -> Option<int>
    decreases s.len() - i + 1,
{
    if i < 0 {
        None
    } else if i + needle.len() > s.len() {
        None
    } else if s.subrange(i, i + needle.len() as int) == needle {
        Some(i)
    } else {
        find_sub_from(s, needle, i + 1)
    }
}

pub proof fn lemma_find_sub_bounds(s: Seq<char>, needle: Seq<char>, i: int)
    requires
        0 <= i,
    ensures
        match find_sub_from(s, needle, i) {
            Some(j) => i <= j && j + needle.len() <= s.len() && s.subrange(
                j,
                j + needle.len() as int,
            ) == needle,
            None => true,
        },
    decreases s.len() - i + 1,
{
    if i + needle.len() <= s.len() && s.subrange(i, i + needle.len() as int) != needle {
        lemma_find_sub_bounds(s, needle, i + 1);
    }
}

/// Index of the first occurrence of `needle` in `s`, if any.
pub fn find_sub(s: &str, needle: &str) -> (r: Option<usize>)
    ensures
        match r {
            Some(i) => find_sub_from(s@, needle@, 0) == Some(i as int),
            None => find_sub_from(s@, needle@, 0) is None,
        },
{
    let n = s.unicode_len();
    let m = needle.unicode_len();
    if m > n {
        return None;
    }
    if m == 0 {
        proof {
            assert(s@.subrange(0, 0 + needle@.len() as int) =~= needle@);
        }
        return Some(0);
    }
    let mut i: usize = 0;
    while i <= n - m
        invariant
            0 < m <= n,
            n == s@.len(),
            m == needle@.len(),
            i <= n - m + 1,
            find_sub_from(s@, needle@, 0) == find_sub_from(s@, needle@, i as int),
        decreases n - i,
    {
        if match_at(s, needle, i) {
            return Some(i);
        }
        i = i + 1;
    }
    None
}

/// Whether `c` is a decimal digit.
pub open spec fn is_digit(c: char) -> bool {
    48 <= c as u32 && c as u32 <= 57
}

/// The numeric value of a decimal digit character.
pub open spec fn digit_val(c: char) -> int {
    c as u32 - 48
}

/// The digit character for a value between 0 and 9.
pub open spec fn digit_char(d: int) -> char {
    if d == 0 {
        '0'
    } else if d == 1 {
        '1'
    } else if d == 2 {
        '2'
    } else if d == 3 {
        '3'
    } else if d == 4 {
        '4'
    } else if d == 5 {
        '5'
    } else if d == 6 {
        '6'
    } else if d == 7 {
        '7'
    } else if d == 8 {
        '8'
    } else {
        '9'
    }
}

/// The value of a digit string read from the left.
pub open spec fn digits_val(s: Seq<char>) -> int
    decreases s.len(),
{
    if s.len() == 0 {
        0
    } else {
        digits_val(s.take(s.len() - 1)) * 10 + digit_val(s[s.len() - 1])
    }
}

/// Whether every character of `s` is a decimal digit.
pub open spec fn all_digits(s: Seq<char>) -> bool {
    forall|k: int| 0 <= k < s.len() ==> is_digit(#[trigger] s[k])
}

/// The digits of a decimal literal: the text with a leading `+` removed.
pub open spec fn parse_body(s: Seq<char>) -> Seq<char> {
    if s.len() > 0 && s[0] == '+' {
        s.skip(1)
    } else {
        s
    }
}

/// `str::parse::<u32>`: an optional leading `+`, then at least one digit,
/// with a value that fits in 32 bits.
pub open spec fn spec_parse_u32(s: Seq<char>) -> Option<u32> {
    let body = parse_body(s);
    if body.len() > 0 && all_digits(body) && digits_val(body) <= u32::MAX {
        Some(digits_val(body) as u32)
    } else {
        None
    }
}

proof fn lemma_digits_val_nonneg(s: Seq<char>)
    requires
        all_digits(s),
    ensures
        digits_val(s) >= 0,
    decreases s.len(),
{
    if s.len() > 0 {
        assert(all_digits(s.take(s.len() - 1)));
        lemma_digits_val_nonneg(s.take(s.len() - 1));
    }
}

proof fn lemma_digits_val_monotone(s: Seq<char>, i: int)
    requires
        all_digits(s),
        0 <= i <= s.len(),
    ensures
        digits_val(s.take(i)) <= digits_val(s),
    decreases s.len() - i,
{
    if i < s.len() {
        lemma_digits_val_monotone(s, i + 1);
        let t = s.take(i + 1);
        assert(all_digits(t));
        assert(t.take(t.len() - 1) =~= s.take(i));
        assert(t[t.len() - 1] == s[i]);
        assert(is_digit(s[i]));
        lemma_digits_val_nonneg(s.take(i));
        assert(digits_val(t) == digits_val(s.take(i)) * 10 + digit_val(s[i]));
    } else {
        assert(s.take(i) =~= s);
    }
}

/// Parses a decimal number as `str::parse::<u32>` accepts it.
pub fn parse_u32(s: &str) -> (r: Option<u32>)
    ensures
        r == spec_parse_u32(s@),
{
    let n = s.unicode_len();
    let start: usize = if n > 0 && s.get_char(0) == '+' {
        1
    } else {
        0
    };
    let ghost body = parse_body(s@);
    proof {
        assert(body =~= s@.subrange(start as int, n as int));
    }
    if start >= n {
        return None;
    }
    let mut acc: u64 = 0;
    let mut i: usize = start;
    while i < n
        invariant
            n == s@.len(),
            start <= i <= n,
            body == parse_body(s@),
            body == s@.subrange(start as int, n as int),
            all_digits(body.take(i - start)),
            acc == digits_val(body.take(i - start)),
            acc <= u32::MAX,
        decreases n - i,
    {
        let c = s.get_char(i);
        let cv = c as u32;
        if cv < 48 || cv > 57 {
            proof {
                assert(body[i - start] == c);
                assert(!is_digit(body[i - start]));
                assert(!all_digits(body));
            }
            return None;
        }
        let d = (cv - 48) as u64;
        acc = acc * 10 + d;
        proof {
            assert(body.take(i + 1 - start).take(i - start) =~= body.take(i - start));
            assert(body.take(i + 1 - start)[i - start] == c);
            assert(forall|k: int|
                0 <= k < i + 1 - start ==> is_digit(#[trigger] body.take(i + 1 - start)[k]));
            assert(acc == digits_val(body.take(i + 1 - start)));
        }
        i = i + 1;
        if acc > u32::MAX as u64 {
            proof {
                if all_digits(body) {
                    lemma_digits_val_monotone(body, i - start);
                    assert(body.take(body.len() as int) =~= body);
                }
            }
            return None;
        }
    }
    proof {
        assert(body.take(body.len() as int) =~= body);
    }
    Some(acc as u32)
}

/// The decimal digit string of a number, most significant digit first.
pub open spec fn spec_u32_digits(n: int) -> Seq<char>
    decreases n,
{
    if n < 10 {
        seq![digit_char(n)]
    } else {
        spec_u32_digits(n / 10) + seq![digit_char(n % 10)]
    }
}

/// Formats a number in decimal.
pub fn u32_to_string(n: u32) -> (r: String)
    ensures
        r@ == spec_u32_digits(n as int),
{
    let mut rev: Vec<char> = Vec::new();
    let mut m: u32 = n;
    loop
        invariant_except_break
            spec_u32_digits(n as int) =~= spec_u32_digits(m as int) + rev@.reverse(),
        ensures
            spec_u32_digits(n as int) =~= rev@.reverse(),
        decreases m,
    {
        let d = m % 10;
        let c = digit_char_of(d);
        let ghost rev0 = rev@;
        rev.push(c);
        proof {
            assert(rev@.reverse() =~= seq![c] + rev0.reverse());
        }
        m = m / 10;
        if m == 0 {
            proof {
                assert(spec_u32_digits(n as int) =~= rev@.reverse());
            }
            break ;
        }
    }
    let mut out = String::new();
    let k = rev.len();
    let mut i: usize = 0;
    while i < k
        invariant
            k == rev@.len(),
            i <= k,
            out@ == rev@.reverse().take(i as int),
        decreases k - i,
    {
        let c = rev[k - 1 - i];
        push_char(&mut out, c);
        proof {
            assert(rev@.reverse()[i as int] == rev@[k - 1 - i]);
            assert(rev@.reverse().take(i + 1) =~= rev@.reverse().take(i as int).push(c));
        }
        i = i + 1;
    }
    proof {
        assert(rev@.reverse().take(k as int) =~= rev@.reverse());
    }
    out
}

fn digit_char_of(d: u32) -> (c: char)
    requires
        d <= 9,
    ensures
        c == digit_char(d as int),
{
    if d == 0 {
        '0'
    } else if d == 1 {
        '1'
    } else if d == 2 {
        '2'
    } else if d == 3 {
        '3'
    } else if d == 4 {
        '4'
    } else if d == 5 {
        '5'
    } else if d == 6 {
        '6'
    } else if d == 7 {
        '7'
    } else if d == 8 {
        '8'
    } else {
        '9'
    }
}

/// Relies on `String::push`: appends exactly the given character.
#[verifier::external_body]
pub(crate) fn push_char(s: &mut String, c: char)
    ensures
        final(s)@ == old(s)@.push(c),
{
    s.push(c);
}

/// The characters that `str::to_lowercase` yields for the given text; per
/// its documentation the result is a function of the characters alone.
pub uninterp spec fn lower_of(s: Seq<char>) -> Seq<char>;

/// Relies on `str::to_lowercase`: the Unicode lowercase mapping of the text,
/// computed from its characters alone; an empty text stays empty.
#[verifier::external_body]
pub(crate) fn lowercase(s: &str) -> (r: String)
    ensures
        r@ == lower_of(s@),
        s@.len() == 0 ==> r@.len() == 0,
{
    s.to_lowercase()
}

} // verus!
