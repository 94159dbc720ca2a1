//! Character classes, index scanners and small text utilities that the line
//! grammar of the resource-script dialect is built from.

use vstd::prelude::*;

verus! {

/// A word character: what may appear in a resource identifier token.
pub open spec fn is_word_char(c: char) -> bool {
    ('a' <= c && c <= 'z') || ('A' <= c && c <= 'Z') || ('0' <= c && c <= '9') || c == '_'
}

/// A blank character separating tokens within a line.
pub open spec fn is_space_char(c: char) -> bool {
    c == ' ' || c == '\t'
}

/// A decimal digit.
pub open spec fn is_digit_char(c: char) -> bool {
    '0' <= c && c <= '9'
}

/// Whitespace stripped from both ends of every input line.
pub open spec fn is_trim_char(c: char) -> bool {
    c == ' ' || c == '\t' || c == '\r' || c == '\n'
}

/// Executable mirror of [`is_word_char`].
pub fn word_char(c: char) -> (r: bool)
    ensures
        r == is_word_char(c),
{
    ('a' <= c && c <= 'z') || ('A' <= c && c <= 'Z') || ('0' <= c && c <= '9') || c == '_'
}

/// Executable mirror of [`is_space_char`].
pub fn space_char(c: char) -> (r: bool)
    ensures
        r == is_space_char(c),
{
    c == ' ' || c == '\t'
}

/// Executable mirror of [`is_digit_char`].
pub fn digit_char(c: char) -> (r: bool)
    ensures
        r == is_digit_char(c),
{
    '0' <= c && c <= '9'
}

/// Executable mirror of [`is_trim_char`].
pub fn trim_char(c: char) -> (r: bool)
    ensures
        r == is_trim_char(c),
{
    c == ' ' || c == '\t' || c == '\r' || c == '\n'
}

/// First index at or after `i` whose character is not a word character
/// (or the end of the line).
pub open spec fn word_end(s: Seq<char>, i: int) -> int
    decreases s.len() - i,
{
    if i < 0 || i >= s.len() || !is_word_char(s[i]) {
        i
    } else {
        word_end(s, i + 1)
    }
}

/// First index at or after `i` whose character is not a blank
/// (or the end of the line).
pub open spec fn space_end(s: Seq<char>, i: int) -> int
    decreases s.len() - i,
{
    if i < 0 || i >= s.len() || !is_space_char(s[i]) {
        i
    } else {
        space_end(s, i + 1)
    }
}

/// First index at or after `i` whose character is not a digit
/// (or the end of the line).
pub open spec fn digit_end(s: Seq<char>, i: int) -> int
    decreases s.len() - i,
{
    if i < 0 || i >= s.len() || !is_digit_char(s[i]) {
        i
    } else {
        digit_end(s, i + 1)
    }
}

pub proof fn lemma_digit_end_bounds(s: Seq<char>, i: int)
    requires
        0 <= i <= s.len(),
    ensures
        i <= digit_end(s, i) <= s.len(),
        forall|k: int| i <= k < digit_end(s, i) ==> is_digit_char(s[k]),
        digit_end(s, i) < s.len() ==> !is_digit_char(s[digit_end(s, i)]),
    decreases s.len() - i,
{
    if i < s.len() && is_digit_char(s[i]) {
        lemma_digit_end_bounds(s, i + 1);
    }
}

/// Scan forward from `i` over word characters.
pub fn scan_word_end(s: &str, i: usize) -> (r: usize)
    requires
        i <= s@.len(),
    ensures
        r == word_end(s@, i as int),
        i <= r <= s@.len(),
{
    let n = s.unicode_len();
    let mut j = i;
    while j < n && word_char(s.get_char(j))
        invariant
            i <= j <= n,
            n == s@.len(),
            word_end(s@, i as int) == word_end(s@, j as int),
        decreases n - j,
    {
        assert(word_end(s@, j as int) == word_end(s@, j + 1));
        j = j + 1;
    }
    j
}

/// Scan forward from `i` over blanks.
pub fn scan_space_end(s: &str, i: usize) -> (r: usize)
    requires
        i <= s@.len(),
    ensures
        r == space_end(s@, i as int),
        i <= r <= s@.len(),
{
    let n = s.unicode_len();
    let mut j = i;
    while j < n && space_char(s.get_char(j))
        invariant
            i <= j <= n,
            n == s@.len(),
            space_end(s@, i as int) == space_end(s@, j as int),
        decreases n - j,
    {
        assert(space_end(s@, j as int) == space_end(s@, j + 1));
        j = j + 1;
    }
    j
}

/// Scan forward from `i` over digits.
pub fn scan_digit_end(s: &str, i: usize) -> (r: usize)
    requires
        i <= s@.len(),
    ensures
        r == digit_end(s@, i as int),
        i <= r <= s@.len(),
{
    let n = s.unicode_len();
    let mut j = i;
    while j < n && digit_char(s.get_char(j))
        invariant
            i <= j <= n,
            n == s@.len(),
            digit_end(s@, i as int) == digit_end(s@, j as int),
        decreases n - j,
    {
        assert(digit_end(s@, j as int) == digit_end(s@, j + 1));
        j = j + 1;
    }
    j
}

/// The numeric value of a decimal digit character.
pub open spec fn digit_of(c: char) -> nat {
    (c as int - '0' as int) as nat
}

/// The value of a run of decimal digits, most significant first.
pub open spec fn digits_value(s: Seq<char>) -> nat
    decreases s.len(),
{
    if s.len() == 0 {
        0
    } else {
        digits_value(s.drop_last()) * 10 + digit_of(s.last())
    }
}

/// Every prefix of a digit run is worth no more than the whole run.
pub proof fn lemma_digits_value_prefix(s: Seq<char>, j: int)
    requires
        0 <= j <= s.len(),
    ensures
        digits_value(s.take(j)) <= digits_value(s),
    decreases s.len() - j,
{
    if j < s.len() {
        lemma_digits_value_prefix(s, j + 1);
        assert(s.take(j + 1).drop_last() =~= s.take(j));
        assert(digits_value(s.take(j + 1)) == digits_value(s.take(j)) * 10 + digit_of(
            s.take(j + 1).last(),
        ));
    } else {
        assert(s.take(j) =~= s);
    }
}

/// Parse a non-empty, all-digit line fragment as a `u32`.
///
/// Returns `None` when the fragment is empty, holds a non-digit, or names a
/// value too large for `u32`.
pub fn parse_u32(s: &str) -> (r: Option<u32>)
    ensures
        r is Some <==> (s@.len() > 0 && (forall|k: int|
            0 <= k < s@.len() ==> is_digit_char(s@[k])) && digits_value(s@) <= u32::MAX as nat),
        match r {
            Some(v) => v as nat == digits_value(s@),
            None => true,
        },
{
    let n = s.unicode_len();
    if n == 0 {
        return None;
    }
    let mut acc: u64 = 0;
    let mut i: usize = 0;
    while i < n
        invariant
            0 <= i <= n,
            n == s@.len(),
            forall|k: int| 0 <= k < i ==> is_digit_char(s@[k]),
            acc as nat == digits_value(s@.take(i as int)),
            acc <= u32::MAX as u64,
        decreases n - i,
    {
        let c = s.get_char(i);
        if !digit_char(c) {
            return None;
        }
        let d: u64 = (c as u32 - '0' as u32) as u64;
        acc = acc * 10 + d;
        proof {
            assert(s@.take(i + 1).drop_last() =~= s@.take(i as int));
            assert(s@.take(i + 1).last() == s@[i as int]);
        }
        if acc > u32::MAX as u64 {
            proof {
                lemma_digits_value_prefix(s@, i + 1);
            }
            return None;
        }
        i = i + 1;
    }
    assert(s@.take(n as int) =~= s@);
    Some(acc as u32)
}

/// Append the single character `s[i]` to `out`.
pub fn append_char_of(out: &mut String, s: &str, i: usize)
    requires
        i < s@.len(),
        i < usize::MAX,
    ensures
        final(out)@ == old(out)@.push(s@[i as int]),
{
    let piece = s.substring_char(i, i + 1);
    out.append(piece);
    proof {
        assert(s@.subrange(i as int, i + 1) =~= seq![s@[i as int]]);
        assert(old(out)@ + seq![s@[i as int]] =~= old(out)@.push(s@[i as int]));
    }
}

/// Does `kw` occur in `s` starting exactly at index `i`?
pub open spec fn keyword_at(s: Seq<char>, i: int, kw: Seq<char>) -> bool {
    0 <= i && i + kw.len() <= s.len() && s.subrange(i, i + kw.len()) == kw
}

/// Character-by-character check for [`keyword_at`].
pub fn match_keyword_at(s: &str, i: usize, kw: &str) -> (r: bool)
    requires
        i <= s@.len(),
    ensures
        r == keyword_at(s@, i as int, kw@),
{
    let n = s.unicode_len();
    let m = kw.unicode_len();
    if m > n - i {
        return false;
    }
    let mut k: usize = 0;
    while k < m
        invariant
            0 <= k <= m,
            m == kw@.len(),
            n == s@.len(),
            i + m <= n,
            forall|t: int| 0 <= t < k ==> s@[i + t] == kw@[t],
        decreases m - k,
    {
        if s.get_char(i + k) != kw.get_char(k) {
            assert(s@.subrange(i as int, i + m) != kw@) by {
                assert(s@.subrange(i as int, i + m)[k as int] != kw@[k as int]);
            }
            return false;
        }
        k = k + 1;
    }
    assert(s@.subrange(i as int, i + m) =~= kw@);
    true
}

/// Is the whole line exactly the token `kw`?
pub open spec fn line_is(s: Seq<char>, kw: Seq<char>) -> bool {
    s == kw
}

/// Executable mirror of [`line_is`].
pub fn line_is_token(s: &str, kw: &str) -> (r: bool)
    ensures
        r == line_is(s@, kw@),
{
    let n = s.unicode_len();
    let m = kw.unicode_len();
    if n != m {
        return false;
    }
    let r = match_keyword_at(s, 0, kw);
    assert(s@.subrange(0, s@.len() as int) =~= s@);
    r
}

/// The line with leading and trailing whitespace removed.
pub open spec fn spec_trim(s: Seq<char>) -> Seq<char>
    decreases s.len(),
{
    if s.len() == 0 {
        s
    } else if is_trim_char(s[0]) {
        spec_trim(s.skip(1))
    } else if is_trim_char(s[s.len() - 1]) {
        spec_trim(s.take(s.len() - 1))
    } else {
        s
    }
}

/// First index at or after `i` that is not whitespace.
pub open spec fn trim_start(s: Seq<char>, i: int) -> int
    decreases s.len() - i,
{
    if i < 0 || i >= s.len() || !is_trim_char(s[i]) {
        i
    } else {
        trim_start(s, i + 1)
    }
}

/// Last non-whitespace index below `j`, plus one, scanning down from `j`.
pub open spec fn trim_end(s: Seq<char>, j: int) -> int
    decreases j,
{
    if j <= 0 || j > s.len() || !is_trim_char(s[j - 1]) {
        j
    } else {
        trim_end(s, j - 1)
    }
}

proof fn lemma_trim_start_bounds(s: Seq<char>, i: int)
    requires
        0 <= i <= s.len(),
    ensures
        i <= trim_start(s, i) <= s.len(),
        forall|k: int| i <= k < trim_start(s, i) ==> is_trim_char(s[k]),
        trim_start(s, i) < s.len() ==> !is_trim_char(s[trim_start(s, i)]),
    decreases s.len() - i,
{
    if i < s.len() && is_trim_char(s[i]) {
        lemma_trim_start_bounds(s, i + 1);
    }
}

proof fn lemma_trim_end_bounds(s: Seq<char>, j: int)
    requires
        0 <= j <= s.len(),
    ensures
        0 <= trim_end(s, j) <= j,
        forall|k: int| trim_end(s, j) <= k < j ==> is_trim_char(s[k]),
        trim_end(s, j) > 0 ==> !is_trim_char(s[trim_end(s, j) - 1]),
    decreases j,
{
    if j > 0 && is_trim_char(s[j - 1]) {
        lemma_trim_end_bounds(s, j - 1);
    }
}

/// Dropping the first character shifts the leading scan by one.
proof fn lemma_trim_start_step(s: Seq<char>, k: int)
    requires
        s.len() >= 1,
        0 <= k <= s.len() - 1,
    ensures
        trim_start(s.skip(1), k) == trim_start(s, k + 1) - 1,
    decreases s.len() - k,
{
    let t = s.skip(1);
    if k < t.len() && is_trim_char(t[k]) {
        lemma_trim_start_step(s, k + 1);
    }
}

/// Dropping the first character shifts the trailing scan by one, unless the
/// scan on the whole line runs all the way down to the first character.
proof fn lemma_trim_end_step(s: Seq<char>, k: int)
    requires
        s.len() >= 1,
        0 <= k <= s.len() - 1,
    ensures
        trim_end(s, k + 1) >= 1 ==> trim_end(s.skip(1), k) == trim_end(s, k + 1) - 1,
        trim_end(s, k + 1) == 0 ==> trim_end(s.skip(1), k) == 0,
    decreases k,
{
    let t = s.skip(1);
    if k > 0 && is_trim_char(t[k - 1]) {
        assert(t[k - 1] == s[k]);
        assert(trim_end(t, k) == trim_end(t, k - 1));
        assert(trim_end(s, k + 1) == trim_end(s, k));
        lemma_trim_end_step(s, k - 1);
    } else if k > 0 {
        assert(t[k - 1] == s[k]);
        assert(trim_end(t, k) == k);
        assert(trim_end(s, k + 1) == k + 1);
    } else {
        assert(trim_end(t, 0) == 0);
        if is_trim_char(s[0]) {
            assert(trim_end(s, 1) == trim_end(s, 0));
        } else {
            assert(trim_end(s, 1) == 1);
        }
    }
}

/// Dropping a trailing whitespace character does not move the trailing scan
/// started inside the shortened line.
proof fn lemma_trim_end_take(s: Seq<char>, j: int)
    requires
        s.len() >= 1,
        0 <= j <= s.len() - 1,
    ensures
        trim_end(s.take(s.len() - 1), j) == trim_end(s, j),
    decreases j,
{
    let t = s.take(s.len() - 1);
    if j > 0 && is_trim_char(t[j - 1]) {
        lemma_trim_end_take(s, j - 1);
    }
}

/// `spec_trim` is the subrange between the two index scans.
pub proof fn lemma_trim_subrange(s: Seq<char>)
    ensures
        ({
            let a = trim_start(s, 0);
            let b = trim_end(s, s.len() as int);
            if a <= b {
                spec_trim(s) == s.subrange(a, b)
            } else {
                spec_trim(s) == Seq::<char>::empty()
            }
        }),
    decreases s.len(),
{
    lemma_trim_start_bounds(s, 0);
    lemma_trim_end_bounds(s, s.len() as int);
    let a = trim_start(s, 0);
    let b = trim_end(s, s.len() as int);
    if s.len() == 0 {
        assert(s.subrange(0, 0) =~= s);
    } else if is_trim_char(s[0]) {
        let t = s.skip(1);
        lemma_trim_subrange(t);
        lemma_trim_start_bounds(t, 0);
        lemma_trim_end_bounds(t, t.len() as int);
        lemma_trim_start_step(s, 0);
        lemma_trim_end_step(s, s.len() - 1);
        let a1 = trim_start(t, 0);
        let b1 = trim_end(t, t.len() as int);
        assert(trim_start(s, 0) == trim_start(s, 1));
        assert(a1 == a - 1);
        if b >= 1 {
            assert(b1 == b - 1);
            if a <= b {
                assert(t.subrange(a1, b1) =~= s.subrange(a, b));
            }
        } else {
            assert(b1 == 0);
            assert(a > b);
            if a1 <= b1 {
                assert(t.subrange(0, 0) =~= Seq::<char>::empty());
            }
        }
    } else if is_trim_char(s[s.len() - 1]) {
        let t = s.take(s.len() - 1);
        lemma_trim_subrange(t);
        lemma_trim_start_bounds(t, 0);
        lemma_trim_end_bounds(t, t.len() as int);
        let a1 = trim_start(t, 0);
        let b1 = trim_end(t, t.len() as int);
        assert(a == 0 && a1 == 0);
        assert(trim_end(s, s.len() as int) == trim_end(s, s.len() - 1));
        lemma_trim_end_take(s, s.len() - 1);
        assert(b1 == b);
        if a <= b {
            assert(t.subrange(a1, b1) =~= s.subrange(a, b));
        }
    } else {
        assert(a == 0);
        assert(b == s.len());
        assert(s.subrange(0, s.len() as int) =~= s);
    }
}

/// Strip leading and trailing whitespace from a line.
pub fn trim_line(s: &str) -> (r: String)
    ensures
        r@ == spec_trim(s@),
{
    let n = s.unicode_len();
    let mut a: usize = 0;
    while a < n && trim_char(s.get_char(a))
        invariant
            0 <= a <= n,
            n == s@.len(),
            trim_start(s@, 0) == trim_start(s@, a as int),
        decreases n - a,
    {
        assert(trim_start(s@, a as int) == trim_start(s@, a + 1));
        a = a + 1;
    }
    assert(trim_start(s@, 0) == a as int);
    let mut b: usize = n;
    while b > a && trim_char(s.get_char(b - 1))
        invariant
            a <= b <= n,
            n == s@.len(),
            a < n ==> !is_trim_char(s@[a as int]),
            a < n ==> b > a,
            trim_end(s@, n as int) == trim_end(s@, b as int),
        decreases b,
    {
        assert(trim_end(s@, b as int) == trim_end(s@, b - 1));
        b = b - 1;
    }
    let piece = s.substring_char(a, b);
    let r = piece.to_owned();
    proof {
        lemma_trim_subrange(s@);
        lemma_trim_start_bounds(s@, 0);
        lemma_trim_end_bounds(s@, n as int);
        if b > a {
            assert(trim_end(s@, b as int) == b);
            assert(r@ =~= spec_trim(s@));
        } else {
            assert(a == n);
            assert(s@.subrange(n as int, n as int) =~= Seq::<char>::empty());
            assert(r@ =~= spec_trim(s@));
        }
    }
    r
}

} // verus!
