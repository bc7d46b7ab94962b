//! Character-level scanning utilities shared by the transcript, player-output
//! and theme parsers: digit runs, first-occurrence search, splitting and
//! trimming, each with a mathematical description over `Seq<char>`.
use vstd::arithmetic::overflow::CheckedU64;
use vstd::prelude::*;

verus! {

// ---------------------------------------------------------------------------
// Character classes and digit runs
// ---------------------------------------------------------------------------

/// An ASCII decimal digit.
pub open spec fn is_digit_char(c: char) -> bool {
    48 <= c as u32 && c as u32 <= 57
}

/// Numeric value of one digit character.
pub open spec fn digit_value(c: char) -> nat
    recommends
        is_digit_char(c),
{
    (c as u32 - 48) as nat
}

/// Every character of `s` is a decimal digit.
pub open spec fn all_digits(s: Seq<char>) -> bool {
    forall|i: int| 0 <= i < s.len() ==> is_digit_char(#[trigger] s[i])
}

/// The unbounded numeric value of a digit run, most significant digit first.
pub open spec fn digits_value(s: Seq<char>) -> nat
    recommends
        all_digits(s),
    decreases s.len(),
{
    if s.len() == 0 {
        0
    } else {
        digits_value(s.drop_last()) * 10 + digit_value(s.last())
    }
}

/// What parsing a whole string as an unsigned 64-bit number yields: the
/// value of the digit run, or nothing when the string is empty, holds a
/// non-digit, or names a number beyond `u64::MAX`.
pub open spec fn spec_parse_u64(s: Seq<char>) -> Option<u64> {
    if s.len() > 0 && all_digits(s) && digits_value(s) <= u64::MAX {
        Some(digits_value(s) as u64)
    } else {
        None
    }
}

/// Parses a whole string as a decimal `u64`, exactly as `spec_parse_u64`
/// describes.
pub fn parse_u64_str(s: &str) -> (r: Option<u64>)
    ensures
        r == spec_parse_u64(s@),
{
    let n = s.unicode_len();
    if n == 0 {
        return None;
    }
    let mut acc = CheckedU64::new(0);
    let mut i: usize = 0;
    while i < n
        invariant
            0 <= i <= n,
            n == s@.len(),
            acc@ == digits_value(s@.subrange(0, i as int)),
            forall|j: int| 0 <= j < i ==> is_digit_char(#[trigger] s@[j]),
        decreases n - i,
    {
        let c = s.get_char(i);
        let u = c as u32;
        if u < 48 || u > 57 {
            return None;
        }
        let d = (u - 48) as u64;
        proof {
            assert(s@.subrange(0, i + 1).drop_last() =~= s@.subrange(0, i as int));
            assert(s@.subrange(0, i + 1).last() == s@[i as int]);
        }
        acc = acc.mul_value(10).add_value(d);
        i = i + 1;
    }
    proof {
        assert(s@.subrange(0, n as int) =~= s@);
    }
    match acc.to_option() {
        Some(v) => Some(v),
        None => None,
    }
}

// ---------------------------------------------------------------------------
// First occurrence of a character
// ---------------------------------------------------------------------------

/// Index of the first occurrence of `c` in `s`, or `s.len()` when `c` does
/// not occur.
pub open spec fn find_char(s: Seq<char>, c: char) -> nat
    decreases s.len(),
{
    if s.len() == 0 {
        0
    } else if s[0] == c {
        0
    } else {
        1 + find_char(s.drop_first(), c)
    }
}

/// `find_char` points at the first occurrence: everything before it differs
/// from `c`, and it lands on `c` unless `c` is absent.
pub proof fn lemma_find_char(s: Seq<char>, c: char)
    ensures
        find_char(s, c) <= s.len(),
        find_char(s, c) < s.len() ==> s[find_char(s, c) as int] == c,
        forall|j: int| 0 <= j < find_char(s, c) ==> s[j] != c,
    decreases s.len(),
{
    if s.len() == 0 {
    } else if s[0] == c {
    } else {
        lemma_find_char(s.drop_first(), c);
        assert forall|j: int| 0 <= j < find_char(s, c) implies s[j] != c by {
            if j > 0 {
                assert(s[j] == s.drop_first()[j - 1]);
            }
        }
    }
}

/// Conversely, an index with those properties is what `find_char` returns.
pub proof fn lemma_find_char_is(s: Seq<char>, c: char, i: int)
    requires
        0 <= i <= s.len(),
        forall|j: int| 0 <= j < i ==> s[j] != c,
        i < s.len() ==> s[i] == c,
    ensures
        find_char(s, c) == i,
    decreases s.len(),
{
    if s.len() == 0 {
    } else if s[0] == c {
        if i > 0 {
            assert(s[0] != c);
        }
    } else {
        if i == 0 {
            assert(s[0] == c);
        }
        assert forall|j: int| 0 <= j < i - 1 implies s.drop_first()[j] != c by {
            assert(s.drop_first()[j] == s[j + 1]);
        }
        assert(i - 1 < s.drop_first().len() ==> s.drop_first()[i - 1] == c);
        lemma_find_char_is(s.drop_first(), c, i - 1);
    }
}

/// Index of the first occurrence of `c` in `s` at or after `from`, or the
/// character count when there is none.
pub fn find_char_from(s: &str, from: usize, c: char) -> (r: usize)
    requires
        from <= s@.len(),
    ensures
        from <= r <= s@.len(),
        r - from == find_char(s@.subrange(from as int, s@.len() as int), c),
        r < s@.len() ==> s@[r as int] == c,
        forall|j: int| from <= j < r ==> s@[j] != c,
{
    let n = s.unicode_len();
    let mut i = from;
    loop
        invariant
            from <= i <= n,
            n == s@.len(),
            forall|j: int| from <= j < i ==> s@[j] != c,
        ensures
            from <= i <= n,
            forall|j: int| from <= j < i ==> s@[j] != c,
            i < n ==> s@[i as int] == c,
        decreases n - i,
    {
        if i >= n {
            break;
        }
        if s.get_char(i) == c {
            break;
        }
        i = i + 1;
    }
    proof {
        let suffix = s@.subrange(from as int, s@.len() as int);
        assert forall|j: int| 0 <= j < i - from implies suffix[j] != c by {
            assert(suffix[j] == s@[j + from]);
        }
        assert((i - from) < suffix.len() ==> suffix[i - from] == c);
        lemma_find_char_is(suffix, c, i - from);
    }
    i
}

// ---------------------------------------------------------------------------
// Splitting on a separator character
// ---------------------------------------------------------------------------

/// The segments of `s` between occurrences of `sep`: always one more segment
/// than there are separators, so an empty `s` yields one empty segment.
pub open spec fn spec_split_char(s: Seq<char>, sep: char) -> Seq<Seq<char>>
    decreases s.len(),
{
    let i = find_char(s, sep);
    if i >= s.len() {
        seq![s]
    } else {
        seq![s.subrange(0, i as int)] + spec_split_char(
            s.subrange(i as int + 1, s.len() as int),
            sep,
        )
    }
}

/// Splits `s` at every occurrence of `sep`, exactly as `spec_split_char`
/// describes.
pub fn split_by_char(s: &str, sep: char) -> (parts: Vec<String>)
    ensures
        parts.deep_view() == spec_split_char(s@, sep),
{
    let n = s.unicode_len();
    let mut parts: Vec<String> = Vec::new();
    let mut pos: usize = 0;
    let mut done: bool = false;
    proof {
        assert(s@.subrange(0, n as int) =~= s@);
        assert(parts.deep_view() + spec_split_char(s@, sep) =~= spec_split_char(s@, sep));
    }
    while !done
        invariant
            0 <= pos <= n,
            n == s@.len(),
            !done ==> parts.deep_view() + spec_split_char(
                s@.subrange(pos as int, n as int),
                sep,
            ) == spec_split_char(s@, sep),
            done ==> parts.deep_view() == spec_split_char(s@, sep),
        decreases (if done { 0int } else { n - pos + 1 }),
    {
        let ghost suffix = s@.subrange(pos as int, n as int);
        let i = find_char_from(s, pos, sep);
        proof {
            assert forall|j: int| 0 <= j < i - pos implies suffix[j] != sep by {
                assert(suffix[j] == s@[j + pos]);
            }
            assert((i - pos) < suffix.len() ==> suffix[i - pos] == s@[i as int]);
            lemma_find_char_is(suffix, sep, i - pos);
        }
        if i < n {
            let part = s.substring_char(pos, i).to_owned();
            proof {
                let rest = s@.subrange(i + 1, n as int);
                assert(suffix.subrange(0, i - pos) =~= s@.subrange(pos as int, i as int));
                assert(suffix.subrange(i - pos + 1, suffix.len() as int) =~= rest);
                assert(spec_split_char(suffix, sep) == seq![s@.subrange(pos as int, i as int)]
                    + spec_split_char(rest, sep));
            }
            parts.push(part);
            proof {
                assert(parts.deep_view() =~= parts.deep_view().drop_last().push(
                    s@.subrange(pos as int, i as int),
                ));
                assert(parts.deep_view() + spec_split_char(
                    s@.subrange(i + 1, n as int),
                    sep,
                ) =~= spec_split_char(s@, sep));
            }
            pos = i + 1;
        } else {
            let part = s.substring_char(pos, n).to_owned();
            proof {
                assert(spec_split_char(suffix, sep) == seq![suffix]);
            }
            parts.push(part);
            proof {
                assert(parts.deep_view() =~= parts.deep_view().drop_last().push(suffix));
                assert(parts.deep_view() =~= spec_split_char(s@, sep));
            }
            done = true;
        }
    }
    parts
}

// ---------------------------------------------------------------------------
// First occurrence of a substring, and splitting on it
// ---------------------------------------------------------------------------

/// The pattern `pat` occurs in `s` starting at index `i`.
pub open spec fn matches_at(s: Seq<char>, pat: Seq<char>, i: int) -> bool {
    &&& 0 <= i
    &&& i + pat.len() <= s.len()
    &&& s.subrange(i, i + pat.len() as int) == pat
}

/// Index of the first occurrence of `pat` in `s`, or `s.len()` when a
/// non-empty `pat` does not occur.
pub open spec fn find_sub(s: Seq<char>, pat: Seq<char>) -> nat
    recommends
        pat.len() > 0,
    decreases s.len(),
{
    if pat.len() == 0 || s.len() < pat.len() {
        s.len()
    } else if s.subrange(0, pat.len() as int) == pat {
        0
    } else {
        1 + find_sub(s.drop_first(), pat)
    }
}

/// `find_sub` points at the first occurrence of `pat`, or at `s.len()` when
/// there is none.
pub proof fn lemma_find_sub(s: Seq<char>, pat: Seq<char>)
    requires
        pat.len() > 0,
    ensures
        find_sub(s, pat) <= s.len(),
        find_sub(s, pat) < s.len() ==> matches_at(s, pat, find_sub(s, pat) as int),
        forall|j: int| 0 <= j < find_sub(s, pat) ==> !matches_at(s, pat, j),
    decreases s.len(),
{
    if s.len() < pat.len() {
        assert forall|j: int| 0 <= j < find_sub(s, pat) implies !matches_at(s, pat, j) by {}
    } else if s.subrange(0, pat.len() as int) == pat {
    } else {
        lemma_find_sub(s.drop_first(), pat);
        if find_sub(s, pat) < s.len() {
            let k = find_sub(s.drop_first(), pat) as int;
            assert(s.drop_first().subrange(k, k + pat.len()) =~= s.subrange(
                k + 1,
                k + 1 + pat.len(),
            ));
        }
        assert forall|j: int| 0 <= j < find_sub(s, pat) implies !matches_at(s, pat, j) by {
            if j == 0 {
                if matches_at(s, pat, 0) {
                    assert(s.subrange(0, pat.len() as int) == pat);
                }
            } else {
                if matches_at(s, pat, j) {
                    assert(s.drop_first().subrange(j - 1, j - 1 + pat.len()) =~= s.subrange(
                        j,
                        j + pat.len(),
                    ));
                    assert(matches_at(s.drop_first(), pat, j - 1));
                }
            }
        }
    }
}

/// Conversely, an index with those properties is what `find_sub` returns.
pub proof fn lemma_find_sub_is(s: Seq<char>, pat: Seq<char>, i: int)
    requires
        pat.len() > 0,
        0 <= i <= s.len(),
        forall|j: int| 0 <= j < i ==> !matches_at(s, pat, j),
        i < s.len() ==> matches_at(s, pat, i),
    ensures
        find_sub(s, pat) == i,
{
    lemma_find_sub(s, pat);
    let f = find_sub(s, pat) as int;
    if f < i {
        assert(!matches_at(s, pat, f));
    } else if i < f {
        assert(!matches_at(s, pat, i));
    }
}

/// Whether `pat` occurs in `s` starting at index `at`, exactly as
/// `matches_at` describes.
pub fn starts_with_at(s: &str, pat: &str, at: usize) -> (r: bool)
    requires
        at <= s@.len(),
    ensures
        r == matches_at(s@, pat@, at as int),
{
    let n = s.unicode_len();
    let m = pat.unicode_len();
    if m > n - at {
        return false;
    }
    let mut k: usize = 0;
    while k < m
        invariant
            0 <= k <= m,
            n == s@.len(),
            m == pat@.len(),
            at + m <= n,
            forall|j: int| 0 <= j < k ==> s@[at + j] == pat@[j],
        decreases m - k,
    {
        if s.get_char(at + k) != pat.get_char(k) {
            proof {
                if matches_at(s@, pat@, at as int) {
                    assert(s@.subrange(at as int, at + m)[k as int] == pat@[k as int]);
                }
            }
            return false;
        }
        k = k + 1;
    }
    proof {
        assert(s@.subrange(at as int, at + m) =~= pat@);
    }
    true
}

/// The segments of `s` between non-overlapping occurrences of `pat`, found
/// left to right; one segment more than there are occurrences. A `pat` that
/// is empty or does not occur leaves `s` whole.
pub open spec fn spec_split_sub(s: Seq<char>, pat: Seq<char>) -> Seq<Seq<char>>
    recommends
        pat.len() > 0,
    decreases s.len(),
{
    let i = find_sub(s, pat);
    if pat.len() == 0 || i + pat.len() > s.len() {
        seq![s]
    } else {
        seq![s.subrange(0, i as int)] + spec_split_sub(
            s.subrange(i + pat.len() as int, s.len() as int),
            pat,
        )
    }
}

/// Splits `s` at every non-overlapping occurrence of `pat`, exactly as
/// `spec_split_sub` describes.
pub fn split_by_str(s: &str, pat: &str) -> (parts: Vec<String>)
    requires
        pat@.len() > 0,
    ensures
        parts.deep_view() == spec_split_sub(s@, pat@),
{
    let n = s.unicode_len();
    let m = pat.unicode_len();
    let mut parts: Vec<String> = Vec::new();
    let mut pos: usize = 0;
    let mut done: bool = false;
    proof {
        assert(s@.subrange(0, n as int) =~= s@);
        assert(parts.deep_view() + spec_split_sub(s@, pat@) =~= spec_split_sub(s@, pat@));
    }
    while !done
        invariant
            0 <= pos <= n,
            n == s@.len(),
            m == pat@.len(),
            m > 0,
            !done ==> parts.deep_view() + spec_split_sub(
                s@.subrange(pos as int, n as int),
                pat@,
            ) == spec_split_sub(s@, pat@),
            done ==> parts.deep_view() == spec_split_sub(s@, pat@),
        decreases (if done { 0int } else { n - pos + 1 }),
    {
        let ghost suffix = s@.subrange(pos as int, n as int);
        // scan for the next occurrence of pat at or after pos
        let mut i = pos;
        let mut found: bool = false;
        while !found && m <= n - i
            invariant
                pos <= i <= n,
                n == s@.len(),
                m == pat@.len(),
                m > 0,
                forall|j: int| pos <= j < i ==> !matches_at(s@, pat@, j),
                found ==> matches_at(s@, pat@, i as int),
                found ==> i + m <= n,
            decreases (if found { 0int } else { n - i + 1 }),
        {
            if starts_with_at(s, pat, i) {
                found = true;
            } else {
                i = i + 1;
            }
        }
        proof {
            assert forall|j: int| 0 <= j < i - pos implies !matches_at(suffix, pat@, j) by {
                if matches_at(suffix, pat@, j) {
                    assert(suffix.subrange(j, j + m) =~= s@.subrange(pos + j, pos + j + m));
                    assert(matches_at(s@, pat@, pos + j));
                }
            }
            if found {
                assert(s@.subrange(i as int, i + m) =~= suffix.subrange(i - pos, i - pos + m));
                assert(matches_at(suffix, pat@, i - pos));
                lemma_find_sub_is(suffix, pat@, i - pos);
            } else {
                assert forall|j: int| 0 <= j < suffix.len() implies !matches_at(suffix, pat@, j) by {
                    if matches_at(suffix, pat@, j) {
                        assert(suffix.subrange(j, j + m) =~= s@.subrange(pos + j, pos + j + m));
                        assert(matches_at(s@, pat@, pos + j));
                    }
                }
                lemma_find_sub_is(suffix, pat@, suffix.len() as int);
            }
        }
        if found {
            let part = s.substring_char(pos, i).to_owned();
            proof {
                let rest = s@.subrange(i + m, n as int);
                assert(suffix.subrange(0, i - pos) =~= s@.subrange(pos as int, i as int));
                assert(suffix.subrange(i - pos + m, suffix.len() as int) =~= rest);
                assert(spec_split_sub(suffix, pat@) == seq![s@.subrange(pos as int, i as int)]
                    + spec_split_sub(rest, pat@));
            }
            parts.push(part);
            proof {
                assert(parts.deep_view() =~= parts.deep_view().drop_last().push(
                    s@.subrange(pos as int, i as int),
                ));
                assert(parts.deep_view() + spec_split_sub(
                    s@.subrange(i + m, n as int),
                    pat@,
                ) =~= spec_split_sub(s@, pat@));
            }
            pos = i + m;
        } else {
            let part = s.substring_char(pos, n).to_owned();
            proof {
                assert(spec_split_sub(suffix, pat@) == seq![suffix]);
            }
            parts.push(part);
            proof {
                assert(parts.deep_view() =~= parts.deep_view().drop_last().push(suffix));
                assert(parts.deep_view() =~= spec_split_sub(s@, pat@));
            }
            done = true;
        }
    }
    parts
}

/// Whether two strings hold the same characters.
pub fn str_eq(a: &str, b: &str) -> (r: bool)
    ensures
        r == (a@ == b@),
{
    let n = a.unicode_len();
    if n != b.unicode_len() {
        proof {
            assert(a@ != b@);
        }
        return false;
    }
    let mut i: usize = 0;
    while i < n
        invariant
            0 <= i <= n,
            n == a@.len(),
            n == b@.len(),
            forall|j: int| 0 <= j < i ==> a@[j] == b@[j],
        decreases n - i,
    {
        if a.get_char(i) != b.get_char(i) {
            proof {
                assert(a@[i as int] != b@[i as int]);
            }
            return false;
        }
        i = i + 1;
    }
    proof {
        assert(a@ =~= b@);
    }
    true
}

/// `s` with every non-overlapping occurrence of `pat`, found left to right,
/// replaced by `repl`; `s` itself when `pat` is empty or absent.
pub open spec fn spec_replace_sub(s: Seq<char>, pat: Seq<char>, repl: Seq<char>) -> Seq<char>
    recommends
        pat.len() > 0,
    decreases s.len(),
{
    let i = find_sub(s, pat);
    if pat.len() == 0 || i + pat.len() > s.len() {
        s
    } else {
        s.subrange(0, i as int) + repl + spec_replace_sub(
            s.subrange(i + pat.len() as int, s.len() as int),
            pat,
            repl,
        )
    }
}

/// Relies on std's String::push_str: appends the characters of `t` to `s`.
#[verifier::external_body]
fn push_str(s: &mut String, t: &str)
    ensures
        final(s)@ == old(s)@ + t@,
{
    s.push_str(t)
}

/// Replaces every non-overlapping occurrence of `pat` in `s` by `repl`,
/// exactly as `spec_replace_sub` describes.
pub fn replace_str(s: &str, pat: &str, repl: &str) -> (r: String)
    requires
        pat@.len() > 0,
    ensures
        r@ == spec_replace_sub(s@, pat@, repl@),
{
    let n = s.unicode_len();
    let m = pat.unicode_len();
    let mut out = String::new();
    let mut pos: usize = 0;
    let mut done: bool = false;
    proof {
        assert(s@.subrange(0, n as int) =~= s@);
        assert(out@ + spec_replace_sub(s@, pat@, repl@) =~= spec_replace_sub(s@, pat@, repl@));
    }
    while !done
        invariant
            0 <= pos <= n,
            n == s@.len(),
            m == pat@.len(),
            m > 0,
            !done ==> out@ + spec_replace_sub(s@.subrange(pos as int, n as int), pat@, repl@)
                == spec_replace_sub(s@, pat@, repl@),
            done ==> out@ == spec_replace_sub(s@, pat@, repl@),
        decreases (if done { 0int } else { n - pos + 1 }),
    {
        let ghost suffix = s@.subrange(pos as int, n as int);
        // scan for the next occurrence of pat at or after pos
        let mut i = pos;
        let mut found: bool = false;
        while !found && m <= n - i
            invariant
                pos <= i <= n,
                n == s@.len(),
                m == pat@.len(),
                m > 0,
                forall|j: int| pos <= j < i ==> !matches_at(s@, pat@, j),
                found ==> matches_at(s@, pat@, i as int),
                found ==> i + m <= n,
            decreases (if found { 0int } else { n - i + 1 }),
        {
            if starts_with_at(s, pat, i) {
                found = true;
            } else {
                i = i + 1;
            }
        }
        proof {
            assert forall|j: int| 0 <= j < i - pos implies !matches_at(suffix, pat@, j) by {
                if matches_at(suffix, pat@, j) {
                    assert(suffix.subrange(j, j + m) =~= s@.subrange(pos + j, pos + j + m));
                    assert(matches_at(s@, pat@, pos + j));
                }
            }
            if found {
                assert(s@.subrange(i as int, i + m) =~= suffix.subrange(i - pos, i - pos + m));
                assert(matches_at(suffix, pat@, i - pos));
                lemma_find_sub_is(suffix, pat@, i - pos);
            } else {
                assert forall|j: int| 0 <= j < suffix.len() implies !matches_at(suffix, pat@, j) by {
                    if matches_at(suffix, pat@, j) {
                        assert(suffix.subrange(j, j + m) =~= s@.subrange(pos + j, pos + j + m));
                        assert(matches_at(s@, pat@, pos + j));
                    }
                }
                lemma_find_sub_is(suffix, pat@, suffix.len() as int);
            }
        }
        if found {
            push_str(&mut out, s.substring_char(pos, i));
            push_str(&mut out, repl);
            proof {
                let rest = s@.subrange(i + m, n as int);
                assert(suffix.subrange(0, i - pos) =~= s@.subrange(pos as int, i as int));
                assert(suffix.subrange(i - pos + m, suffix.len() as int) =~= rest);
                assert(spec_replace_sub(suffix, pat@, repl@) == s@.subrange(pos as int, i as int)
                    + repl@ + spec_replace_sub(rest, pat@, repl@));
                assert(out@ + spec_replace_sub(rest, pat@, repl@) =~= spec_replace_sub(
                    s@,
                    pat@,
                    repl@,
                ));
            }
            pos = i + m;
        } else {
            push_str(&mut out, s.substring_char(pos, n));
            proof {
                assert(spec_replace_sub(suffix, pat@, repl@) == suffix);
                assert(out@ =~= spec_replace_sub(s@, pat@, repl@));
            }
            done = true;
        }
    }
    out
}

// ---------------------------------------------------------------------------
// Trimming surrounding whitespace
// ---------------------------------------------------------------------------

/// ASCII whitespace: space, tab, line feed, vertical tab, form feed,
/// carriage return.
pub open spec fn is_space_char(c: char) -> bool {
    c == ' ' || c == '\t' || c == '\n' || c == '\u{000B}' || c == '\u{000C}' || c == '\r'
}

/// Index of the first character of `s` that is not whitespace, or `s.len()`
/// when all of `s` is whitespace.
pub open spec fn first_non_space(s: Seq<char>) -> nat
    decreases s.len(),
{
    if s.len() == 0 {
        0
    } else if is_space_char(s[0]) {
        1 + first_non_space(s.drop_first())
    } else {
        0
    }
}

/// One past the index of the last character of `s` that is not whitespace,
/// or 0 when all of `s` is whitespace.
pub open spec fn end_non_space(s: Seq<char>) -> nat
    decreases s.len(),
{
    if s.len() == 0 {
        0
    } else if is_space_char(s.last()) {
        end_non_space(s.drop_last())
    } else {
        s.len()
    }
}

/// `s` without its leading and trailing whitespace.
pub open spec fn spec_trim(s: Seq<char>) -> Seq<char> {
    if first_non_space(s) < end_non_space(s) {
        s.subrange(first_non_space(s) as int, end_non_space(s) as int)
    } else {
        Seq::empty()
    }
}

/// Conversely, an index with those properties is `first_non_space`.
pub proof fn lemma_first_non_space_is(s: Seq<char>, i: int)
    requires
        0 <= i <= s.len(),
        forall|j: int| 0 <= j < i ==> is_space_char(#[trigger] s[j]),
        i < s.len() ==> !is_space_char(s[i]),
    ensures
        first_non_space(s) == i,
    decreases s.len(),
{
    if s.len() == 0 {
    } else if is_space_char(s[0]) {
        if i == 0 {
            assert(!is_space_char(s[0]));
        }
        assert forall|j: int| 0 <= j < i - 1 implies is_space_char(#[trigger] s.drop_first()[j]) by {
            assert(s.drop_first()[j] == s[j + 1]);
        }
        assert(i - 1 < s.drop_first().len() ==> !is_space_char(s.drop_first()[i - 1]));
        lemma_first_non_space_is(s.drop_first(), i - 1);
    } else {
        if i > 0 {
            assert(is_space_char(s[0]));
        }
    }
}

/// Conversely, an index with those properties is `end_non_space`.
pub proof fn lemma_end_non_space_is(s: Seq<char>, i: int)
    requires
        0 <= i <= s.len(),
        forall|j: int| i <= j < s.len() ==> is_space_char(#[trigger] s[j]),
        i > 0 ==> !is_space_char(s[i - 1]),
    ensures
        end_non_space(s) == i,
    decreases s.len(),
{
    if s.len() == 0 {
    } else if is_space_char(s.last()) {
        if i == s.len() {
            assert(is_space_char(s[s.len() - 1]));
        }
        assert forall|j: int| i <= j < s.drop_last().len() implies is_space_char(
            #[trigger] s.drop_last()[j],
        ) by {
            assert(s.drop_last()[j] == s[j]);
        }
        if i > 0 {
            assert(s.drop_last()[i - 1] == s[i - 1]);
        }
        lemma_end_non_space_is(s.drop_last(), i);
    } else {
        if i < s.len() {
            assert(is_space_char(s[s.len() - 1]));
        }
    }
}

/// Whether `c` is ASCII whitespace, exactly as `is_space_char` describes.
pub fn is_space(c: char) -> (r: bool)
    ensures
        r == is_space_char(c),
{
    c == ' ' || c == '\t' || c == '\n' || c == '\u{000B}' || c == '\u{000C}' || c == '\r'
}

/// Copies `s` without its leading and trailing ASCII whitespace, exactly as
/// `spec_trim` describes.
pub fn trim_str(s: &str) -> (r: String)
    ensures
        r@ == spec_trim(s@),
{
    let n = s.unicode_len();
    let mut a: usize = 0;
    loop
        invariant
            0 <= a <= n,
            n == s@.len(),
            forall|j: int| 0 <= j < a ==> is_space_char(#[trigger] s@[j]),
        ensures
            0 <= a <= n,
            forall|j: int| 0 <= j < a ==> is_space_char(#[trigger] s@[j]),
            a < n ==> !is_space_char(s@[a as int]),
        decreases n - a,
    {
        if a >= n {
            break;
        }
        if !is_space(s.get_char(a)) {
            break;
        }
        a = a + 1;
    }
    proof {
        lemma_first_non_space_is(s@, a as int);
    }
    let mut b: usize = n;
    loop
        invariant
            0 <= b <= n,
            n == s@.len(),
            forall|j: int| b <= j < n ==> is_space_char(#[trigger] s@[j]),
        ensures
            0 <= b <= n,
            forall|j: int| b <= j < n ==> is_space_char(#[trigger] s@[j]),
            b > 0 ==> !is_space_char(s@[b - 1]),
        decreases b,
    {
        if b == 0 {
            break;
        }
        if !is_space(s.get_char(b - 1)) {
            break;
        }
        b = b - 1;
    }
    proof {
        lemma_end_non_space_is(s@, b as int);
    }
    if a < b {
        s.substring_char(a, b).to_owned()
    } else {
        String::new()
    }
}

} // verus!
