//! Character-level text utilities shared by the whole pipeline: substring
//! search, prefix and suffix tests, whitespace trimming, and the scan that
//! finds the first line of a text beginning with a given prefix. Every
//! executable function carries an exact specification over `Seq<char>`.

use vstd::prelude::*;
use vstd::string::*;

verus! {

/// `p` occurs in `s` starting at position `i`.
pub open spec fn starts_with_at(s: Seq<char>, p: Seq<char>, i: int) -> bool {
    0 <= i && i + p.len() <= s.len() && s.subrange(i, i + p.len() as int) == p
}

/// `s` ends with `p`.
pub open spec fn spec_ends_with(s: Seq<char>, p: Seq<char>) -> bool {
    p.len() <= s.len() && s.subrange(s.len() - p.len(), s.len() as int) == p
}

/// The position of the first occurrence of `c` in `s` at or after `from`,
/// or `s.len()` if there is none.
pub open spec fn find_from(s: Seq<char>, c: char, from: int) -> int
    decreases s.len() - from,
{
    if from < 0 || from >= s.len() {
        s.len() as int
    } else if s[from] == c {
        from
    } else {
        find_from(s, c, from + 1)
    }
}

/// Characterizes `find_from`: the result is in `[from, s.len()]`, points at
/// `c` unless it is `s.len()`, and nothing before it (from `from` on) is `c`.
pub proof fn lemma_find_from(s: Seq<char>, c: char, from: int)
    requires
        0 <= from <= s.len(),
    ensures
        from <= find_from(s, c, from) <= s.len(),
        find_from(s, c, from) < s.len() ==> s[find_from(s, c, from)] == c,
        forall|k: int| from <= k < find_from(s, c, from) ==> s[k] != c,
    decreases s.len() - from,
{
    if from < s.len() && s[from] != c {
        lemma_find_from(s, c, from + 1);
    }
}

/// Any position with the properties of `find_from` is `find_from`.
pub proof fn lemma_find_from_unique(s: Seq<char>, c: char, from: int, j: int)
    requires
        0 <= from <= j <= s.len(),
        j < s.len() ==> s[j] == c,
        forall|k: int| from <= k < j ==> s[k] != c,
    ensures
        find_from(s, c, from) == j,
{
    lemma_find_from(s, c, from);
    let f = find_from(s, c, from);
    if f < j {
        assert(s[f] != c);
    }
    if j < f {
        assert(s[j] != c);
    }
}

/// Searching within a suffix of `s` finds the same occurrence as searching
/// `s` itself from the suffix's start.
pub proof fn lemma_find_from_subrange(s: Seq<char>, c: char, p: int)
    requires
        0 <= p <= s.len(),
    ensures
        find_from(s.subrange(p, s.len() as int), c, 0) == find_from(s, c, p) - p,
{
    let t = s.subrange(p, s.len() as int);
    lemma_find_from(s, c, p);
    let f = find_from(s, c, p);
    assert(forall|k: int| 0 <= k < f - p ==> t[k] != c);
    lemma_find_from_unique(t, c, 0, f - p);
}

/// Position `i` begins a line of `s`: it is the start of the text or is
/// preceded by a newline.
pub open spec fn spec_line_start(s: Seq<char>, i: int) -> bool {
    i == 0 || (0 < i <= s.len() && s[i - 1] == '\n')
}

/// The least line start of `s` at or after `i` where `p` matches, if any.
pub open spec fn first_prefixed_line_from(s: Seq<char>, p: Seq<char>, i: int) -> Option<int>
    decreases s.len() - i,
{
    if i < 0 || i > s.len() {
        None
    } else if spec_line_start(s, i) && starts_with_at(s, p, i) {
        Some(i)
    } else if i == s.len() {
        None
    } else {
        first_prefixed_line_from(s, p, i + 1)
    }
}

/// The start of the first line of `s` that begins with the prefix `p`.
pub open spec fn first_prefixed_line(s: Seq<char>, p: Seq<char>) -> Option<int> {
    first_prefixed_line_from(s, p, 0)
}

/// Characterizes `first_prefixed_line_from`: a `Some(j)` is the least line
/// start at or after `i` carrying the prefix, and `None` means no line from
/// `i` on carries it — whatever other near-matches the text holds.
pub proof fn lemma_first_prefixed_line_from(s: Seq<char>, p: Seq<char>, i: int)
    requires
        0 <= i <= s.len(),
    ensures
        match first_prefixed_line_from(s, p, i) {
            Some(j) => i <= j <= s.len() && spec_line_start(s, j) && starts_with_at(s, p, j)
                && forall|k: int|
                    i <= k < j ==> !(spec_line_start(s, k) && starts_with_at(s, p, k)),
            None => forall|k: int|
                i <= k <= s.len() ==> !(spec_line_start(s, k) && starts_with_at(s, p, k)),
        },
    decreases s.len() - i,
{
    if !(spec_line_start(s, i) && starts_with_at(s, p, i)) && i < s.len() {
        lemma_first_prefixed_line_from(s, p, i + 1);
    }
}

/// Scanning may begin at any position `m` reached from `i` without passing a
/// matching line start: the result is the same.
pub proof fn lemma_first_prefixed_line_skip(s: Seq<char>, p: Seq<char>, i: int, m: int)
    requires
        0 <= i <= m <= s.len(),
        forall|k: int| i <= k < m ==> !(spec_line_start(s, k) && starts_with_at(s, p, k)),
    ensures
        first_prefixed_line_from(s, p, i) == first_prefixed_line_from(s, p, m),
    decreases m - i,
{
    if i < m {
        lemma_first_prefixed_line_skip(s, p, i + 1, m);
    }
}

/// `c` counts as whitespace for trimming: the ASCII whitespace characters.
pub open spec fn is_space(c: char) -> bool {
    c == ' ' || c == '\t' || c == '\r' || c == '\n' || c == '\u{000B}' || c == '\u{000C}'
}

/// `s` without its leading whitespace.
pub open spec fn spec_trim_start(s: Seq<char>) -> Seq<char>
    decreases s.len(),
{
    if s.len() > 0 && is_space(s[0]) {
        spec_trim_start(s.subrange(1, s.len() as int))
    } else {
        s
    }
}

/// `s` without its trailing whitespace.
pub open spec fn spec_trim_end(s: Seq<char>) -> Seq<char>
    decreases s.len(),
{
    if s.len() > 0 && is_space(s[s.len() - 1]) {
        spec_trim_end(s.subrange(0, s.len() - 1))
    } else {
        s
    }
}

/// `s` without leading and trailing whitespace.
pub open spec fn spec_trim(s: Seq<char>) -> Seq<char> {
    spec_trim_end(spec_trim_start(s))
}

proof fn lemma_trim_start_scan(s: Seq<char>, j: int)
    requires
        0 <= j <= s.len(),
        forall|k: int| 0 <= k < j ==> is_space(s[k]),
        j < s.len() ==> !is_space(s[j]),
    ensures
        spec_trim_start(s) == s.subrange(j, s.len() as int),
    decreases j,
{
    if j == 0 {
        assert(s.subrange(0, s.len() as int) =~= s);
    } else {
        let t = s.subrange(1, s.len() as int);
        assert(forall|k: int| 0 <= k < j - 1 ==> is_space(t[k]));
        lemma_trim_start_scan(t, j - 1);
        assert(t.subrange(j - 1, t.len() as int) =~= s.subrange(j, s.len() as int));
    }
}

proof fn lemma_trim_end_scan(s: Seq<char>, j: int)
    requires
        0 <= j <= s.len(),
        forall|k: int| j <= k < s.len() ==> is_space(s[k]),
        j > 0 ==> !is_space(s[j - 1]),
    ensures
        spec_trim_end(s) == s.subrange(0, j),
    decreases s.len() - j,
{
    if j == s.len() {
        assert(s.subrange(0, s.len() as int) =~= s);
    } else {
        let t = s.subrange(0, s.len() - 1);
        assert(forall|k: int| j <= k < t.len() ==> is_space(t[k]));
        lemma_trim_end_scan(t, j);
        assert(t.subrange(0, j) =~= s.subrange(0, j));
    }
}

/// Whether `c` is one of the whitespace characters that trimming removes.
pub fn is_space_char(c: char) -> (r: bool)
    ensures
        r == is_space(c),
{
    c == ' ' || c == '\t' || c == '\r' || c == '\n' || c == '\u{000B}' || c == '\u{000C}'
}

/// The position of the first occurrence of `c` in `s` at or after `from`,
/// or the character length of `s` if there is none.
pub fn find_char_from(s: &str, c: char, from: usize) -> (r: usize)
    requires
        from as int <= s@.len(),
    ensures
        r as int == find_from(s@, c, from as int),
{
    let n: usize = s.unicode_len();
    let mut i: usize = from;
    loop
        invariant
            from <= i <= n,
            n as int == s@.len(),
            forall|k: int| from as int <= k < i as int ==> s@[k] != c,
        decreases n - i,
    {
        if i == n {
            proof {
                lemma_find_from(s@, c, from as int);
            }
            return n;
        }
        if s.get_char(i) == c {
            proof {
                lemma_find_from(s@, c, from as int);
            }
            return i;
        }
        i = i + 1;
    }
}

/// Whether `p` occurs in `s` starting at character position `i`.
pub fn str_starts_with_at(s: &str, p: &str, i: usize) -> (r: bool)
    requires
        i as int <= s@.len(),
    ensures
        r == starts_with_at(s@, p@, i as int),
{
    let n: usize = s.unicode_len();
    let m: usize = p.unicode_len();
    if m > n - i {
        return false;
    }
    let mut k: usize = 0;
    loop
        invariant
            0 <= k <= m,
            m as int == p@.len(),
            n as int == s@.len(),
            i + m <= n,
            forall|t: int| 0 <= t < k as int ==> s@[i as int + t] == p@[t],
        decreases m - k,
    {
        if k == m {
            proof {
                assert(s@.subrange(i as int, i as int + m as int) =~= p@);
            }
            return true;
        }
        if s.get_char(i + k) != p.get_char(k) {
            proof {
                let sub = s@.subrange(i as int, i as int + m as int);
                assert(sub[k as int] == s@[i as int + k as int]);
            }
            return false;
        }
        k = k + 1;
    }
}

/// Whether `s` ends with `p`.
pub fn str_ends_with(s: &str, p: &str) -> (r: bool)
    ensures
        r == spec_ends_with(s@, p@),
{
    let n: usize = s.unicode_len();
    let m: usize = p.unicode_len();
    if m > n {
        return false;
    }
    str_starts_with_at(s, p, n - m)
}

/// Whether `a` and `b` hold the same characters.
pub fn str_eq(a: &str, b: &str) -> (r: bool)
    ensures
        r == (a@ == b@),
{
    let n: usize = a.unicode_len();
    let m: usize = b.unicode_len();
    if n != m {
        return false;
    }
    let r = str_starts_with_at(a, b, 0);
    proof {
        assert(a@.subrange(0, 0 + a@.len() as int) =~= a@);
    }
    r
}

/// The start of the first line of `s` that begins with the prefix `p`, as a
/// character position into `s`.
pub fn find_prefixed_line(s: &str, p: &str) -> (r: Option<usize>)
    ensures
        s@.len() <= usize::MAX,
        match r {
            Some(i) => first_prefixed_line(s@, p@) == Some(i as int),
            None => first_prefixed_line(s@, p@) is None,
        },
{
    let n: usize = s.unicode_len();
    let mut i: usize = 0;
    loop
        invariant
            0 <= i <= n,
            n as int == s@.len(),
            spec_line_start(s@, i as int),
            first_prefixed_line(s@, p@) == first_prefixed_line_from(s@, p@, i as int),
        decreases n - i,
    {
        if str_starts_with_at(s, p, i) {
            return Some(i);
        }
        proof {
            if p@.len() == 0 {
                assert(s@.subrange(i as int, i as int) =~= p@);
            }
        }
        let j = find_char_from(s, '\n', i);
        proof {
            lemma_find_from(s@, '\n', i as int);
        }
        if j == n {
            proof {
                assert forall|k: int|
                    i as int <= k <= n as int implies !(spec_line_start(s@, k)
                    && starts_with_at(s@, p@, k)) by {
                    if (i as int) < k && k <= n as int {
                        assert(s@[k - 1] != '\n');
                    }
                }
                lemma_first_prefixed_line_skip(s@, p@, i as int, n as int);
            }
            return None;
        }
        proof {
            assert forall|k: int|
                i as int <= k < j as int + 1 implies !(spec_line_start(s@, k)
                && starts_with_at(s@, p@, k)) by {
                if (i as int) < k {
                    assert(s@[k - 1] != '\n');
                }
            }
            lemma_first_prefixed_line_skip(s@, p@, i as int, j as int + 1);
        }
        i = j + 1;
    }
}

/// A copy of the characters of `s` from `from` to `to`, with surrounding
/// whitespace removed.
pub fn trim_range(s: &str, from: usize, to: usize) -> (r: String)
    requires
        from <= to,
        to as int <= s@.len(),
    ensures
        r@ == spec_trim(s@.subrange(from as int, to as int)),
{
    let lo = scan_spaces(s, from, to);
    let hi = scan_spaces_rev(s, lo, to);
    let sub = s.substring_char(lo, hi);
    proof {
        let whole = s@.subrange(from as int, to as int);
        assert(forall|k: int| 0 <= k < lo as int - from as int ==> is_space(whole[k]));
        lemma_trim_start_scan(whole, lo as int - from as int);
        assert(whole.subrange(lo as int - from as int, whole.len() as int) =~= s@.subrange(
            lo as int,
            to as int,
        ));
        let tail = s@.subrange(lo as int, to as int);
        assert(forall|k: int| hi as int - lo as int <= k < tail.len() ==> is_space(tail[k]));
        lemma_trim_end_scan(tail, hi as int - lo as int);
        assert(tail.subrange(0, hi as int - lo as int) =~= s@.subrange(lo as int, hi as int));
    }
    sub.to_owned()
}

fn scan_spaces(s: &str, from: usize, to: usize) -> (r: usize)
    requires
        from <= to,
        to as int <= s@.len(),
    ensures
        from <= r <= to,
        forall|k: int| from as int <= k < r as int ==> is_space(s@[k]),
        r < to ==> !is_space(s@[r as int]),
{
    let mut i: usize = from;
    loop
        invariant
            from <= i <= to,
            to as int <= s@.len(),
            forall|k: int| from as int <= k < i as int ==> is_space(s@[k]),
        decreases to - i,
    {
        if i == to {
            return i;
        }
        if !is_space_char(s.get_char(i)) {
            return i;
        }
        i = i + 1;
    }
}

fn scan_spaces_rev(s: &str, lo: usize, to: usize) -> (r: usize)
    requires
        lo <= to,
        to as int <= s@.len(),
    ensures
        lo <= r <= to,
        forall|k: int| r as int <= k < to as int ==> is_space(s@[k]),
        r > lo ==> !is_space(s@[r as int - 1]),
{
    let mut i: usize = to;
    loop
        invariant
            lo <= i <= to,
            to as int <= s@.len(),
            forall|k: int| i as int <= k < to as int ==> is_space(s@[k]),
        decreases i,
    {
        if i == lo {
            return i;
        }
        if !is_space_char(s.get_char(i - 1)) {
            return i;
        }
        i = i - 1;
    }
}

} // verus!
