//! Character-level scanning over text: white space, words and trimming.
use vstd::prelude::*;
use itertools::Itertools;

verus! {

/// Whether `c` has the Unicode `White_Space` property, which is what
/// `char::is_whitespace` tests.
pub open spec fn is_space(c: char) -> bool {
    let u = c as u32;
    (0x09 <= u && u <= 0x0D) || u == 0x20 || u == 0x85 || u == 0xA0 || u == 0x1680 || (0x2000 <= u
        && u <= 0x200A) || u == 0x2028 || u == 0x2029 || u == 0x202F || u == 0x205F || u == 0x3000
}

/// The first index in `[i, hi)` that holds no white space, or `hi`.
pub open spec fn scan_space(s: Seq<char>, i: int, hi: int) -> int
    decreases hi - i,
{
    if i < hi && is_space(s[i]) {
        scan_space(s, i + 1, hi)
    } else {
        i
    }
}

/// The first index in `[i, hi)` that holds white space, or `hi`.
pub open spec fn scan_word(s: Seq<char>, i: int, hi: int) -> int
    decreases hi - i,
{
    if i < hi && !is_space(s[i]) {
        scan_word(s, i + 1, hi)
    } else {
        i
    }
}

/// The end of `s[lo..j]` once its trailing white space is dropped.
pub open spec fn trim_back(s: Seq<char>, lo: int, j: int) -> int
    decreases j - lo,
{
    if lo < j && is_space(s[j - 1]) {
        trim_back(s, lo, j - 1)
    } else {
        j
    }
}

/// `s` without leading and trailing white space (`str::trim`).
pub open spec fn trim(s: Seq<char>) -> Seq<char> {
    let a = scan_space(s, 0, s.len() as int);
    s.subrange(a, trim_back(s, a, s.len() as int))
}

/// The white-space separated words of `s[i..hi]`, left to right.
pub open spec fn words(s: Seq<char>, i: int, hi: int) -> Seq<Seq<char>>
    decreases hi - i,
    via words_decreases
{
    if i < hi {
        if is_space(s[i]) {
            words(s, i + 1, hi)
        } else {
            let e = scan_word(s, i, hi);
            seq![s.subrange(i, e)] + words(s, e, hi)
        }
    } else {
        seq![]
    }
}

#[via_fn]
proof fn words_decreases(s: Seq<char>, i: int, hi: int) {
    if i < hi && !is_space(s[i]) {
        lemma_scan_word_advances(s, i + 1, hi);
    }
}

/// The white-space separated words of `s` (`str::split_whitespace`).
pub open spec fn split_words(s: Seq<char>) -> Seq<Seq<char>> {
    words(s, 0, s.len() as int)
}

/// The views of a sequence of strings.
pub open spec fn string_views(v: Seq<String>) -> Seq<Seq<char>> {
    v.map_values(|w: String| w@)
}

/// The views of a sequence of string slices.
pub open spec fn str_views(v: Seq<&str>) -> Seq<Seq<char>> {
    v.map_values(|w: &str| w@)
}

pub proof fn lemma_scan_word_advances(s: Seq<char>, i: int, hi: int)
    ensures
        i <= scan_word(s, i, hi),
        i <= hi ==> scan_word(s, i, hi) <= hi,
    decreases hi - i,
{
    if i < hi && !is_space(s[i]) {
        lemma_scan_word_advances(s, i + 1, hi);
    }
}

/// `scan_space` stops at the first character in range that is not white space.
pub proof fn lemma_scan_space(s: Seq<char>, i: int, hi: int)
    requires
        0 <= i <= hi <= s.len(),
    ensures
        i <= scan_space(s, i, hi) <= hi,
        forall|k: int| i <= k < scan_space(s, i, hi) ==> is_space(#[trigger] s[k]),
        scan_space(s, i, hi) < hi ==> !is_space(s[scan_space(s, i, hi)]),
    decreases hi - i,
{
    if i < hi && is_space(s[i]) {
        lemma_scan_space(s, i + 1, hi);
    }
}

/// `scan_word` stops at the first white space in range.
pub proof fn lemma_scan_word(s: Seq<char>, i: int, hi: int)
    requires
        0 <= i <= hi <= s.len(),
    ensures
        i <= scan_word(s, i, hi) <= hi,
        forall|k: int| i <= k < scan_word(s, i, hi) ==> !is_space(#[trigger] s[k]),
        scan_word(s, i, hi) < hi ==> is_space(s[scan_word(s, i, hi)]),
    decreases hi - i,
{
    if i < hi && !is_space(s[i]) {
        lemma_scan_word(s, i + 1, hi);
    }
}

/// `trim_back` stops after the last character in range that is not white space.
pub proof fn lemma_trim_back(s: Seq<char>, lo: int, j: int)
    requires
        0 <= lo <= j <= s.len(),
    ensures
        lo <= trim_back(s, lo, j) <= j,
        forall|k: int| trim_back(s, lo, j) <= k < j ==> is_space(#[trigger] s[k]),
        lo < trim_back(s, lo, j) ==> !is_space(s[trim_back(s, lo, j) - 1]),
    decreases j - lo,
{
    if lo < j && is_space(s[j - 1]) {
        lemma_trim_back(s, lo, j - 1);
    }
}

/// Whether `c` is white space (`char::is_whitespace`).
pub fn is_space_char(c: char) -> (r: bool)
    ensures
        r == is_space(c),
{
    let u = c as u32;
    (0x09 <= u && u <= 0x0D) || u == 0x20 || u == 0x85 || u == 0xA0 || u == 0x1680 || (0x2000 <= u
        && u <= 0x200A) || u == 0x2028 || u == 0x2029 || u == 0x202F || u == 0x205F || u == 0x3000
}

pub(crate) fn scan_space_at(s: &str, n: usize, i: usize, hi: usize) -> (r: usize)
    requires
        n == s@.len(),
        i <= hi <= n,
    ensures
        r == scan_space(s@, i as int, hi as int),
        i <= r <= hi,
{
    proof {
        lemma_scan_space(s@, i as int, hi as int);
    }
    let mut j = i;
    while j < hi && is_space_char(s.get_char(j))
        invariant
            n == s@.len(),
            i <= j <= hi <= n,
            scan_space(s@, j as int, hi as int) == scan_space(s@, i as int, hi as int),
        decreases hi - j,
    {
        j += 1;
    }
    j
}

pub(crate) fn scan_word_at(s: &str, n: usize, i: usize, hi: usize) -> (r: usize)
    requires
        n == s@.len(),
        i <= hi <= n,
    ensures
        r == scan_word(s@, i as int, hi as int),
        i <= r <= hi,
{
    proof {
        lemma_scan_word(s@, i as int, hi as int);
    }
    let mut j = i;
    while j < hi && !is_space_char(s.get_char(j))
        invariant
            n == s@.len(),
            i <= j <= hi <= n,
            scan_word(s@, j as int, hi as int) == scan_word(s@, i as int, hi as int),
        decreases hi - j,
    {
        j += 1;
    }
    j
}

pub(crate) fn trim_back_at(s: &str, n: usize, lo: usize, hi: usize) -> (r: usize)
    requires
        n == s@.len(),
        lo <= hi <= n,
    ensures
        r == trim_back(s@, lo as int, hi as int),
        lo <= r <= hi,
{
    proof {
        lemma_trim_back(s@, lo as int, hi as int);
    }
    let mut j = hi;
    while lo < j && is_space_char(s.get_char(j - 1))
        invariant
            n == s@.len(),
            lo <= j <= hi <= n,
            trim_back(s@, lo as int, j as int) == trim_back(s@, lo as int, hi as int),
        decreases j,
    {
        j -= 1;
    }
    j
}

/// Whether both texts hold the same characters.
pub fn text_eq(a: &str, b: &str) -> (r: bool)
    ensures
        r == (a@ == b@),
{
    let n = a.unicode_len();
    if n != b.unicode_len() {
        proof {
            assert(a@.len() != b@.len());
        }
        return false;
    }
    let mut i: usize = 0;
    while i < n
        invariant
            n == a@.len(),
            n == b@.len(),
            i <= n,
            forall|k: int| 0 <= k < i ==> a@[k] == b@[k],
        decreases n - i,
    {
        if a.get_char(i) != b.get_char(i) {
            proof {
                assert(a@[i as int] != b@[i as int]);
            }
            return false;
        }
        i += 1;
    }
    proof {
        assert(a@ =~= b@);
    }
    true
}

/// `s` without leading and trailing white space.
pub fn trim_str<'a>(s: &'a str) -> (r: &'a str)
    ensures
        r@ == trim(s@),
{
    let n = s.unicode_len();
    let a = scan_space_at(s, n, 0, n);
    let b = trim_back_at(s, n, a, n);
    s.substring_char(a, b)
}

/// The white-space separated words of `s`, left to right.
pub fn split_words_str<'a>(s: &'a str) -> (r: Vec<&'a str>)
    ensures
        str_views(r@) == split_words(s@),
{
    let n = s.unicode_len();
    let mut out: Vec<&'a str> = Vec::new();
    let mut i: usize = 0;
    while i < n
        invariant
            n == s@.len(),
            i <= n,
            str_views(out@) + words(s@, i as int, n as int) == split_words(s@),
        decreases n - i,
    {
        if is_space_char(s.get_char(i)) {
            i += 1;
        } else {
            let e = scan_word_at(s, n, i, n);
            proof {
                lemma_scan_word_advances(s@, i as int + 1, n as int);
            }
            let w = s.substring_char(i, e);
            let ghost before = out@;
            out.push(w);
            proof {
                assert(str_views(out@) =~= str_views(before).push(w@));
                assert(words(s@, i as int, n as int) == seq![w@] + words(s@, e as int, n as int));
                assert(str_views(out@) + words(s@, e as int, n as int) =~= str_views(before)
                    + words(s@, i as int, n as int));
            }
            i = e;
        }
    }
    proof {
        assert(str_views(out@) + words(s@, n as int, n as int) =~= str_views(out@));
    }
    out
}

/// The first index at or after `i` that holds a line feed, or the length.
pub open spec fn line_end(s: Seq<char>, i: int) -> int
    decreases s.len() - i,
{
    if 0 <= i < s.len() && s[i] != '\n' {
        line_end(s, i + 1)
    } else {
        i
    }
}

pub proof fn lemma_line_end(s: Seq<char>, i: int)
    requires
        0 <= i <= s.len(),
    ensures
        i <= line_end(s, i) <= s.len(),
        line_end(s, i) < s.len() ==> s[line_end(s, i)] == '\n',
    decreases s.len() - i,
{
    if i < s.len() && s[i] != '\n' {
        lemma_line_end(s, i + 1);
    }
}

/// The lines of `s[i..]` (`str::lines`): split at each line feed, a
/// carriage return before a line feed dropped, and no empty line after a
/// final line feed.
pub open spec fn lines_from(s: Seq<char>, i: int) -> Seq<Seq<char>>
    decreases s.len() - i,
    via lines_from_decreases
{
    if 0 <= i < s.len() {
        let e = line_end(s, i);
        let line = if e < s.len() && e > i && s[e - 1] == '\r' {
            s.subrange(i, e - 1)
        } else {
            s.subrange(i, e)
        };
        if e < s.len() {
            seq![line] + lines_from(s, e + 1)
        } else {
            seq![line]
        }
    } else {
        seq![]
    }
}

#[via_fn]
proof fn lines_from_decreases(s: Seq<char>, i: int) {
    if 0 <= i < s.len() {
        lemma_line_end(s, i);
    }
}

pub open spec fn text_lines(s: Seq<char>) -> Seq<Seq<char>> {
    lines_from(s, 0)
}

/// The lines of `s`, left to right.
pub fn lines_of<'a>(s: &'a str) -> (r: Vec<&'a str>)
    ensures
        str_views(r@) == text_lines(s@),
{
    let n = s.unicode_len();
    let mut out: Vec<&'a str> = Vec::new();
    let mut i: usize = 0;
    while i < n
        invariant
            n == s@.len(),
            i <= n,
            str_views(out@) + lines_from(s@, i as int) == text_lines(s@),
        decreases n - i,
    {
        proof {
            lemma_line_end(s@, i as int);
        }
        let mut e = i;
        while e < n && s.get_char(e) != '\n'
            invariant
                n == s@.len(),
                i <= e <= n,
                line_end(s@, e as int) == line_end(s@, i as int),
            decreases n - e,
        {
            e += 1;
        }
        let stop = if e < n && e > i && s.get_char(e - 1) == '\r' {
            e - 1
        } else {
            e
        };
        let line = s.substring_char(i, stop);
        let ghost before = out@;
        out.push(line);
        proof {
            assert(str_views(out@) =~= str_views(before).push(line@));
        }
        if e == n {
            proof {
                assert(lines_from(s@, i as int) == seq![line@]);
                assert(lines_from(s@, n as int) =~= seq![]);
                assert(str_views(out@) + lines_from(s@, n as int) =~= str_views(before)
                    + lines_from(s@, i as int));
            }
            i = n;
        } else {
            proof {
                assert(lines_from(s@, i as int) == seq![line@] + lines_from(s@, e as int + 1));
                assert(str_views(out@) + lines_from(s@, e as int + 1) =~= str_views(before)
                    + lines_from(s@, i as int));
            }
            i = e + 1;
        }
    }
    proof {
        assert(str_views(out@) + lines_from(s@, n as int) =~= str_views(out@));
    }
    out
}

/// Whether `s` starts with `prefix`.
pub fn starts_with_str(s: &str, prefix: &str) -> (r: bool)
    ensures
        r == (prefix@.len() <= s@.len() && s@.take(prefix@.len() as int) == prefix@),
{
    let n = s.unicode_len();
    let p = prefix.unicode_len();
    if p > n {
        return false;
    }
    let head = s.substring_char(0, p);
    text_eq(head, prefix)
}

/// `words` with `sep` between each two.
pub open spec fn joined(words: Seq<Seq<char>>, sep: Seq<char>) -> Seq<char>
    decreases words.len(),
{
    if words.len() == 0 {
        seq![]
    } else if words.len() == 1 {
        words[0]
    } else {
        joined(words.drop_last(), sep) + sep + words.last()
    }
}

/// Relies on `itertools::Itertools::join`: the items in order, with `sep`
/// between each two.
#[verifier::external_body]
pub(crate) fn join_words(words: &Vec<&str>, sep: &str) -> (r: String)
    ensures
        r@ == joined(str_views(words@), sep@),
{
    words.iter().join(sep)
}

} // verus!
