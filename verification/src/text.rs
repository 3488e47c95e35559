//! Character-level text handling shared by the parsers of this crate.
//!
//! Text is modelled as `Seq<char>`, the view of `str` and `String`.  Executable
//! code works on `Vec<char>` and converts at the edges.
use vstd::prelude::*;

verus! {

broadcast use vstd::string::group_string_axioms;

// ---------------------------------------------------------------------------
// Conversions
// ---------------------------------------------------------------------------

/// The characters of `s`, in order.
pub fn chars_of(s: &str) -> (v: Vec<char>)
    ensures
        v@ == s@,
{
    let mut v: Vec<char> = Vec::new();
    for c in it: s.chars()
        invariant
            v@ == it.seq().take(it.index() as int),
            it.seq() == s@,
    {
        v.push(c);
    }
    v
}

/// `String::push`: appends one character.
#[verifier::external_body]
pub(crate) fn push_char(s: &mut String, c: char)
    ensures
        final(s)@ == old(s)@.push(c),
{
    s.push(c);
}

/// The string whose characters are `v`.
pub fn string_from(v: &Vec<char>) -> (s: String)
    ensures
        s@ == v@,
{
    let mut s = String::new();
    for i in 0..v.len()
        invariant
            s@ == v@.take(i as int),
    {
        push_char(&mut s, v[i]);
        assert(v@.take(i + 1) == v@.take(i as int).push(v@[i as int]));
    }
    assert(v@.take(v.len() as int) == v@);
    s
}

/// The string whose characters are those of `v` from `a` up to `b`.
pub fn string_from_range(v: &Vec<char>, a: usize, b: usize) -> (s: String)
    requires
        a <= b <= v.len(),
    ensures
        s@ == v@.subrange(a as int, b as int),
{
    let mut s = String::new();
    let mut i = a;
    while i < b
        invariant
            a <= i <= b <= v.len(),
            s@ == v@.subrange(a as int, i as int),
        decreases b - i,
    {
        push_char(&mut s, v[i]);
        assert(v@.subrange(a as int, i + 1) == v@.subrange(a as int, i as int).push(v@[i as int]));
        i = i + 1;
    }
    s
}

/// The characters of `v` from `a` up to `b`.
pub fn slice_chars(v: &Vec<char>, a: usize, b: usize) -> (r: Vec<char>)
    requires
        a <= b <= v.len(),
    ensures
        r@ == v@.subrange(a as int, b as int),
{
    let mut r: Vec<char> = Vec::new();
    let mut i = a;
    while i < b
        invariant
            a <= i <= b <= v.len(),
            r@ == v@.subrange(a as int, i as int),
        decreases b - i,
    {
        r.push(v[i]);
        assert(v@.subrange(a as int, i + 1) == v@.subrange(a as int, i as int).push(v@[i as int]));
        i = i + 1;
    }
    r
}

/// Appends the characters of `t` to `s`.
pub fn append_chars(s: &mut Vec<char>, t: &Vec<char>)
    ensures
        final(s)@ == old(s)@ + t@,
{
    for i in 0..t.len()
        invariant
            s@ == old(s)@ + t@.take(i as int),
    {
        s.push(t[i]);
        assert(t@.take(i + 1) == t@.take(i as int).push(t@[i as int]));
    }
    assert(t@.take(t.len() as int) == t@);
}

/// Appends the characters of `t` to `s`.
pub fn append_str(s: &mut Vec<char>, t: &str)
    ensures
        final(s)@ == old(s)@ + t@,
{
    let tv = chars_of(t);
    append_chars(s, &tv);
}

// ---------------------------------------------------------------------------
// Comparisons
// ---------------------------------------------------------------------------

/// `p` is a prefix of `s`.
pub open spec fn has_prefix(s: Seq<char>, p: Seq<char>) -> bool {
    p.len() <= s.len() && s.take(p.len() as int) == p
}

/// `p` occurs in `s` starting at index `i`.
pub open spec fn occurs_at(s: Seq<char>, p: Seq<char>, i: int) -> bool {
    0 <= i && i + p.len() <= s.len() && s.subrange(i, i + p.len()) == p
}

/// `p` occurs somewhere in `s`.
pub open spec fn contains_seq(s: Seq<char>, p: Seq<char>) -> bool {
    exists|i: int| occurs_at(s, p, i)
}

/// `p` occurs in `s` starting at index `i`.
pub fn occurs_at_exec(s: &Vec<char>, p: &Vec<char>, i: usize) -> (b: bool)
    ensures
        b == occurs_at(s@, p@, i as int),
{
    if i > s.len() || p.len() > s.len() - i {
        return false;
    }
    let mut k: usize = 0;
    while k < p.len()
        invariant
            i + p.len() <= s.len(),
            k <= p.len(),
            forall|j: int| 0 <= j < k ==> s@[i + j] == p@[j],
        decreases p.len() - k,
    {
        if s[i + k] != p[k] {
            assert(s@.subrange(i as int, i + p.len())[k as int] != p@[k as int]);
            return false;
        }
        k = k + 1;
    }
    assert(s@.subrange(i as int, i + p.len()) =~= p@);
    true
}

/// `p` is a prefix of `s`.
pub fn starts_with(s: &Vec<char>, p: &Vec<char>) -> (b: bool)
    ensures
        b == has_prefix(s@, p@),
{
    let r = occurs_at_exec(s, p, 0);
    assert(s@.subrange(0, p@.len() as int) == s@.take(p@.len() as int));
    r
}

/// `p` occurs somewhere in `s`.
pub fn contains(s: &Vec<char>, p: &Vec<char>) -> (b: bool)
    ensures
        b == contains_seq(s@, p@),
{
    if p.len() > s.len() {
        assert(!contains_seq(s@, p@));
        return false;
    }
    let n = s.len() - p.len();
    for i in 0..n
        invariant
            n == s.len() - p.len(),
            forall|j: int| 0 <= j < i ==> !occurs_at(s@, p@, j),
    {
        if occurs_at_exec(s, p, i) {
            return true;
        }
    }
    if occurs_at_exec(s, p, n) {
        return true;
    }
    assert forall|j: int| !occurs_at(s@, p@, j) by {
        if 0 <= j && j + p@.len() <= s@.len() {
            assert(j <= n);
        }
    }
    false
}

/// `s` and `t` are equal.
pub fn chars_eq(s: &Vec<char>, t: &Vec<char>) -> (b: bool)
    ensures
        b == (s@ == t@),
{
    if s.len() != t.len() {
        return false;
    }
    let r = starts_with(s, t);
    assert(s@.take(t@.len() as int) == s@);
    r
}

/// `s` consists of the characters of the literal or string `t`.
pub fn chars_eq_str(s: &Vec<char>, t: &str) -> (b: bool)
    ensures
        b == (s@ == t@),
{
    let tv = chars_of(t);
    chars_eq(s, &tv)
}

// ---------------------------------------------------------------------------
// Whitespace and trimming
// ---------------------------------------------------------------------------

/// Unicode White_Space, the set that `char::is_whitespace` tests.
pub open spec fn is_ws(c: char) -> bool {
    let n = c as u32;
    (9 <= n && n <= 13) || n == 32 || n == 0x85 || n == 0xa0 || n == 0x1680 || (0x2000 <= n
        && n <= 0x200a) || n == 0x2028 || n == 0x2029 || n == 0x202f || n == 0x205f || n
        == 0x3000
}

pub fn is_ws_exec(c: char) -> (b: bool)
    ensures
        b == is_ws(c),
{
    let n = c as u32;
    (9 <= n && n <= 13) || n == 32 || n == 0x85 || n == 0xa0 || n == 0x1680 || (0x2000 <= n
        && n <= 0x200a) || n == 0x2028 || n == 0x2029 || n == 0x202f || n == 0x205f || n
        == 0x3000
}

/// Index of the first non-whitespace character of `s` at or after `i`
/// (or `s.len()`).
pub open spec fn skip_ws(s: Seq<char>, i: int) -> int
    decreases s.len() - i,
{
    if 0 <= i < s.len() && is_ws(s[i]) {
        skip_ws(s, i + 1)
    } else {
        i
    }
}

/// Index just after the last non-whitespace character of `s` before `j`,
/// not going below `lo`.
pub open spec fn back_ws(s: Seq<char>, lo: int, j: int) -> int
    decreases j - lo,
{
    if lo < j && j <= s.len() && is_ws(s[j - 1]) {
        back_ws(s, lo, j - 1)
    } else {
        j
    }
}

/// Start of the trimmed text (what `str::trim` keeps).
pub open spec fn trim_start_index(s: Seq<char>) -> int {
    skip_ws(s, 0)
}

/// End of the trimmed text.
pub open spec fn trim_end_index(s: Seq<char>) -> int {
    back_ws(s, trim_start_index(s), s.len() as int)
}

/// `str::trim`: `s` without leading and trailing whitespace.
pub open spec fn trim(s: Seq<char>) -> Seq<char> {
    s.subrange(trim_start_index(s), trim_end_index(s))
}

/// Text that neither begins nor ends with whitespace.
pub open spec fn no_outer_ws(s: Seq<char>) -> bool {
    s.len() == 0 || (!is_ws(s[0]) && !is_ws(s.last()))
}

/// Trimming such text leaves it as it is.
pub proof fn lemma_trim_no_outer_ws(s: Seq<char>)
    requires
        no_outer_ws(s),
    ensures
        trim(s) == s,
{
    assert(skip_ws(s, 0) == 0);
    assert(back_ws(s, 0, s.len() as int) == s.len());
    assert(s.subrange(0, s.len() as int) == s);
}

/// The bounds of the trimmed part of `s[lo..hi]`.
pub fn trim_range(s: &Vec<char>, lo: usize, hi: usize) -> (r: (usize, usize))
    requires
        lo <= hi <= s.len(),
    ensures
        lo <= r.0 <= r.1 <= hi,
        r.0 - lo == trim_start_index(s@.subrange(lo as int, hi as int)),
        r.1 - lo == trim_end_index(s@.subrange(lo as int, hi as int)),
{
    let ghost t = s@.subrange(lo as int, hi as int);
    let mut i = lo;
    while i < hi && is_ws_exec(s[i])
        invariant
            lo <= i <= hi <= s.len(),
            t == s@.subrange(lo as int, hi as int),
            skip_ws(t, 0) == skip_ws(t, i - lo),
        decreases hi - i,
    {
        assert(t[i - lo] == s@[i as int]);
        i = i + 1;
    }
    assert(skip_ws(t, i - lo) == i - lo);
    let mut j = hi;
    while j > i && is_ws_exec(s[j - 1])
        invariant
            lo <= i <= j <= hi <= s.len(),
            t == s@.subrange(lo as int, hi as int),
            i - lo == trim_start_index(t),
            back_ws(t, i - lo, t.len() as int) == back_ws(t, i - lo, j - lo),
        decreases j - i,
    {
        assert(t[j - 1 - lo] == s@[j - 1]);
        j = j - 1;
    }
    (i, j)
}

/// `str::trim` on a character vector.
pub fn trim_chars(s: &Vec<char>) -> (r: Vec<char>)
    ensures
        r@ == trim(s@),
{
    let (a, b) = trim_range(s, 0, s.len());
    assert(s@.subrange(0, s@.len() as int) == s@);
    slice_chars(s, a, b)
}

/// `str::trim` on a string.
pub fn trim_str(s: &str) -> (r: String)
    ensures
        r@ == trim(s@),
{
    let v = chars_of(s);
    let t = trim_chars(&v);
    string_from(&t)
}

// ---------------------------------------------------------------------------
// Lines, words and separators
// ---------------------------------------------------------------------------

/// One trailing carriage return removed, as `str::lines` does before a newline.
pub open spec fn strip_cr(l: Seq<char>) -> Seq<char> {
    if l.len() > 0 && l.last() == '\r' {
        l.drop_last()
    } else {
        l
    }
}

/// The lines of `s[start..]`, scanning from `k`: the pieces between `'\n'`
/// characters, each without one carriage return before its newline; a last
/// piece without newline is kept when it is not empty.
pub open spec fn lines_from(s: Seq<char>, start: int, k: int) -> Seq<Seq<char>>
    decreases s.len() - k,
{
    if k < s.len() {
        if s[k] == '\n' {
            seq![strip_cr(s.subrange(start, k))] + lines_from(s, k + 1, k + 1)
        } else {
            lines_from(s, start, k + 1)
        }
    } else if start < s.len() {
        seq![s.subrange(start, s.len() as int)]
    } else {
        seq![]
    }
}

/// `str::lines`.
pub open spec fn lines(s: Seq<char>) -> Seq<Seq<char>> {
    lines_from(s, 0, 0)
}

/// The texts held by a sequence of character vectors.
pub open spec fn views(v: Seq<Vec<char>>) -> Seq<Seq<char>> {
    v.map_values(|x: Vec<char>| x@)
}

/// `str::lines` on a character vector.
pub fn lines_of(s: &Vec<char>) -> (r: Vec<Vec<char>>)
    ensures
        views(r@) == lines(s@),
{
    let mut r: Vec<Vec<char>> = Vec::new();
    let mut start: usize = 0;
    let mut k: usize = 0;
    while k < s.len()
        invariant
            start <= k <= s.len(),
            views(r@) + lines_from(s@, start as int, k as int) == lines(s@),
        decreases s.len() - k,
    {
        if s[k] == '\n' {
            let mut line = slice_chars(s, start, k);
            if line.len() > 0 && line[line.len() - 1] == '\r' {
                line.pop();
            }
            let ghost old_r = views(r@);
            r.push(line);
            assert(views(r@) =~= old_r.push(strip_cr(s@.subrange(start as int, k as int))));
            assert(old_r + lines_from(s@, start as int, k as int) =~= views(r@)
                + lines_from(s@, k + 1, k + 1));
            start = k + 1;
        }
        k = k + 1;
    }
    if start < s.len() {
        let line = slice_chars(s, start, s.len());
        let ghost old_r = views(r@);
        r.push(line);
        assert(views(r@) =~= old_r.push(s@.subrange(start as int, s@.len() as int)));
        assert(views(r@) =~= old_r + lines_from(s@, start as int, k as int));
    } else {
        assert(views(r@) =~= views(r@) + lines_from(s@, start as int, k as int));
    }
    r
}

proof fn lemma_lines_scan(s: Seq<char>, start: int, k: int, e: int)
    requires
        0 <= start <= k <= e < s.len(),
        s[e] == '\n',
        forall|j: int| k <= j < e ==> s[j] != '\n',
    ensures
        lines_from(s, start, k) == seq![strip_cr(s.subrange(start, e))] + lines_from(s, e + 1, e + 1),
    decreases e - k,
{
    if k < e {
        lemma_lines_scan(s, start, k + 1, e);
    }
}

proof fn lemma_lines_shift(p: Seq<char>, y: Seq<char>, a: int, b: int)
    requires
        0 <= a <= b <= y.len(),
    ensures
        lines_from(p + y, p.len() + a, p.len() + b) == lines_from(y, a, b),
    decreases y.len() - b,
{
    let s = p + y;
    if b < y.len() {
        assert(s[p.len() + b] == y[b]);
        if y[b] == '\n' {
            lemma_lines_shift(p, y, b + 1, b + 1);
            assert(s.subrange(p.len() + a, p.len() + b) =~= y.subrange(a, b));
        } else {
            lemma_lines_shift(p, y, a, b + 1);
        }
    } else {
        assert(s.subrange(p.len() + a, s.len() as int) =~= y.subrange(a, y.len() as int));
    }
}

/// A line without newline, then a newline, then more text: the first line
/// is that line (without a carriage return before the newline), the others
/// are the lines of the rest.
pub proof fn lemma_lines_cons(x: Seq<char>, y: Seq<char>)
    requires
        forall|j: int| 0 <= j < x.len() ==> x[j] != '\n',
    ensures
        lines(x + seq!['\n'] + y) == seq![strip_cr(x)] + lines(y),
{
    let p = x + seq!['\n'];
    let s = p + y;
    assert(s[x.len() as int] == '\n');
    assert forall|j: int| 0 <= j < x.len() implies s[j] != '\n' by {
        assert(s[j] == x[j]);
    }
    lemma_lines_scan(s, 0, 0, x.len() as int);
    assert(s.subrange(0, x.len() as int) =~= x);
    lemma_lines_shift(p, y, 0, 0);
}

/// The whitespace-separated words of `s[start..]`, scanning from `k`
/// (`str::split_whitespace`).
pub open spec fn words_from(s: Seq<char>, start: int, k: int) -> Seq<Seq<char>>
    decreases s.len() - k,
{
    if k < s.len() {
        if is_ws(s[k]) {
            (if start < k {
                seq![s.subrange(start, k)]
            } else {
                seq![]
            }) + words_from(s, k + 1, k + 1)
        } else {
            words_from(s, start, k + 1)
        }
    } else if start < s.len() {
        seq![s.subrange(start, s.len() as int)]
    } else {
        seq![]
    }
}

/// `str::split_whitespace`.
pub open spec fn words(s: Seq<char>) -> Seq<Seq<char>> {
    words_from(s, 0, 0)
}

/// `str::split_whitespace` on a character vector.
pub fn words_of(s: &Vec<char>) -> (r: Vec<Vec<char>>)
    ensures
        views(r@) == words(s@),
{
    let mut r: Vec<Vec<char>> = Vec::new();
    let mut start: usize = 0;
    let mut k: usize = 0;
    while k < s.len()
        invariant
            start <= k <= s.len(),
            views(r@) + words_from(s@, start as int, k as int) == words(s@),
        decreases s.len() - k,
    {
        if is_ws_exec(s[k]) {
            let ghost old_r = views(r@);
            if start < k {
                let w = slice_chars(s, start, k);
                r.push(w);
                assert(views(r@) =~= old_r.push(s@.subrange(start as int, k as int)));
                assert(old_r + words_from(s@, start as int, k as int) =~= views(r@)
                    + words_from(s@, k + 1, k + 1));
            } else {
                assert(old_r + words_from(s@, start as int, k as int) =~= views(r@)
                    + words_from(s@, k + 1, k + 1));
            }
            start = k + 1;
        }
        k = k + 1;
    }
    if start < s.len() {
        let w = slice_chars(s, start, s.len());
        let ghost old_r = views(r@);
        r.push(w);
        assert(views(r@) =~= old_r.push(s@.subrange(start as int, s@.len() as int)));
        assert(views(r@) =~= old_r + words_from(s@, start as int, k as int));
    } else {
        assert(views(r@) =~= views(r@) + words_from(s@, start as int, k as int));
    }
    r
}

/// Index of the first `c` in `s` at or after `k`, or `s.len()` when there is none.
pub open spec fn find_from(s: Seq<char>, c: char, k: int) -> int
    decreases s.len() - k,
{
    if 0 <= k < s.len() {
        if s[k] == c {
            k
        } else {
            find_from(s, c, k + 1)
        }
    } else {
        s.len() as int
    }
}

pub proof fn lemma_find_from(s: Seq<char>, c: char, k: int)
    requires
        0 <= k <= s.len(),
    ensures
        k <= find_from(s, c, k) <= s.len(),
        find_from(s, c, k) < s.len() ==> s[find_from(s, c, k)] == c,
        forall|j: int| k <= j < find_from(s, c, k) ==> s[j] != c,
    decreases s.len() - k,
{
    if k < s.len() && s[k] != c {
        lemma_find_from(s, c, k + 1);
    }
}

/// Index of the first `c` in `s[k..hi]`, or `hi`.
pub fn find_char(s: &Vec<char>, c: char, k: usize, hi: usize) -> (r: usize)
    requires
        k <= hi <= s.len(),
    ensures
        r == find_from(s@.subrange(0, hi as int), c, k as int),
        k <= r <= hi,
{
    let ghost t = s@.subrange(0, hi as int);
    let mut i = k;
    while i < hi && s[i] != c
        invariant
            k <= i <= hi <= s.len(),
            t == s@.subrange(0, hi as int),
            find_from(t, c, k as int) == find_from(t, c, i as int),
        decreases hi - i,
    {
        i = i + 1;
    }
    i
}

/// The first `c` at or after `k` is at `e`.
pub proof fn lemma_find_at(s: Seq<char>, c: char, k: int, e: int)
    requires
        0 <= k <= e < s.len(),
        s[e] == c,
        forall|j: int| k <= j < e ==> s[j] != c,
    ensures
        find_from(s, c, k) == e,
    decreases e - k,
{
    if k < e {
        lemma_find_at(s, c, k + 1, e);
    }
}

/// `str::split_once(c)`: the text before and after the first `c`.
pub open spec fn split_once(s: Seq<char>, c: char) -> Option<(Seq<char>, Seq<char>)> {
    let i = find_from(s, c, 0);
    if i < s.len() {
        Some((s.take(i), s.skip(i + 1)))
    } else {
        None
    }
}

/// `str::split_once(c)` on a character vector.
pub fn split_once_chars(s: &Vec<char>, c: char) -> (r: Option<(Vec<char>, Vec<char>)>)
    ensures
        match r {
            Some((a, b)) => split_once(s@, c) == Some((a@, b@)),
            None => split_once(s@, c) is None,
        },
{
    let i = find_char(s, c, 0, s.len());
    assert(s@.subrange(0, s@.len() as int) == s@);
    if i < s.len() {
        let a = slice_chars(s, 0, i);
        let b = slice_chars(s, i + 1, s.len());
        assert(a@ == s@.take(i as int));
        assert(b@ == s@.skip(i + 1));
        Some((a, b))
    } else {
        None
    }
}

// ---------------------------------------------------------------------------
// Case
// ---------------------------------------------------------------------------

/// ASCII lower case of one character.
pub open spec fn ascii_lower(c: char) -> char {
    if 65 <= (c as u32) <= 90 {
        ((c as u32) + 32) as char
    } else {
        c
    }
}

/// ASCII upper case of one character.
pub open spec fn ascii_upper(c: char) -> char {
    if 97 <= (c as u32) <= 122 {
        ((c as u32) - 32) as char
    } else {
        c
    }
}

pub fn ascii_lower_exec(c: char) -> (r: char)
    ensures
        r == ascii_lower(c),
{
    if 65 <= (c as u32) && (c as u32) <= 90 {
        ((c as u8) + 32) as char
    } else {
        c
    }
}

pub fn ascii_upper_exec(c: char) -> (r: char)
    ensures
        r == ascii_upper(c),
{
    if 97 <= (c as u32) && (c as u32) <= 122 {
        ((c as u8) - 32) as char
    } else {
        c
    }
}

/// `str::eq_ignore_ascii_case`.
pub open spec fn eq_ignore_ascii_case(s: Seq<char>, t: Seq<char>) -> bool {
    s.len() == t.len() && forall|i: int| 0 <= i < s.len() ==> ascii_lower(s[i]) == ascii_lower(t[i])
}

pub fn eq_ignore_ascii_case_exec(s: &Vec<char>, t: &str) -> (b: bool)
    ensures
        b == eq_ignore_ascii_case(s@, t@),
{
    let tv = chars_of(t);
    if s.len() != tv.len() {
        return false;
    }
    for i in 0..s.len()
        invariant
            s@.len() == tv@.len(),
            tv@ == t@,
            forall|j: int| 0 <= j < i ==> ascii_lower(s@[j]) == ascii_lower(tv@[j]),
    {
        if ascii_lower_exec(s[i]) != ascii_lower_exec(tv[i]) {
            return false;
        }
    }
    true
}

/// Whether every character of `s` is ASCII.
pub open spec fn is_ascii_text(s: Seq<char>) -> bool {
    forall|i: int| 0 <= i < s.len() ==> (s[i] as u32) < 128
}

/// The ASCII lower case of a text, character by character.
pub open spec fn ascii_lower_text(s: Seq<char>) -> Seq<char> {
    s.map_values(|c: char| ascii_lower(c))
}

/// The ASCII upper case of a text, character by character.
pub open spec fn ascii_upper_text(s: Seq<char>) -> Seq<char> {
    s.map_values(|c: char| ascii_upper(c))
}

/// Upper-casing an ASCII character keeps it ASCII and keeps its lower case.
proof fn lemma_ascii_upper_char(c: char)
    requires
        (c as u32) < 128,
    ensures
        (ascii_upper(c) as u32) < 128,
        ascii_lower(ascii_upper(c)) == ascii_lower(c),
{
    if 97 <= (c as u32) <= 122 {
        let u = ascii_upper(c);
        assert(u as u32 == (c as u32) - 32);
        assert(((u as u32) + 32) as char == c) by {
            vstd::utf8::char_u32_cast(c, c as u32);
        }
    }
}

/// Upper-casing a text keeps whether it is ASCII.
pub proof fn lemma_ascii_upper_keeps_ascii(s: Seq<char>)
    ensures
        is_ascii_text(ascii_upper_text(s)) == is_ascii_text(s),
{
    let u = ascii_upper_text(s);
    assert forall|i: int| 0 <= i < s.len() implies ((u[i] as u32) < 128) == ((s[i] as u32) < 128) by {
        if 97 <= (s[i] as u32) <= 122 {
            lemma_ascii_upper_char(s[i]);
        }
    }
    if !is_ascii_text(s) {
        let i = choose|i: int| 0 <= i < s.len() && !((s[i] as u32) < 128);
        assert(!((u[i] as u32) < 128));
    }
}

/// Upper-casing an ASCII text keeps it ASCII and keeps its lower case.
pub proof fn lemma_ascii_upper_text(s: Seq<char>)
    requires
        is_ascii_text(s),
    ensures
        is_ascii_text(ascii_upper_text(s)),
        lower(ascii_upper_text(s)) == lower(s),
{
    let u = ascii_upper_text(s);
    assert forall|i: int| 0 <= i < s.len() implies (u[i] as u32) < 128 && ascii_lower(u[i]) == ascii_lower(s[i]) by {
        lemma_ascii_upper_char(s[i]);
    }
    assert(ascii_lower_text(u) =~= ascii_lower_text(s));
}

/// What `str::to_lowercase` returns for the given text.
pub uninterp spec fn lowercase(s: Seq<char>) -> Seq<char>;

/// The lower case of a text: for ASCII text its ASCII lower case, for any
/// other text what `str::to_lowercase` returns.
pub open spec fn lower(s: Seq<char>) -> Seq<char> {
    if is_ascii_text(s) {
        ascii_lower_text(s)
    } else {
        lowercase(s)
    }
}

/// `str::to_lowercase`: the Unicode lower case of `s`, named by `lowercase`.
/// Two facts of it are claimed.  On ASCII text it is the ASCII lower case,
/// character by character (Unicode lower-cases `A`..`Z` to `a`..`z` and
/// keeps every other ASCII character).  And the ASCII upper case of `s` has
/// the same lower case as `s`: `a`..`z` and `A`..`Z` both lower-case to
/// `a`..`z`, and the one rule that looks at neighbouring characters (a final
/// capital sigma) treats both as cased letters alike.  Of other text nothing
/// more is claimed.
#[verifier::external_body]
pub(crate) fn to_lowercase(s: &str) -> (r: String)
    ensures
        r@ == lowercase(s@),
        is_ascii_text(s@) ==> r@ == ascii_lower_text(s@),
        lowercase(ascii_upper_text(s@)) == r@,
{
    s.to_lowercase()
}

// ---------------------------------------------------------------------------
// Decimal numbers
// ---------------------------------------------------------------------------

/// The ASCII digit for `d < 10`.
pub open spec fn digit_char(d: nat) -> char {
    (d + 48) as char
}

/// The decimal representation of `n`, as `to_string` writes it.
pub open spec fn decimal(n: nat) -> Seq<char>
    decreases n,
{
    if n < 10 {
        seq![digit_char(n)]
    } else {
        decimal(n / 10).push(digit_char(n % 10))
    }
}

/// The decimal representation of `n`.
pub fn decimal_chars(n: u64) -> (r: Vec<char>)
    ensures
        r@ == decimal(n as nat),
    decreases n,
{
    if n < 10 {
        let c = ((n as u8) + 48) as char;
        let mut r: Vec<char> = Vec::new();
        r.push(c);
        assert(r@ =~= seq![digit_char(n as nat)]);
        r
    } else {
        let mut r = decimal_chars(n / 10);
        let c = (((n % 10) as u8) + 48) as char;
        r.push(c);
        r
    }
}

/// The decimal representation of `n`, as a string.
pub fn decimal_string(n: u64) -> (s: String)
    ensures
        s@ == decimal(n as nat),
{
    let v = decimal_chars(n);
    string_from(&v)
}

pub open spec fn is_digit(c: char) -> bool {
    48 <= (c as u32) <= 57
}

pub open spec fn digit_value(c: char) -> nat {
    ((c as u32) - 48) as nat
}

/// The value of a string of decimal digits.
pub open spec fn digits_value(d: Seq<char>) -> nat
    decreases d.len(),
{
    if d.len() == 0 {
        0
    } else {
        digits_value(d.drop_last()) * 10 + digit_value(d.last())
    }
}

pub open spec fn all_digits(d: Seq<char>) -> bool {
    forall|i: int| 0 <= i < d.len() ==> is_digit(d[i])
}

/// The digits of an unsigned number: the text without one leading `'+'`.
pub open spec fn unsigned_digits(s: Seq<char>) -> Seq<char> {
    if s.len() > 0 && s[0] == '+' {
        s.drop_first()
    } else {
        s
    }
}

/// What `str::parse` gives for an unsigned integer type whose largest value
/// is `max`: the value when the text is an optional `'+'` and at least one
/// digit, and the value fits.
pub open spec fn parse_unsigned(s: Seq<char>, max: nat) -> Option<nat> {
    let d = unsigned_digits(s);
    if d.len() > 0 && all_digits(d) && digits_value(d) <= max {
        Some(digits_value(d))
    } else {
        None
    }
}

proof fn lemma_digits_value_grows(d: Seq<char>, j: int)
    requires
        0 <= j <= d.len(),
    ensures
        digits_value(d.take(j)) <= digits_value(d),
    decreases d.len() - j,
{
    if j < d.len() {
        lemma_digits_value_grows(d, j + 1);
        assert(d.take(j + 1).drop_last() == d.take(j));
    } else {
        assert(d.take(j) == d);
    }
}

/// Parses an unsigned integer of at most `max`, as `str::parse` does.
pub fn parse_unsigned_chars(s: &Vec<char>, max: u64) -> (r: Option<u64>)
    ensures
        match r {
            Some(v) => parse_unsigned(s@, max as nat) == Some(v as nat),
            None => parse_unsigned(s@, max as nat) is None,
        },
{
    let ghost d = unsigned_digits(s@);
    let b: usize = if s.len() > 0 && s[0] == '+' { 1 } else { 0 };
    assert(d == s@.skip(b as int));
    if b == s.len() {
        return None;
    }
    let mut acc: u64 = 0;
    let mut i = b;
    while i < s.len()
        invariant
            b <= i <= s.len(),
            d == s@.skip(b as int),
            d == unsigned_digits(s@),
            acc as nat == digits_value(d.take(i - b)),
            acc <= max,
            forall|j: int| 0 <= j < i - b ==> is_digit(d[j]),
        decreases s.len() - i,
    {
        let c = s[i];
        assert(d[i - b] == c);
        if !((c as u32) >= 48 && (c as u32) <= 57) {
            assert(!is_digit(d[i - b]));
            return None;
        }
        let dv = (c as u32 - 48) as u64;
        assert(d.take(i - b + 1).drop_last() == d.take(i - b));
        if dv > max || acc > (max - dv) / 10 {
            proof {
                assert(acc * 10 + dv > max) by (nonlinear_arith)
                    requires
                        dv > max || acc > (max - dv) / 10,
                        dv <= 9,
                ;
                lemma_digits_value_grows(d, i - b + 1);
            }
            return None;
        }
        proof {
            assert(acc * 10 + dv <= max) by (nonlinear_arith)
                requires
                    acc <= (max - dv) / 10,
                    dv <= max,
            ;
        }
        acc = acc * 10 + dv;
        i = i + 1;
    }
    assert(d.take(i - b) == d);
    Some(acc)
}

// ---------------------------------------------------------------------------
// Replacement
// ---------------------------------------------------------------------------

/// `str::replace`: every non-overlapping occurrence of `p` in `s`, from left
/// to right, replaced by `r`.  An empty `p` matches before every character and
/// at the end.
pub open spec fn replace_all(s: Seq<char>, p: Seq<char>, r: Seq<char>) -> Seq<char>
    decreases s.len(),
{
    if p.len() == 0 {
        if s.len() == 0 {
            r
        } else {
            r + seq![s[0]] + replace_all(s.drop_first(), p, r)
        }
    } else if has_prefix(s, p) {
        r + replace_all(s.skip(p.len() as int), p, r)
    } else if s.len() == 0 {
        seq![]
    } else {
        seq![s[0]] + replace_all(s.drop_first(), p, r)
    }
}

/// `str::replace` on character vectors.
pub fn replace_chars(s: &Vec<char>, p: &Vec<char>, r: &Vec<char>) -> (out: Vec<char>)
    ensures
        out@ == replace_all(s@, p@, r@),
{
    let mut out: Vec<char> = Vec::new();
    let mut i: usize = 0;
    assert(s@.skip(0) == s@);
    while i < s.len()
        invariant
            i <= s.len(),
            replace_all(s@, p@, r@) == out@ + replace_all(s@.skip(i as int), p@, r@),
        decreases s.len() - i,
    {
        let ghost rest = s@.skip(i as int);
        let ghost old_out = out@;
        if p.len() > 0 && occurs_at_exec(s, p, i) {
            assert(rest.take(p@.len() as int) == s@.subrange(i as int, i + p@.len()));
            assert(rest.skip(p@.len() as int) == s@.skip(i + p@.len()));
            append_chars(&mut out, r);
            assert(out@ + replace_all(s@.skip(i + p@.len()), p@, r@) =~= old_out + replace_all(
                rest,
                p@,
                r@,
            ));
            i = i + p.len();
        } else {
            if p.len() > 0 {
                assert(!has_prefix(rest, p@)) by {
                    if has_prefix(rest, p@) {
                        assert(rest.take(p@.len() as int) == s@.subrange(i as int, i + p@.len()));
                    }
                }
            } else {
                append_chars(&mut out, r);
            }
            out.push(s[i]);
            assert(rest.drop_first() == s@.skip(i + 1));
            assert(rest[0] == s@[i as int]);
            assert(out@ + replace_all(s@.skip(i + 1), p@, r@) =~= old_out + replace_all(
                rest,
                p@,
                r@,
            ));
            i = i + 1;
        }
    }
    let ghost old_out = out@;
    if p.len() == 0 {
        append_chars(&mut out, r);
    }
    assert(s@.skip(i as int) =~= Seq::<char>::empty());
    assert(out@ =~= old_out + replace_all(s@.skip(i as int), p@, r@));
    out
}

// ---------------------------------------------------------------------------
// Splitting on one character, stripping, joining
// ---------------------------------------------------------------------------

/// The pieces of `s[start..]` between occurrences of `c`, scanning from `k`.
pub open spec fn split_from(s: Seq<char>, c: char, start: int, k: int) -> Seq<Seq<char>>
    decreases s.len() - k,
{
    if k < s.len() {
        if s[k] == c {
            seq![s.subrange(start, k)] + split_from(s, c, k + 1, k + 1)
        } else {
            split_from(s, c, start, k + 1)
        }
    } else {
        seq![s.subrange(start, s.len() as int)]
    }
}

/// Splitting gives at least one piece.
pub proof fn lemma_split_from_nonempty(s: Seq<char>, c: char, start: int, k: int)
    ensures
        split_from(s, c, start, k).len() >= 1,
    decreases s.len() - k,
{
    if k < s.len() && s[k] != c {
        lemma_split_from_nonempty(s, c, start, k + 1);
    }
}

/// `str::split(c)`: the pieces between the occurrences of `c`, empty pieces
/// included.
pub open spec fn split_char(s: Seq<char>, c: char) -> Seq<Seq<char>> {
    split_from(s, c, 0, 0)
}

/// `str::split(c)` on a character vector.
pub fn split_char_exec(s: &Vec<char>, c: char) -> (r: Vec<Vec<char>>)
    ensures
        views(r@) == split_char(s@, c),
{
    let mut r: Vec<Vec<char>> = Vec::new();
    let mut start: usize = 0;
    let mut k: usize = 0;
    while k < s.len()
        invariant
            start <= k <= s.len(),
            views(r@) + split_from(s@, c, start as int, k as int) == split_char(s@, c),
        decreases s.len() - k,
    {
        if s[k] == c {
            let piece = slice_chars(s, start, k);
            let ghost old_r = views(r@);
            r.push(piece);
            assert(views(r@) =~= old_r.push(s@.subrange(start as int, k as int)));
            assert(old_r + split_from(s@, c, start as int, k as int) =~= views(r@) + split_from(
                s@,
                c,
                k + 1,
                k + 1,
            ));
            start = k + 1;
        }
        k = k + 1;
    }
    let piece = slice_chars(s, start, s.len());
    let ghost old_r = views(r@);
    r.push(piece);
    assert(views(r@) =~= old_r.push(s@.subrange(start as int, s@.len() as int)));
    assert(views(r@) =~= old_r + split_from(s@, c, start as int, k as int));
    r
}

/// Index of the first character of `s` at or after `i` that is not `c`.
pub open spec fn skip_char(s: Seq<char>, c: char, i: int) -> int
    decreases s.len() - i,
{
    if 0 <= i < s.len() && s[i] == c {
        skip_char(s, c, i + 1)
    } else {
        i
    }
}

/// Index just after the last character of `s` before `j` that is not `c`.
pub open spec fn back_char(s: Seq<char>, c: char, j: int) -> int
    decreases j,
{
    if 0 < j <= s.len() && s[j - 1] == c {
        back_char(s, c, j - 1)
    } else {
        j
    }
}

/// `str::trim_start_matches(c)`: `s` without the `c`s it begins with.
pub open spec fn trim_start_char(s: Seq<char>, c: char) -> Seq<char> {
    s.skip(skip_char(s, c, 0))
}

/// `str::trim_end_matches(c)`: `s` without the `c`s it ends with.
pub open spec fn trim_end_char(s: Seq<char>, c: char) -> Seq<char> {
    s.take(back_char(s, c, s.len() as int))
}

/// `str::trim_start_matches(c)` on a character vector.
pub fn trim_start_char_exec(s: &Vec<char>, c: char) -> (r: Vec<char>)
    ensures
        r@ == trim_start_char(s@, c),
{
    let mut i: usize = 0;
    while i < s.len() && s[i] == c
        invariant
            i <= s.len(),
            skip_char(s@, c, 0) == skip_char(s@, c, i as int),
        decreases s.len() - i,
    {
        i = i + 1;
    }
    let r = slice_chars(s, i, s.len());
    assert(r@ =~= s@.skip(i as int));
    r
}

/// `str::trim_end_matches(c)` on a character vector.
pub fn trim_end_char_exec(s: &Vec<char>, c: char) -> (r: Vec<char>)
    ensures
        r@ == trim_end_char(s@, c),
{
    let mut j: usize = s.len();
    while j > 0 && s[j - 1] == c
        invariant
            j <= s.len(),
            back_char(s@, c, s@.len() as int) == back_char(s@, c, j as int),
        decreases j,
    {
        j = j - 1;
    }
    let r = slice_chars(s, 0, j);
    assert(r@ =~= s@.take(j as int));
    r
}

/// `p` removed from the front of `s`, when `s` begins with it
/// (`str::strip_prefix`).
pub open spec fn strip_prefix(s: Seq<char>, p: Seq<char>) -> Option<Seq<char>> {
    if has_prefix(s, p) {
        Some(s.skip(p.len() as int))
    } else {
        None
    }
}

/// `str::strip_prefix` on character vectors.
pub fn strip_prefix_exec(s: &Vec<char>, p: &Vec<char>) -> (r: Option<Vec<char>>)
    ensures
        match r {
            Some(t) => strip_prefix(s@, p@) == Some(t@),
            None => strip_prefix(s@, p@) is None,
        },
{
    if starts_with(s, p) {
        let t = slice_chars(s, p.len(), s.len());
        assert(t@ =~= s@.skip(p@.len() as int));
        Some(t)
    } else {
        None
    }
}

/// The pieces joined with `sep` between them (`join`).
pub open spec fn join(pieces: Seq<Seq<char>>, sep: Seq<char>) -> Seq<char>
    decreases pieces.len(),
{
    if pieces.len() == 0 {
        seq![]
    } else if pieces.len() == 1 {
        pieces[0]
    } else {
        join(pieces.drop_last(), sep) + sep + pieces.last()
    }
}

/// The strings joined with `sep` between them.
pub fn join_strings(pieces: &Vec<String>, sep: &str) -> (r: String)
    ensures
        r@ == join(pieces@.map_values(|x: String| x@), sep@),
{
    let ghost pv = pieces@.map_values(|x: String| x@);
    let mut out: Vec<char> = Vec::new();
    for i in 0..pieces.len()
        invariant
            pv == pieces@.map_values(|x: String| x@),
            out@ == join(pv.take(i as int), sep@),
    {
        let ghost before = out@;
        if i > 0 {
            append_str(&mut out, sep);
        }
        append_str(&mut out, pieces[i].as_str());
        assert(pv.take(i + 1).drop_last() =~= pv.take(i as int));
        assert(pv.take(i + 1).last() == pieces@[i as int]@);
        if i == 0 {
            assert(pv.take(1)[0] == pieces@[0]@);
        }
    }
    assert(pv.take(pieces.len() as int) =~= pv);
    string_from(&out)
}

/// `s` cut to at most `n` characters (the `{:.n}` format of a string).
pub open spec fn truncate(s: Seq<char>, n: nat) -> Seq<char> {
    if s.len() <= n {
        s
    } else {
        s.take(n as int)
    }
}

/// `s` cut to at most `n` characters.
pub fn truncate_chars(s: &Vec<char>, n: usize) -> (r: Vec<char>)
    ensures
        r@ == truncate(s@, n as nat),
{
    if s.len() <= n {
        slice_chars(s, 0, s.len())
    } else {
        slice_chars(s, 0, n)
    }
}

/// `str::splitn(n, c)`: at most `n` pieces; the last holds the rest.
pub open spec fn splitn(s: Seq<char>, c: char, n: nat) -> Seq<Seq<char>>
    decreases n,
{
    if n == 0 {
        seq![]
    } else if n == 1 {
        seq![s]
    } else {
        let i = find_from(s, c, 0);
        if i < s.len() {
            seq![s.take(i)] + splitn(s.skip(i + 1), c, (n - 1) as nat)
        } else {
            seq![s]
        }
    }
}

/// `str::splitn(n, c)` on a character vector.
pub fn splitn_exec(s: &Vec<char>, c: char, n: usize) -> (r: Vec<Vec<char>>)
    ensures
        views(r@) == splitn(s@, c, n as nat),
    decreases n,
{
    let mut r: Vec<Vec<char>> = Vec::new();
    if n == 0 {
        assert(views(r@) =~= Seq::<Seq<char>>::empty());
        return r;
    }
    if n == 1 {
        r.push(slice_chars(s, 0, s.len()));
        assert(s@.subrange(0, s@.len() as int) == s@);
        assert(views(r@) =~= seq![s@]);
        return r;
    }
    let i = find_char(s, c, 0, s.len());
    assert(s@.subrange(0, s@.len() as int) == s@);
    if i < s.len() {
        let head = slice_chars(s, 0, i);
        let rest = slice_chars(s, i + 1, s.len());
        assert(rest@ == s@.skip(i + 1));
        let tail = splitn_exec(&rest, c, n - 1);
        r.push(head);
        let ghost h = views(r@);
        assert(h =~= seq![s@.take(i as int)]);
        let mut tail = tail;
        r.append(&mut tail);
        assert(views(r@) =~= h + splitn(rest@, c, (n - 1) as nat));
        r
    } else {
        r.push(slice_chars(s, 0, s.len()));
        assert(views(r@) =~= seq![s@]);
        r
    }
}

/// The values present in `s`, in order.
pub open spec fn keep_some<A>(s: Seq<Option<A>>) -> Seq<A>
    decreases s.len(),
{
    if s.len() == 0 {
        seq![]
    } else {
        match s[0] {
            Some(a) => seq![a] + keep_some(s.drop_first()),
            None => keep_some(s.drop_first()),
        }
    }
}

/// One step of a loop that keeps the present values: `keep_some(s)` is what
/// was kept of `s[..i]` followed by what will be kept of `s[i..]`.
pub proof fn lemma_keep_some_step<A>(s: Seq<Option<A>>, i: int)
    requires
        0 <= i < s.len(),
    ensures
        keep_some(s.skip(i)) == (match s[i] {
            Some(a) => seq![a],
            None => Seq::<A>::empty(),
        }) + keep_some(s.skip(i + 1)),
{
    let t = s.skip(i);
    assert(t[0] == s[i]);
    assert(t.drop_first() =~= s.skip(i + 1));
    if s[i] is None {
        assert(Seq::<A>::empty() + keep_some(s.skip(i + 1)) =~= keep_some(s.skip(i + 1)));
    }
}

/// Keeping the present values of a sequence keeps those of all but its last
/// element, then the last one if it is present.
pub proof fn lemma_keep_some_snoc<A>(s: Seq<Option<A>>)
    requires
        s.len() > 0,
    ensures
        keep_some(s) == keep_some(s.drop_last()) + (match s.last() {
            Some(a) => seq![a],
            None => Seq::<A>::empty(),
        }),
    decreases s.len(),
{
    if s.len() == 1 {
        assert(s.drop_first() =~= Seq::<Option<A>>::empty());
        assert(s.drop_last() =~= Seq::<Option<A>>::empty());
        assert(keep_some(s) =~= keep_some(s.drop_last()) + (match s.last() {
            Some(a) => seq![a],
            None => Seq::<A>::empty(),
        }));
    } else {
        let t = s.drop_first();
        lemma_keep_some_snoc(t);
        assert(t.drop_last() =~= s.drop_last().drop_first());
        assert(s.drop_last()[0] == s[0]);
        assert(t.last() == s.last());
        let head = match s[0] {
            Some(a) => seq![a],
            None => Seq::<A>::empty(),
        };
        let tail = match s.last() {
            Some(a) => seq![a],
            None => Seq::<A>::empty(),
        };
        assert(keep_some(s) =~= head + keep_some(t));
        assert(keep_some(s.drop_last()) =~= head + keep_some(s.drop_last().drop_first()));
        assert(head + (keep_some(t.drop_last()) + tail) =~= (head + keep_some(t.drop_last())) + tail);
    }
}

/// The present values of `s` mapped by `f`, where `f` gives `g(a)` exactly for
/// the `a` that pass `q`, are the elements of `s` that pass `q`, mapped by `g`.
pub proof fn lemma_keep_some_filter<A, B>(
    s: Seq<A>,
    f: spec_fn(A) -> Option<B>,
    q: spec_fn(A) -> bool,
    g: spec_fn(A) -> B,
)
    requires
        forall|a: A| #[trigger] f(a) == (if q(a) { Some(g(a)) } else { None }),
    ensures
        keep_some(s.map_values(f)) == s.filter(q).map_values(g),
    decreases s.len(),
{
    if s.len() == 0 {
        reveal(Seq::filter);
        assert(s.map_values(f) =~= Seq::<Option<B>>::empty());
        assert(s.filter(q).map_values(g) =~= Seq::<B>::empty());
    } else {
        let m = s.map_values(f);
        lemma_keep_some_snoc(m);
        assert(m.drop_last() =~= s.drop_last().map_values(f));
        lemma_keep_some_filter(s.drop_last(), f, q, g);
        assert(m.last() == f(s.last()));
        let rest = s.drop_last().filter(q);
        reveal(Seq::filter);
        if q(s.last()) {
            assert(s.filter(q) == rest.push(s.last()));
            assert(rest.push(s.last()).map_values(g) =~= rest.map_values(g) + seq![g(s.last())]);
        } else {
            assert(s.filter(q) == rest);
            assert(rest.map_values(g) + Seq::<B>::empty() =~= rest.map_values(g));
        }
    }
}

/// The values kept of two sequences put together are those of the first,
/// then those of the second.
pub proof fn lemma_keep_some_append<A>(a: Seq<Option<A>>, b: Seq<Option<A>>)
    ensures
        keep_some(a + b) == keep_some(a) + keep_some(b),
    decreases a.len(),
{
    if a.len() == 0 {
        assert(a + b =~= b);
        assert(Seq::<A>::empty() + keep_some(b) =~= keep_some(b));
    } else {
        lemma_keep_some_append(a.drop_first(), b);
        assert((a + b).drop_first() =~= a.drop_first() + b);
        assert((a + b)[0] == a[0]);
        let head = match a[0] {
            Some(x) => seq![x],
            None => Seq::<A>::empty(),
        };
        assert(keep_some(a + b) =~= head + keep_some(a.drop_first() + b));
        assert(keep_some(a) =~= head + keep_some(a.drop_first()));
        assert(head + (keep_some(a.drop_first()) + keep_some(b)) =~= (head + keep_some(a.drop_first()))
            + keep_some(b));
    }
}

/// Every value kept was present in `s`.
pub proof fn lemma_keep_some_from<A>(s: Seq<Option<A>>, k: int)
    requires
        0 <= k < keep_some(s).len(),
    ensures
        exists|j: int| 0 <= j < s.len() && s[j] == Some(keep_some(s)[k]),
    decreases s.len(),
{
    if s.len() > 0 {
        let t = s.drop_first();
        match s[0] {
            Some(x) => {
                if k == 0 {
                    assert(s[0] == Some(keep_some(s)[0]));
                } else {
                    assert(keep_some(s)[k] == keep_some(t)[k - 1]);
                    lemma_keep_some_from(t, k - 1);
                    let j = choose|j: int| 0 <= j < t.len() && t[j] == Some(keep_some(t)[k - 1]);
                    assert(s[j + 1] == t[j]);
                }
            },
            None => {
                lemma_keep_some_from(t, k);
                let j = choose|j: int| 0 <= j < t.len() && t[j] == Some(keep_some(t)[k]);
                assert(s[j + 1] == t[j]);
            },
        }
    }
}

/// A value present in `s` is among the values kept.
pub proof fn lemma_keep_some_has<A>(s: Seq<Option<A>>, i: int)
    requires
        0 <= i < s.len(),
        s[i] is Some,
    ensures
        keep_some(s).contains(s[i]->0),
    decreases s.len(),
{
    if i == 0 {
        assert(keep_some(s)[0] == s[0]->0);
    } else {
        lemma_keep_some_has(s.drop_first(), i - 1);
        let k = choose|k: int| 0 <= k < keep_some(s.drop_first()).len() && keep_some(s.drop_first())[k] == s[i]->0;
        match s[0] {
            Some(a) => {
                assert(keep_some(s)[k + 1] == keep_some(s.drop_first())[k]);
            },
            None => {},
        }
    }
}

pub proof fn lemma_keep_some_end<A>(s: Seq<Option<A>>)
    ensures
        keep_some(s.skip(s.len() as int)) == Seq::<A>::empty(),
{
    assert(s.skip(s.len() as int) =~= Seq::<Option<A>>::empty());
}

} // verus!
