//! Translation between Windows paths and WSL paths.
use vstd::prelude::*;

use crate::config::PathMapping;
use crate::text::{
    append_chars, ascii_lower, ascii_lower_exec, ascii_upper, ascii_upper_exec, chars_of,
    has_prefix, slice_chars, starts_with, string_from,
};

verus! {

broadcast use vstd::string::group_string_axioms;

/// `s` with every `a` replaced by `b` (`str::replace` of one character by one
/// character).
pub open spec fn swap_char(s: Seq<char>, a: char, b: char) -> Seq<char> {
    Seq::new(s.len(), |i: int| if s[i] == a { b } else { s[i] })
}

/// Appends `s[from..]` to `out`, each `a` written as `b`.
fn push_swapped(out: &mut Vec<char>, s: &Vec<char>, from: usize, a: char, b: char)
    requires
        from <= s.len(),
    ensures
        final(out)@ == old(out)@ + swap_char(s@.skip(from as int), a, b),
{
    let mut i = from;
    while i < s.len()
        invariant
            from <= i <= s.len(),
            out@ == old(out)@ + swap_char(s@.subrange(from as int, i as int), a, b),
        decreases s.len() - i,
    {
        let c = if s[i] == a { b } else { s[i] };
        out.push(c);
        assert(swap_char(s@.subrange(from as int, i + 1), a, b) =~= swap_char(
            s@.subrange(from as int, i as int),
            a,
            b,
        ).push(c));
        i = i + 1;
    }
    assert(s@.subrange(from as int, i as int) == s@.skip(from as int));
}

/// The result of applying the first mapping of `ms` that fits `p`: a path that
/// begins with a mapping's `from_prefix` gets its `to_prefix` in its place; one
/// that begins with its `to_prefix` gets its `from_prefix`.  A path that no
/// mapping fits is unchanged.
pub open spec fn map_path(p: Seq<char>, ms: Seq<PathMapping>) -> Seq<char>
    decreases ms.len(),
{
    if ms.len() == 0 {
        p
    } else if has_prefix(p, ms[0].from_prefix@) {
        ms[0].to_prefix@ + p.skip(ms[0].from_prefix@.len() as int)
    } else if has_prefix(p, ms[0].to_prefix@) {
        ms[0].from_prefix@ + p.skip(ms[0].to_prefix@.len() as int)
    } else {
        map_path(p, ms.drop_first())
    }
}

/// Rewrites `p` by the first mapping that fits it (see `map_path`).
pub fn map_chars(p: &Vec<char>, mappings: &[PathMapping]) -> (r: Vec<char>)
    ensures
        r@ == map_path(p@, mappings@),
{
    let mut i: usize = 0;
    assert(mappings@.skip(0) == mappings@);
    while i < mappings.len()
        invariant
            i <= mappings@.len(),
            map_path(p@, mappings@) == map_path(p@, mappings@.skip(i as int)),
        decreases mappings.len() - i,
    {
        let ghost rest = mappings@.skip(i as int);
        assert(rest[0] == mappings@[i as int]);
        let from = chars_of(mappings[i].from_prefix.as_str());
        let to = chars_of(mappings[i].to_prefix.as_str());
        if starts_with(p, &from) {
            let mut r = to;
            let tail = slice_chars(p, from.len(), p.len());
            append_chars(&mut r, &tail);
            assert(tail@ == p@.skip(from@.len() as int));
            return r;
        }
        if starts_with(p, &to) {
            let mut r = from;
            let tail = slice_chars(p, to.len(), p.len());
            append_chars(&mut r, &tail);
            assert(tail@ == p@.skip(to@.len() as int));
            return r;
        }
        assert(rest.drop_first() == mappings@.skip(i + 1));
        i = i + 1;
    }
    assert(mappings@.skip(i as int) =~= Seq::<PathMapping>::empty());
    slice_chars(p, 0, p.len())
}

/// Rewrites `path` by the first mapping that fits it (see `map_path`).
pub fn apply(path: &str, mappings: &[PathMapping]) -> (r: String)
    ensures
        r@ == map_path(path@, mappings@),
{
    let p = chars_of(path);
    let r = map_chars(&p, mappings);
    string_from(&r)
}

/// The prefix under which WSL mounts Windows drives.
pub open spec fn mnt_prefix() -> Seq<char> {
    seq!['/', 'm', 'n', 't', '/']
}

/// `path` names a location on a Windows drive: a drive letter (one ASCII
/// character), a colon, and at least one character more.
pub open spec fn is_drive_path(s: Seq<char>) -> bool {
    s.len() > 2 && (s[0] as u32) < 128 && s[1] == ':'
}

/// `windows_to_wsl` as a function on text: `X:rest` becomes
/// `/mnt/x` followed by `rest` with backslashes turned into slashes.
pub open spec fn windows_to_wsl_spec(s: Seq<char>) -> Seq<char> {
    if is_drive_path(s) {
        mnt_prefix().push(ascii_lower(s[0])) + swap_char(s.skip(2), '\\', '/')
    } else {
        s
    }
}

/// `path` lies under `/mnt/` with at least one character after it.
pub open spec fn is_mnt_path(s: Seq<char>) -> bool {
    has_prefix(s, mnt_prefix()) && s.len() > 5
}

/// `wsl_to_windows` as a function on text: `/mnt/x` followed by `rest`
/// becomes `X:` followed by `rest` with slashes turned into backslashes.
pub open spec fn wsl_to_windows_spec(s: Seq<char>) -> Seq<char> {
    if is_mnt_path(s) {
        seq![ascii_upper(s[5]), ':'] + swap_char(s.skip(6), '/', '\\')
    } else {
        s
    }
}

/// Converts a Windows path such as `C:\Users\me` to the WSL path
/// `/mnt/c/Users/me`; any other text is returned as it is.
pub fn windows_to_wsl(path: &str) -> (r: String)
    ensures
        r@ == windows_to_wsl_spec(path@),
{
    let v = chars_of(path);
    if v.len() > 2 && (v[0] as u32) < 128 && v[1] == ':' {
        let mut out: Vec<char> = Vec::new();
        out.push('/');
        out.push('m');
        out.push('n');
        out.push('t');
        out.push('/');
        out.push(ascii_lower_exec(v[0]));
        assert(out@ =~= mnt_prefix().push(ascii_lower(v@[0])));
        push_swapped(&mut out, &v, 2, '\\', '/');
        string_from(&out)
    } else {
        string_from(&v)
    }
}

/// Converts a WSL path such as `/mnt/c/Users/me` to the Windows path
/// `C:\Users\me`; any other text is returned as it is.  The drive letter
/// must be one ASCII character.
pub fn wsl_to_windows(path: &str) -> (r: String)
    requires
        is_mnt_path(path@) ==> (path@[5] as u32) < 128,
    ensures
        r@ == wsl_to_windows_spec(path@),
{
    let v = chars_of(path);
    let mut prefix: Vec<char> = Vec::new();
    prefix.push('/');
    prefix.push('m');
    prefix.push('n');
    prefix.push('t');
    prefix.push('/');
    assert(prefix@ =~= mnt_prefix());
    if starts_with(&v, &prefix) && v.len() > 5 {
        let mut out: Vec<char> = Vec::new();
        out.push(ascii_upper_exec(v[5]));
        out.push(':');
        assert(out@ =~= seq![ascii_upper(v@[5]), ':']);
        push_swapped(&mut out, &v, 6, '/', '\\');
        string_from(&out)
    } else {
        string_from(&v)
    }
}

/// A Windows drive path whose drive letter is an upper-case ASCII letter and
/// whose rest holds no slash comes back unchanged from WSL form.
pub proof fn lemma_windows_wsl_roundtrip(p: Seq<char>)
    requires
        p.len() > 2,
        65 <= (p[0] as u32) <= 90,
        p[1] == ':',
        forall|i: int| 2 <= i < p.len() ==> p[i] != '/',
    ensures
        is_mnt_path(windows_to_wsl_spec(p)) ==> (windows_to_wsl_spec(p)[5] as u32) < 128,
        wsl_to_windows_spec(windows_to_wsl_spec(p)) == p,
{
    let q = windows_to_wsl_spec(p);
    assert(q.take(5) =~= mnt_prefix());
    assert(q[5] == ascii_lower(p[0]));
    vstd::utf8::char_u32_cast(p[0], p[0] as u32);
    assert(ascii_upper(ascii_lower(p[0])) == p[0]);
    assert(q.skip(6) =~= swap_char(p.skip(2), '\\', '/'));
    assert(swap_char(q.skip(6), '/', '\\') =~= p.skip(2));
    assert(wsl_to_windows_spec(q) =~= p);
}

/// A WSL path under `/mnt/` with a lower-case ASCII drive letter, at least one
/// character after it and no backslash comes back unchanged from Windows form.
pub proof fn lemma_wsl_windows_roundtrip(q: Seq<char>)
    requires
        q.len() > 6,
        q.take(5) == mnt_prefix(),
        97 <= (q[5] as u32) <= 122,
        forall|i: int| 6 <= i < q.len() ==> q[i] != '\\',
    ensures
        windows_to_wsl_spec(wsl_to_windows_spec(q)) == q,
{
    let p = wsl_to_windows_spec(q);
    assert(is_mnt_path(q));
    assert(p[0] == ascii_upper(q[5]));
    vstd::utf8::char_u32_cast(q[5], q[5] as u32);
    assert(ascii_lower(ascii_upper(q[5])) == q[5]);
    assert(p.skip(2) =~= swap_char(q.skip(6), '/', '\\'));
    assert(swap_char(p.skip(2), '\\', '/') =~= q.skip(6));
    assert(is_drive_path(p));
    assert(windows_to_wsl_spec(p) =~= q);
}

/// Neither prefix of the mapping is a prefix of the other.
pub open spec fn prefixes_distinct(m: PathMapping) -> bool {
    !has_prefix(m.from_prefix@, m.to_prefix@) && !has_prefix(m.to_prefix@, m.from_prefix@)
}

/// With one mapping whose two prefixes are not prefixes of each other,
/// mapping a path twice gives the path back: Windows and WSL forms are
/// exchanged and exchanged back.
pub proof fn lemma_map_path_involution(p: Seq<char>, m: PathMapping)
    requires
        prefixes_distinct(m),
    ensures
        map_path(map_path(p, seq![m]), seq![m]) == p,
{
    let ms = seq![m];
    let f = m.from_prefix@;
    let t = m.to_prefix@;
    assert(ms[0] == m);
    assert(ms.drop_first() =~= Seq::<PathMapping>::empty());
    if has_prefix(p, f) {
        let q = t + p.skip(f.len() as int);
        assert(map_path(p, ms) == q);
        assert(q.take(t.len() as int) =~= t);
        assert(!has_prefix(q, f)) by {
            if has_prefix(q, f) {
                if f.len() <= t.len() {
                    assert(t.take(f.len() as int) =~= q.take(f.len() as int));
                } else {
                    assert(f.take(t.len() as int) =~= q.take(t.len() as int));
                }
            }
        }
        assert(has_prefix(q, t));
        assert(map_path(q, ms) == f + q.skip(t.len() as int));
        assert(q.skip(t.len() as int) =~= p.skip(f.len() as int));
        assert(f + p.skip(f.len() as int) =~= p);
    } else if has_prefix(p, t) {
        let q = f + p.skip(t.len() as int);
        assert(map_path(p, ms) == q);
        assert(q.take(f.len() as int) =~= f);
        assert(has_prefix(q, f));
        assert(map_path(q, ms) == t + q.skip(f.len() as int));
        assert(q.skip(f.len() as int) =~= p.skip(t.len() as int));
        assert(t + p.skip(t.len() as int) =~= p);
    } else {
        assert(map_path(p, ms) == map_path(p, ms.drop_first()));
    }
}

} // verus!
