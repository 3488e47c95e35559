//! Read-only introspection of a WSL distribution: the reading of what the
//! introspection commands print.
use vstd::prelude::*;

use crate::text::{
    append_chars, chars_eq_str, chars_of, contains, contains_seq, join, keep_some,
    lemma_keep_some_end, lemma_keep_some_step, lines, lines_of, lower, parse_unsigned,
    parse_unsigned_chars, split_once, split_once_chars, string_from, to_lowercase, trim, trim_chars,
    trim_end_char, trim_end_char_exec, trim_start_char, trim_start_char_exec, trim_str, views,
    words, words_of,
};

verus! {

broadcast use vstd::string::group_string_axioms;

#[derive(Debug, Clone)]
pub struct SystemInfo {
    pub kernel: String,
    pub hostname: String,
    pub os: String,
}

#[derive(Debug, Clone)]
pub struct OsRelease {
    pub name: String,
    pub version: String,
    pub id: String,
}

#[derive(Debug, Clone)]
pub struct MountInfo {
    pub filesystem: String,
    pub mount_point: String,
    pub fstype: String,
    pub options: String,
}

/// A row of `ps aux`: the CPU and memory shares are kept as the text `ps`
/// printed.
#[derive(Debug, Clone)]
pub struct ProcessRow {
    pub pid: u32,
    pub user: String,
    pub cpu: String,
    pub memory: String,
    pub name: String,
    pub command: String,
}

#[derive(Debug, Clone)]
pub struct DiskUsage {
    pub filesystem: String,
    pub size: String,
    pub used: String,
    pub avail: String,
    pub use_percent: String,
    pub mount: String,
}

#[derive(Debug, Clone)]
pub struct ShellEntry {
    pub path: String,
    pub available: bool,
}

/// `str::trim_matches('"')`: the text without the quotes around it.
pub open spec fn trim_quotes(s: Seq<char>) -> Seq<char> {
    trim_end_char(trim_start_char(s, '"'), '"')
}

/// One line of `/etc/os-release` applied to `(name, version, id)`.
pub open spec fn os_release_step(st: (Seq<char>, Seq<char>, Seq<char>), l: Seq<char>) -> (
    Seq<char>,
    Seq<char>,
    Seq<char>,
) {
    match split_once(l, '=') {
        Some((k, v)) => if k == "NAME"@ {
            (trim_quotes(v), st.1, st.2)
        } else if k == "VERSION_ID"@ {
            (st.0, trim_quotes(v), st.2)
        } else if k == "ID"@ {
            (st.0, st.1, trim_quotes(v))
        } else {
            st
        },
        None => st,
    }
}

pub open spec fn os_release_lines(st: (Seq<char>, Seq<char>, Seq<char>), ls: Seq<Seq<char>>) -> (
    Seq<char>,
    Seq<char>,
    Seq<char>,
)
    decreases ls.len(),
{
    if ls.len() == 0 {
        st
    } else {
        os_release_lines(os_release_step(st, ls[0]), ls.drop_first())
    }
}

/// The `NAME`, `VERSION_ID` and `ID` of an `/etc/os-release` text, unquoted;
/// a later line overrides an earlier one and a missing key is empty.
pub open spec fn os_release_fields(content: Seq<char>) -> (Seq<char>, Seq<char>, Seq<char>) {
    os_release_lines((seq![], seq![], seq![]), lines(content))
}

/// The value of the last line with key `key`, if any.
pub open spec fn last_keyed(ls: Seq<Seq<char>>, key: Seq<char>) -> Option<Seq<char>>
    decreases ls.len(),
{
    if ls.len() == 0 {
        None
    } else {
        match split_once(ls.last(), '=') {
            Some((k, v)) => if k == key {
                Some(v)
            } else {
                last_keyed(ls.drop_last(), key)
            },
            None => last_keyed(ls.drop_last(), key),
        }
    }
}

/// The unquoted value of the last line with key `key`, or empty text.
pub open spec fn keyed_field(ls: Seq<Seq<char>>, key: Seq<char>) -> Seq<char> {
    match last_keyed(ls, key) {
        Some(v) => trim_quotes(v),
        None => seq![],
    }
}

proof fn lemma_os_release_lines_snoc(st: (Seq<char>, Seq<char>, Seq<char>), ls: Seq<Seq<char>>)
    requires
        ls.len() > 0,
    ensures
        os_release_lines(st, ls) == os_release_step(os_release_lines(st, ls.drop_last()), ls.last()),
    decreases ls.len(),
{
    if ls.len() > 1 {
        let t = ls.drop_first();
        lemma_os_release_lines_snoc(os_release_step(st, ls[0]), t);
        assert(t.drop_last() =~= ls.drop_last().drop_first());
        assert(ls.drop_last()[0] == ls[0]);
        assert(t.last() == ls.last());
        assert(os_release_lines(st, ls.drop_last()) == os_release_lines(
            os_release_step(st, ls[0]),
            ls.drop_last().drop_first(),
        ));
    } else {
        assert(ls.drop_first() =~= Seq::<Seq<char>>::empty());
        assert(ls.drop_last() =~= Seq::<Seq<char>>::empty());
        assert(ls.last() == ls[0]);
        assert(os_release_lines(st, ls) == os_release_lines(os_release_step(st, ls[0]), ls.drop_first()));
    }
}

proof fn lemma_os_release_keyed(ls: Seq<Seq<char>>)
    ensures
        os_release_lines((seq![], seq![], seq![]), ls) == (
            keyed_field(ls, "NAME"@),
            keyed_field(ls, "VERSION_ID"@),
            keyed_field(ls, "ID"@),
        ),
    decreases ls.len(),
{
    reveal_strlit("NAME");
    reveal_strlit("VERSION_ID");
    reveal_strlit("ID");
    assert("NAME"@ != "VERSION_ID"@ && "NAME"@ != "ID"@ && "VERSION_ID"@ != "ID"@) by {
        assert("NAME"@.len() == 4 && "VERSION_ID"@.len() == 10 && "ID"@.len() == 2);
    }
    if ls.len() > 0 {
        lemma_os_release_keyed(ls.drop_last());
        lemma_os_release_lines_snoc((seq![], seq![], seq![]), ls);
    }
}

/// What is read of `/etc/os-release`: the name, version and id are the
/// unquoted values of the last lines whose keys are exactly `NAME`,
/// `VERSION_ID` and `ID`, each empty when no line has that key; lines with
/// any other key (such as `VERSION` or `PRETTY_NAME`) change none of them.
pub proof fn lemma_os_release_last_keyed(content: Seq<char>)
    ensures
        os_release_fields(content).0 == keyed_field(lines(content), "NAME"@),
        os_release_fields(content).1 == keyed_field(lines(content), "VERSION_ID"@),
        os_release_fields(content).2 == keyed_field(lines(content), "ID"@),
{
    lemma_os_release_keyed(lines(content));
}

/// A line of `/proc/mounts` with at least four words.
pub open spec fn mount_line(l: Seq<char>) -> Option<(Seq<char>, Seq<char>, Seq<char>, Seq<char>)> {
    let ws = words(l);
    if ws.len() >= 4 {
        Some((ws[0], ws[1], ws[2], ws[3]))
    } else {
        None
    }
}

pub open spec fn mount_view(m: MountInfo) -> (Seq<char>, Seq<char>, Seq<char>, Seq<char>) {
    (m.filesystem@, m.mount_point@, m.fstype@, m.options@)
}

/// A line of `df -h` output with at least six words.
pub open spec fn disk_line(l: Seq<char>) -> Option<Seq<Seq<char>>> {
    let ws = words(l);
    if ws.len() >= 6 {
        Some(ws.take(6))
    } else {
        None
    }
}

pub open spec fn disk_view(d: DiskUsage) -> Seq<Seq<char>> {
    seq![d.filesystem@, d.size@, d.used@, d.avail@, d.use_percent@, d.mount@]
}

/// The lines after the first one.
pub open spec fn after_header(ls: Seq<Seq<char>>) -> Seq<Seq<char>> {
    if ls.len() == 0 {
        ls
    } else {
        ls.drop_first()
    }
}

/// A line of `/etc/shells` that names a shell: not blank and not a comment.
pub open spec fn shell_line(l: Seq<char>) -> Option<Seq<char>> {
    let t = trim(l);
    if t.len() > 0 && t[0] != '#' {
        Some(t)
    } else {
        None
    }
}

/// Whether `filter` lets `text` through: no filter, or the lower-cased text
/// holds the lower-cased filter.
pub open spec fn passes(filter: Option<Seq<char>>, text: Seq<char>) -> bool {
    match filter {
        None => true,
        Some(f) => contains_seq(lower(text), lower(f)),
    }
}

/// A `KEY=value` line of `printenv` whose key passes the filter.
pub open spec fn env_line(filter: Option<Seq<char>>, l: Seq<char>) -> Option<(Seq<char>, Seq<char>)> {
    match split_once(l, '=') {
        Some((k, v)) => if passes(filter, k) {
            Some((k, v))
        } else {
            None
        },
        None => None,
    }
}

/// A line of `ps aux` with at least eleven words whose program name or
/// command line passes the filter.
pub open spec fn process_line(filter: Option<Seq<char>>, l: Seq<char>) -> Option<
    (u32, Seq<char>, Seq<char>, Seq<char>, Seq<char>, Seq<char>),
> {
    let ws = words(l);
    if ws.len() >= 11 {
        let cmd = join(ws.skip(10), seq![' ']);
        if passes(filter, ws[10]) || passes(filter, cmd) {
            Some(
                (
                    match parse_unsigned(ws[1], u32::MAX as nat) {
                        Some(n) => n as u32,
                        None => 0,
                    },
                    ws[0],
                    ws[2],
                    ws[3],
                    ws[10],
                    cmd,
                ),
            )
        } else {
            None
        }
    } else {
        None
    }
}

pub open spec fn process_view(p: ProcessRow) -> (u32, Seq<char>, Seq<char>, Seq<char>, Seq<char>, Seq<char>) {
    (p.pid, p.user@, p.cpu@, p.memory@, p.name@, p.command@)
}

pub open spec fn opt_view(o: Option<&str>) -> Option<Seq<char>> {
    match o {
        Some(s) => Some(s@),
        None => None,
    }
}

pub open spec fn pair_view(p: (String, String)) -> (Seq<char>, Seq<char>) {
    (p.0@, p.1@)
}

pub open spec fn strings_view(v: Seq<String>) -> Seq<Seq<char>> {
    v.map_values(|s: String| s@)
}

/// The package managers looked for, in order.
pub open spec fn package_managers_spec() -> Seq<Seq<char>> {
    seq![
        "pacman"@,
        "apt"@,
        "dnf"@,
        "apk"@,
        "cargo"@,
        "npm"@,
        "pip"@,
        "uv"@,
        "brew"@,
        "snap"@,
    ]
}

/// Whether `filter` lets `text` through (see `passes`); `f_lower` is the
/// filter already lower-cased.
fn passes_exec(filter: Option<&str>, f_lower: &Vec<char>, text: &Vec<char>) -> (b: bool)
    requires
        filter matches Some(f) ==> f_lower@ == lower(f@),
    ensures
        b == passes(opt_view(filter), text@),
{
    match filter {
        None => true,
        Some(_) => {
            let ts = string_from(text);
            let tl = to_lowercase(ts.as_str());
            let tv = chars_of(tl.as_str());
            contains(&tv, f_lower)
        },
    }
}

/// The words from `from` on, joined with single spaces.
fn join_words(ws: &Vec<Vec<char>>, from: usize) -> (r: Vec<char>)
    requires
        from <= ws.len(),
    ensures
        r@ == join(views(ws@).skip(from as int), seq![' ']),
{
    let ghost wv = views(ws@).skip(from as int);
    let mut r: Vec<char> = Vec::new();
    let mut i = from;
    assert(wv.take(0) =~= Seq::<Seq<char>>::empty());
    while i < ws.len()
        invariant
            from <= i <= ws.len(),
            wv == views(ws@).skip(from as int),
            r@ == join(wv.take(i - from), seq![' ']),
        decreases ws.len() - i,
    {
        if i > from {
            r.push(' ');
        }
        append_chars(&mut r, &ws[i]);
        assert(wv.take(i - from + 1).drop_last() =~= wv.take(i - from));
        assert(wv[i - from] == ws@[i as int]@);
        i = i + 1;
    }
    assert(wv.take(i - from) =~= wv);
    r
}

impl SystemInfo {
    /// The host information from what `uname -a`, `hostname` and
    /// `cat /etc/os-release` printed, each trimmed.
    pub fn from_outputs(uname: &str, hostname: &str, os: &str) -> (s: Self)
        ensures
            s.kernel@ == trim(uname@),
            s.hostname@ == trim(hostname@),
            s.os@ == trim(os@),
    {
        SystemInfo { kernel: trim_str(uname), hostname: trim_str(hostname), os: trim_str(os) }
    }
}

/// Reads `NAME`, `VERSION_ID` and `ID` from an `/etc/os-release` text (see
/// `os_release_fields`).
pub fn parse_os_release(content: &str) -> (r: OsRelease)
    ensures
        (r.name@, r.version@, r.id@) == os_release_fields(content@),
{
    let v = chars_of(content);
    let ls = lines_of(&v);
    let ghost lv = views(ls@);
    let mut name: Vec<char> = Vec::new();
    let mut version: Vec<char> = Vec::new();
    let mut id: Vec<char> = Vec::new();
    assert(lv.skip(0) == lv);
    for i in 0..ls.len()
        invariant
            lv == views(ls@),
            lv == lines(content@),
            os_release_fields(content@) == os_release_lines((name@, version@, id@), lv.skip(i as int)),
    {
        let ghost rest = lv.skip(i as int);
        assert(rest[0] == ls@[i as int]@);
        assert(rest.drop_first() == lv.skip(i + 1));
        let ghost before = (name@, version@, id@);
        match split_once_chars(&ls[i], '=') {
            Some((k, val)) => {
                let s1 = trim_start_char_exec(&val, '"');
                let unquoted = trim_end_char_exec(&s1, '"');
                if chars_eq_str(&k, "NAME") {
                    name = unquoted;
                } else if chars_eq_str(&k, "VERSION_ID") {
                    version = unquoted;
                } else if chars_eq_str(&k, "ID") {
                    id = unquoted;
                }
            },
            None => {},
        }
        assert((name@, version@, id@) == os_release_step(before, ls@[i as int]@));
    }
    assert(lv.skip(ls.len() as int) =~= Seq::<Seq<char>>::empty());
    OsRelease { name: string_from(&name), version: string_from(&version), id: string_from(&id) }
}

/// The mounts listed in a `/proc/mounts` text (see `mount_line`).
pub fn parse_mounts(content: &str) -> (r: Vec<MountInfo>)
    ensures
        r@.map_values(|m: MountInfo| mount_view(m)) == keep_some(
            lines(content@).map_values(|l: Seq<char>| mount_line(l)),
        ),
{
    let v = chars_of(content);
    let ls = lines_of(&v);
    let ghost m = views(ls@).map_values(|l: Seq<char>| mount_line(l));
    let mut r: Vec<MountInfo> = Vec::new();
    assert(m.skip(0) == m);
    for i in 0..ls.len()
        invariant
            m == views(ls@).map_values(|l: Seq<char>| mount_line(l)),
            keep_some(m) == r@.map_values(|x: MountInfo| mount_view(x)) + keep_some(m.skip(i as int)),
    {
        proof {
            lemma_keep_some_step(m, i as int);
        }
        let ghost before = r@.map_values(|x: MountInfo| mount_view(x));
        assert(m[i as int] == mount_line(ls@[i as int]@));
        let ws = words_of(&ls[i]);
        let ghost wv = views(ws@);
        assert(forall|j: int| 0 <= j < ws@.len() ==> wv[j] == ws@[j]@);
        if ws.len() >= 4 {
            let mi = MountInfo {
                filesystem: string_from(&ws[0]),
                mount_point: string_from(&ws[1]),
                fstype: string_from(&ws[2]),
                options: string_from(&ws[3]),
            };
            assert(mount_line(ls@[i as int]@) == Some(mount_view(mi)));
            r.push(mi);
            assert(r@.map_values(|x: MountInfo| mount_view(x)) =~= before.push(mount_view(mi)));
        }
        assert(before + keep_some(m.skip(i as int)) =~= r@.map_values(|x: MountInfo| mount_view(x))
            + keep_some(m.skip(i + 1)));
    }
    proof {
        lemma_keep_some_end(m);
    }
    assert(r@.map_values(|x: MountInfo| mount_view(x)) + Seq::empty() =~= r@.map_values(
        |x: MountInfo| mount_view(x),
    ));
    r
}

/// The file systems listed by `df -h`, after its header line (see
/// `disk_line`).
pub fn parse_disk_usage(output: &str) -> (r: Vec<DiskUsage>)
    ensures
        r@.map_values(|d: DiskUsage| disk_view(d)) == keep_some(
            after_header(lines(output@)).map_values(|l: Seq<char>| disk_line(l)),
        ),
{
    let v = chars_of(output);
    let ls = lines_of(&v);
    let ghost m = after_header(views(ls@)).map_values(|l: Seq<char>| disk_line(l));
    let mut r: Vec<DiskUsage> = Vec::new();
    if ls.len() == 0 {
        assert(m =~= Seq::<Option<Seq<Seq<char>>>>::empty());
        assert(r@.map_values(|d: DiskUsage| disk_view(d)) =~= Seq::<Seq<Seq<char>>>::empty());
        return r;
    }
    assert(m.skip(0) == m);
    for k in 1..ls.len()
        invariant
            ls@.len() >= 1,
            m == after_header(views(ls@)).map_values(|l: Seq<char>| disk_line(l)),
            keep_some(m) == r@.map_values(|x: DiskUsage| disk_view(x)) + keep_some(m.skip(k - 1)),
    {
        let i = k - 1;
        proof {
            lemma_keep_some_step(m, i as int);
        }
        let ghost before = r@.map_values(|x: DiskUsage| disk_view(x));
        assert(after_header(views(ls@))[i as int] == ls@[k as int]@);
        assert(m[i as int] == disk_line(ls@[k as int]@));
        let ws = words_of(&ls[k]);
        let ghost wv = views(ws@);
        assert(forall|j: int| 0 <= j < ws@.len() ==> wv[j] == ws@[j]@);
        if ws.len() >= 6 {
            let d = DiskUsage {
                filesystem: string_from(&ws[0]),
                size: string_from(&ws[1]),
                used: string_from(&ws[2]),
                avail: string_from(&ws[3]),
                use_percent: string_from(&ws[4]),
                mount: string_from(&ws[5]),
            };
            assert(disk_view(d) =~= wv.take(6));
            r.push(d);
            assert(r@.map_values(|x: DiskUsage| disk_view(x)) =~= before.push(disk_view(d)));
        }
        assert(before + keep_some(m.skip(i as int)) =~= r@.map_values(|x: DiskUsage| disk_view(x))
            + keep_some(m.skip(i + 1)));
    }
    proof {
        lemma_keep_some_end(m);
    }
    assert(r@.map_values(|x: DiskUsage| disk_view(x)) + Seq::empty() =~= r@.map_values(
        |x: DiskUsage| disk_view(x),
    ));
    r
}

/// The shells listed in an `/etc/shells` text, each trimmed and marked
/// available (see `shell_line`).
pub fn parse_shells(content: &str) -> (r: Vec<ShellEntry>)
    ensures
        forall|i: int| 0 <= i < r@.len() ==> r@[i].available,
        r@.map_values(|s: ShellEntry| s.path@) == keep_some(
            lines(content@).map_values(|l: Seq<char>| shell_line(l)),
        ),
{
    let v = chars_of(content);
    let ls = lines_of(&v);
    let ghost m = views(ls@).map_values(|l: Seq<char>| shell_line(l));
    let mut r: Vec<ShellEntry> = Vec::new();
    assert(m.skip(0) == m);
    for i in 0..ls.len()
        invariant
            m == views(ls@).map_values(|l: Seq<char>| shell_line(l)),
            forall|j: int| 0 <= j < r@.len() ==> r@[j].available,
            keep_some(m) == r@.map_values(|x: ShellEntry| x.path@) + keep_some(m.skip(i as int)),
    {
        proof {
            lemma_keep_some_step(m, i as int);
        }
        let ghost before = r@.map_values(|x: ShellEntry| x.path@);
        assert(m[i as int] == shell_line(ls@[i as int]@));
        let t = trim_chars(&ls[i]);
        if t.len() > 0 && t[0] != '#' {
            let e = ShellEntry { path: string_from(&t), available: true };
            r.push(e);
            assert(r@.map_values(|x: ShellEntry| x.path@) =~= before.push(e.path@));
        }
        assert(before + keep_some(m.skip(i as int)) =~= r@.map_values(|x: ShellEntry| x.path@)
            + keep_some(m.skip(i + 1)));
    }
    proof {
        lemma_keep_some_end(m);
    }
    assert(r@.map_values(|x: ShellEntry| x.path@) + Seq::empty() =~= r@.map_values(
        |x: ShellEntry| x.path@,
    ));
    r
}

/// The `KEY=value` pairs that `printenv` printed whose keys pass the filter,
/// in order (see `env_line`); where a key comes twice the later pair is the
/// one that counts.
pub fn filter_env(output: &str, filter: Option<&str>) -> (r: Vec<(String, String)>)
    ensures
        r@.map_values(|p: (String, String)| pair_view(p)) == keep_some(
            lines(output@).map_values(|l: Seq<char>| env_line(opt_view(filter), l)),
        ),
{
    let f_lower = match filter {
        Some(f) => {
            let fl = to_lowercase(f);
            chars_of(fl.as_str())
        },
        None => Vec::new(),
    };
    let v = chars_of(output);
    let ls = lines_of(&v);
    let ghost fv = opt_view(filter);
    let ghost m = views(ls@).map_values(|l: Seq<char>| env_line(fv, l));
    let mut r: Vec<(String, String)> = Vec::new();
    assert(m.skip(0) == m);
    for i in 0..ls.len()
        invariant
            fv == opt_view(filter),
            filter matches Some(f) ==> f_lower@ == lower(f@),
            m == views(ls@).map_values(|l: Seq<char>| env_line(fv, l)),
            keep_some(m) == r@.map_values(|x: (String, String)| pair_view(x)) + keep_some(
                m.skip(i as int),
            ),
    {
        proof {
            lemma_keep_some_step(m, i as int);
        }
        let ghost before = r@.map_values(|x: (String, String)| pair_view(x));
        assert(m[i as int] == env_line(fv, ls@[i as int]@));
        match split_once_chars(&ls[i], '=') {
            Some((k, val)) => {
                if passes_exec(filter, &f_lower, &k) {
                    let p = (string_from(&k), string_from(&val));
                    r.push(p);
                    assert(r@.map_values(|x: (String, String)| pair_view(x)) =~= before.push(
                        pair_view(p),
                    ));
                }
            },
            None => {},
        }
        assert(before + keep_some(m.skip(i as int)) =~= r@.map_values(
            |x: (String, String)| pair_view(x),
        ) + keep_some(m.skip(i + 1)));
    }
    proof {
        lemma_keep_some_end(m);
    }
    assert(r@.map_values(|x: (String, String)| pair_view(x)) + Seq::empty() =~= r@.map_values(
        |x: (String, String)| pair_view(x),
    ));
    r
}

/// The processes that `ps aux` printed, after its header line, whose name or
/// command line passes the filter (see `process_line`).
pub fn parse_processes(output: &str, filter: Option<&str>) -> (r: Vec<ProcessRow>)
    ensures
        r@.map_values(|p: ProcessRow| process_view(p)) == keep_some(
            after_header(lines(output@)).map_values(
                |l: Seq<char>| process_line(opt_view(filter), l),
            ),
        ),
{
    let f_lower = match filter {
        Some(f) => {
            let fl = to_lowercase(f);
            chars_of(fl.as_str())
        },
        None => Vec::new(),
    };
    let v = chars_of(output);
    let ls = lines_of(&v);
    let ghost fv = opt_view(filter);
    let ghost m = after_header(views(ls@)).map_values(|l: Seq<char>| process_line(fv, l));
    let mut r: Vec<ProcessRow> = Vec::new();
    if ls.len() == 0 {
        assert(m =~= Seq::<Option<(u32, Seq<char>, Seq<char>, Seq<char>, Seq<char>, Seq<char>)>>::empty());
        assert(r@.map_values(|p: ProcessRow| process_view(p)) =~= Seq::<
            (u32, Seq<char>, Seq<char>, Seq<char>, Seq<char>, Seq<char>),
        >::empty());
        return r;
    }
    assert(m.skip(0) == m);
    for k in 1..ls.len()
        invariant
            ls@.len() >= 1,
            fv == opt_view(filter),
            filter matches Some(f) ==> f_lower@ == lower(f@),
            m == after_header(views(ls@)).map_values(|l: Seq<char>| process_line(fv, l)),
            keep_some(m) == r@.map_values(|x: ProcessRow| process_view(x)) + keep_some(
                m.skip(k - 1),
            ),
    {
        let i = k - 1;
        proof {
            lemma_keep_some_step(m, i as int);
        }
        let ghost before = r@.map_values(|x: ProcessRow| process_view(x));
        assert(after_header(views(ls@))[i as int] == ls@[k as int]@);
        assert(m[i as int] == process_line(fv, ls@[k as int]@));
        let ws = words_of(&ls[k]);
        let ghost wv = views(ws@);
        assert(forall|j: int| 0 <= j < ws@.len() ==> wv[j] == ws@[j]@);
        if ws.len() >= 11 {
            let cmd = join_words(&ws, 10);
            if passes_exec(filter, &f_lower, &ws[10]) || passes_exec(filter, &f_lower, &cmd) {
                let pid = match parse_unsigned_chars(&ws[1], 4294967295u64) {
                    Some(n) => n as u32,
                    None => 0,
                };
                let p = ProcessRow {
                    pid,
                    user: string_from(&ws[0]),
                    cpu: string_from(&ws[2]),
                    memory: string_from(&ws[3]),
                    name: string_from(&ws[10]),
                    command: string_from(&cmd),
                };
                assert(process_line(fv, ls@[k as int]@) == Some(process_view(p)));
                r.push(p);
                assert(r@.map_values(|x: ProcessRow| process_view(x)) =~= before.push(
                    process_view(p),
                ));
            }
        }
        assert(before + keep_some(m.skip(i as int)) =~= r@.map_values(
            |x: ProcessRow| process_view(x),
        ) + keep_some(m.skip(i + 1)));
    }
    proof {
        lemma_keep_some_end(m);
    }
    assert(r@.map_values(|x: ProcessRow| process_view(x)) + Seq::empty() =~= r@.map_values(
        |x: ProcessRow| process_view(x),
    ));
    r
}

/// The package managers looked for, in order.
pub fn package_manager_candidates() -> (r: Vec<String>)
    ensures
        strings_view(r@) == package_managers_spec(),
{
    let mut r: Vec<String> = Vec::new();
    r.push(String::from_str("pacman"));
    r.push(String::from_str("apt"));
    r.push(String::from_str("dnf"));
    r.push(String::from_str("apk"));
    r.push(String::from_str("cargo"));
    r.push(String::from_str("npm"));
    r.push(String::from_str("pip"));
    r.push(String::from_str("uv"));
    r.push(String::from_str("brew"));
    r.push(String::from_str("snap"));
    assert(strings_view(r@) =~= package_managers_spec());
    r
}

/// Whether `which` found the program: it printed more than whitespace.
pub fn package_manager_found(which_output: &str) -> (b: bool)
    ensures
        b == (trim(which_output@).len() > 0),
{
    let v = chars_of(which_output);
    let t = trim_chars(&v);
    t.len() > 0
}

} // verus!
