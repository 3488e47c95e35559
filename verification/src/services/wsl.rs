//! Management of WSL distributions through `wsl.exe`: the arguments given to
//! it and the reading of what it prints.
use vstd::prelude::*;

use crate::clock::{now_rfc3339, rfc3339_utc};
use crate::path_map::swap_char;
use crate::text::{
    append_str, chars_of, find_char, keep_some, lemma_find_from, lemma_keep_some_end,
    lemma_keep_some_step, lines, lines_of, string_from, trim, trim_chars, trim_start_char,
    trim_start_char_exec, views, words, words_of,
};

verus! {

broadcast use vstd::string::group_string_axioms;

#[derive(Debug, Clone)]
pub struct WslDistribution {
    pub name: String,
    pub is_default: bool,
    pub state: String,
    pub version: String,
}

#[derive(Debug, Clone)]
pub struct WslInfo {
    pub version: String,
    pub status: String,
    pub timestamp: String,
}

#[derive(Debug, Clone)]
pub struct CommandResult {
    pub success: bool,
    pub output: String,
    pub exit_code: i32,
}

pub struct WslService;

/// The words of a row of `wsl --list --verbose` output that describe the
/// distribution: the default marker, a first word made of `*`s alone, is
/// not one of them.
pub open spec fn distribution_words(line: Seq<char>) -> Seq<Seq<char>> {
    let ws = words(line);
    if ws.len() > 0 && trim_start_char(ws[0], '*').len() == 0 {
        ws.drop_first()
    } else {
        ws
    }
}

/// A line of `wsl --list --verbose` output: the trimmed line with at least
/// three words besides the default marker gives a distribution named by the
/// first of them without its leading `*`s, marked default when the line
/// holds a `*`, with the next two words as state and version.
pub open spec fn distribution_line(raw: Seq<char>) -> Option<(Seq<char>, bool, Seq<char>, Seq<char>)> {
    let line = trim(raw);
    let ws = distribution_words(line);
    if ws.len() >= 3 {
        Some((trim(trim_start_char(ws[0], '*')), line.contains('*'), ws[1], ws[2]))
    } else {
        None
    }
}

pub open spec fn distribution_view(d: WslDistribution) -> (Seq<char>, bool, Seq<char>, Seq<char>) {
    (d.name@, d.is_default, d.state@, d.version@)
}

/// The lines after the first one.
pub open spec fn skip_header(ls: Seq<Seq<char>>) -> Seq<Seq<char>> {
    if ls.len() == 0 {
        ls
    } else {
        ls.drop_first()
    }
}

pub open spec fn strings_view(v: Seq<String>) -> Seq<Seq<char>> {
    v.map_values(|s: String| s@)
}

/// Whether `v` holds the character `c`.
fn has_char(v: &Vec<char>, c: char) -> (b: bool)
    ensures
        b == v@.contains(c),
{
    let i = find_char(v, c, 0, v.len());
    proof {
        assert(v@.subrange(0, v@.len() as int) == v@);
        lemma_find_from(v@, c, 0);
        if i < v.len() {
            assert(v@[i as int] == c);
        } else {
            assert forall|j: int| 0 <= j < v@.len() implies v@[j] != c by {}
        }
    }
    i < v.len()
}

impl CommandResult {
    /// The result of a `wsl.exe` run that finished: its standard output when
    /// it succeeded, its error output otherwise; the exit code, or -1 when
    /// there is none.
    pub fn from_output(success: bool, exit_code: Option<i32>, stdout: String, stderr: String) -> (r: Self)
        ensures
            r.success == success,
            r.output@ == (if success {
                stdout@
            } else {
                stderr@
            }),
            r.exit_code == (match exit_code {
                Some(c) => c,
                None => -1i32,
            }),
    {
        CommandResult {
            success,
            output: if success {
                stdout
            } else {
                stderr
            },
            exit_code: match exit_code {
                Some(c) => c,
                None => -1,
            },
        }
    }

    /// The result of a run that could not be done: the error text, exit
    /// code -1.
    pub fn failed(message: String) -> (r: Self)
        ensures
            !r.success,
            r.output@ == message@,
            r.exit_code == -1,
    {
        CommandResult { success: false, output: message, exit_code: -1 }
    }
}

impl WslService {
    pub fn new() -> Self {
        WslService
    }

    /// The WSL information report: what `wsl --version` and `wsl --status`
    /// printed, stamped with the current time.
    pub fn info(version: String, status: String) -> (r: WslInfo)
        ensures
            r.version@ == version@,
            r.status@ == status@,
            rfc3339_utc(r.timestamp@),
    {
        WslInfo { version, status, timestamp: now_rfc3339() }
    }

    /// The distributions that `wsl --list --verbose` printed (see
    /// `distribution_line`); the header line is skipped.
    pub fn parse_distributions(output: &str) -> (r: Vec<WslDistribution>)
        ensures
            r@.map_values(|d: WslDistribution| distribution_view(d)) == keep_some(
                skip_header(lines(output@)).map_values(|l: Seq<char>| distribution_line(l)),
            ),
    {
        let v = chars_of(output);
        let ls = lines_of(&v);
        let ghost m = skip_header(views(ls@)).map_values(|l: Seq<char>| distribution_line(l));
        let mut r: Vec<WslDistribution> = Vec::new();
        if ls.len() == 0 {
            assert(m =~= Seq::<Option<(Seq<char>, bool, Seq<char>, Seq<char>)>>::empty());
            assert(r@.map_values(|d: WslDistribution| distribution_view(d)) =~= Seq::<
                (Seq<char>, bool, Seq<char>, Seq<char>),
            >::empty());
            return r;
        }
        assert(m.skip(0) == m);
        for k in 1..ls.len()
            invariant
                ls@.len() >= 1,
                m == skip_header(views(ls@)).map_values(|l: Seq<char>| distribution_line(l)),
                keep_some(m) == r@.map_values(|x: WslDistribution| distribution_view(x))
                    + keep_some(m.skip(k - 1)),
        {
            let i = k - 1;
            proof {
                lemma_keep_some_step(m, i as int);
            }
            let ghost before = r@.map_values(|x: WslDistribution| distribution_view(x));
            assert(skip_header(views(ls@))[i as int] == ls@[k as int]@);
            assert(m[i as int] == distribution_line(ls@[k as int]@));
            let line = trim_chars(&ls[k]);
            let ws = words_of(&line);
            let ghost wv = views(ws@);
            assert(forall|j: int| 0 <= j < ws@.len() ==> wv[j] == ws@[j]@);
            let first: usize = if ws.len() > 0 && trim_start_char_exec(&ws[0], '*').len() == 0 {
                1
            } else {
                0
            };
            let ghost dw = distribution_words(line@);
            assert(dw.len() == ws@.len() - first);
            assert(forall|j: int| 0 <= j < dw.len() ==> dw[j] == wv[j + first]);
            if ws.len() >= first + 3 {
                let stripped = trim_start_char_exec(&ws[first], '*');
                let name = trim_chars(&stripped);
                let d = WslDistribution {
                    name: string_from(&name),
                    is_default: has_char(&line, '*'),
                    state: string_from(&ws[first + 1]),
                    version: string_from(&ws[first + 2]),
                };
                assert(distribution_line(ls@[k as int]@) == Some(distribution_view(d)));
                r.push(d);
                assert(r@.map_values(|x: WslDistribution| distribution_view(x)) =~= before.push(
                    distribution_view(d),
                ));
            }
            assert(before + keep_some(m.skip(i as int)) =~= r@.map_values(
                |x: WslDistribution| distribution_view(x),
            ) + keep_some(m.skip(i + 1)));
        }
        proof {
            lemma_keep_some_end(m);
        }
        assert(r@.map_values(|x: WslDistribution| distribution_view(x)) + Seq::empty()
            =~= r@.map_values(|x: WslDistribution| distribution_view(x)));
        r
    }

    /// The `wsl.exe` arguments that run `command` in `distro`, or in the
    /// default distribution when `distro` is empty.
    pub fn execute_command_args(distro: &str, command: &str) -> (a: Vec<String>)
        ensures
            strings_view(a@) == (if distro@.len() == 0 {
                seq!["--exec"@, command@]
            } else {
                seq!["-d"@, distro@, "--exec"@, command@]
            }),
    {
        let mut a: Vec<String> = Vec::new();
        if !distro.is_empty() {
            a.push(String::from_str("-d"));
            a.push(String::from_str(distro));
        }
        a.push(String::from_str("--exec"));
        a.push(String::from_str(command));
        if distro.is_empty() {
            assert(strings_view(a@) =~= seq!["--exec"@, command@]);
        } else {
            assert(strings_view(a@) =~= seq!["-d"@, distro@, "--exec"@, command@]);
        }
        a
    }

    /// The shell command that copies a Windows path into WSL: `cp -r` with
    /// the backslashes of the Windows path turned into slashes.
    pub fn copy_to_wsl_command(windows_path: &str, wsl_path: &str) -> (c: String)
        ensures
            c@ == "cp -r '"@ + swap_char(windows_path@, '\\', '/') + "' '"@ + wsl_path@ + "'"@,
    {
        let w = chars_of(windows_path);
        let mut out = chars_of("cp -r '");
        let ghost head = out@;
        for i in 0..w.len()
            invariant
                out@ == head + swap_char(w@.take(i as int), '\\', '/'),
        {
            let c = if w[i] == '\\' {
                '/'
            } else {
                w[i]
            };
            out.push(c);
            assert(swap_char(w@.take(i + 1), '\\', '/') =~= swap_char(w@.take(i as int), '\\', '/').push(c));
        }
        assert(w@.take(w.len() as int) =~= w@);
        append_str(&mut out, "' '");
        append_str(&mut out, wsl_path);
        append_str(&mut out, "'");
        string_from(&out)
    }

    /// The result reported after `.wslconfig` was written to `path` and WSL
    /// restarted.
    pub fn configured(path: &str) -> (r: CommandResult)
        ensures
            r.success,
            r.output@ == "Written to "@ + path@ + ". WSL restarted."@,
            r.exit_code == 0,
    {
        let mut out = chars_of("Written to ");
        append_str(&mut out, path);
        append_str(&mut out, ". WSL restarted.");
        CommandResult { success: true, output: string_from(&out), exit_code: 0 }
    }
}

} // verus!
