//! tmux sessions inside a WSL distribution: the arguments, the reading of
//! what tmux prints, and the decisions of the polling loop.
use vstd::prelude::*;

use crate::text::{
    append_str, chars_of, contains, contains_seq, decimal, decimal_string, keep_some,
    lemma_keep_some_end, lemma_keep_some_step, lines, lines_of, splitn, splitn_exec, string_from,
    trim, trim_chars, views,
};

verus! {

broadcast use vstd::string::group_string_axioms;

#[derive(Debug, Clone)]
pub struct TmuxResult {
    pub success: bool,
    pub output: String,
    pub exit_code: i32,
}

#[derive(Debug, Clone)]
pub struct TerminalSession {
    pub name: String,
    pub created: String,
}

pub struct TerminalService;

/// What the polling loop of `wait_for_output` does after one capture.
#[derive(Debug, Clone, Copy, PartialEq, Eq, Structural)]
pub enum WaitDecision {
    /// The marker was seen: the capture is the answer.
    Found,
    /// That was the last poll: give up with a timeout.
    GiveUp,
    /// Sleep, then capture again.
    PollAgain,
}

/// A line of `tmux list-sessions -F "#{session_name}:#{session_created}"`:
/// the trimmed, non-empty line cut at its first colon.
pub open spec fn session_line(raw: Seq<char>) -> Option<(Seq<char>, Seq<char>)> {
    let line = trim(raw);
    if line.len() == 0 {
        None
    } else {
        let ps = splitn(line, ':', 2);
        Some((ps[0], if ps.len() > 1 { ps[1] } else { seq![] }))
    }
}

pub open spec fn session_view(s: TerminalSession) -> (Seq<char>, Seq<char>) {
    (s.name@, s.created@)
}

/// The decision after poll number `poll` (counting from 0) of `max_polls`.
pub open spec fn wait_decision_spec(poll: u32, max_polls: u32, success: bool, output: Seq<char>, marker: Seq<char>) -> WaitDecision {
    if success && contains_seq(output, marker) {
        WaitDecision::Found
    } else if poll == max_polls - 1 {
        WaitDecision::GiveUp
    } else {
        WaitDecision::PollAgain
    }
}

impl TmuxResult {
    /// The result of a tmux run that finished: its standard output when it
    /// succeeded, its error output otherwise; the exit code, or -1.
    pub fn from_output(success: bool, exit_code: Option<i32>, stdout: String, stderr: String) -> (r: Self)
        ensures
            r.success == success,
            r.output@ == (if success {
                stdout@
            } else {
                stderr@
            }),
            r.exit_code == (match exit_code {
                Some(c) => c,
                None => -1i32,
            }),
    {
        TmuxResult {
            success,
            output: if success {
                stdout
            } else {
                stderr
            },
            exit_code: match exit_code {
                Some(c) => c,
                None => -1,
            },
        }
    }

    /// The result of a run that could not be done: the error text, exit
    /// code -1.
    pub fn failed(message: String) -> (r: Self)
        ensures
            !r.success,
            r.output@ == message@,
            r.exit_code == -1,
    {
        TmuxResult { success: false, output: message, exit_code: -1 }
    }
}

impl TerminalService {
    pub fn new() -> Self {
        TerminalService
    }

    /// The session name used: the one given, or `wsl-mcp` when it is empty.
    pub fn session_name(name: &str) -> (n: String)
        ensures
            n@ == (if name@.len() == 0 {
                "wsl-mcp"@
            } else {
                name@
            }),
    {
        if name.is_empty() {
            String::from_str("wsl-mcp")
        } else {
            String::from_str(name)
        }
    }

    /// The `-S` argument of `capture-pane`: how many lines back to start,
    /// 100 unless told otherwise.
    pub fn scroll_arg(lines: Option<usize>) -> (a: String)
        ensures
            a@ == seq!['-'] + decimal(
                (match lines {
                    Some(n) => n,
                    None => 100,
                }) as nat,
            ),
    {
        let n = match lines {
            Some(n) => n,
            None => 100,
        };
        let mut v: Vec<char> = Vec::new();
        v.push('-');
        let d = decimal_string(n as u64);
        append_str(&mut v, d.as_str());
        string_from(&v)
    }

    /// The sessions that `tmux list-sessions` printed, or none when it
    /// failed (see `session_line`).
    pub fn parse_sessions(success: bool, output: &str) -> (r: Vec<TerminalSession>)
        ensures
            !success ==> r@.len() == 0,
            success ==> r@.map_values(|s: TerminalSession| session_view(s)) == keep_some(
                lines(output@).map_values(|l: Seq<char>| session_line(l)),
            ),
    {
        let mut r: Vec<TerminalSession> = Vec::new();
        if !success {
            return r;
        }
        let v = chars_of(output);
        let ls = lines_of(&v);
        let ghost m = views(ls@).map_values(|l: Seq<char>| session_line(l));
        assert(m.skip(0) == m);
        for i in 0..ls.len()
            invariant
                m == views(ls@).map_values(|l: Seq<char>| session_line(l)),
                keep_some(m) == r@.map_values(|x: TerminalSession| session_view(x)) + keep_some(
                    m.skip(i as int),
                ),
        {
            proof {
                lemma_keep_some_step(m, i as int);
            }
            let ghost before = r@.map_values(|x: TerminalSession| session_view(x));
            assert(m[i as int] == session_line(ls@[i as int]@));
            let line = trim_chars(&ls[i]);
            if line.len() > 0 {
                let ps = splitn_exec(&line, ':', 2);
                let ghost pv = views(ps@);
                assert(forall|j: int| 0 <= j < ps@.len() ==> pv[j] == ps@[j]@);
                let created = if ps.len() > 1 {
                    string_from(&ps[1])
                } else {
                    String::new()
                };
                let s = TerminalSession { name: string_from(&ps[0]), created };
                assert(session_line(ls@[i as int]@) == Some(session_view(s)));
                r.push(s);
                assert(r@.map_values(|x: TerminalSession| session_view(x)) =~= before.push(
                    session_view(s),
                ));
            }
            assert(before + keep_some(m.skip(i as int)) =~= r@.map_values(
                |x: TerminalSession| session_view(x),
            ) + keep_some(m.skip(i + 1)));
        }
        proof {
            lemma_keep_some_end(m);
        }
        assert(r@.map_values(|x: TerminalSession| session_view(x)) + Seq::empty() =~= r@.map_values(
            |x: TerminalSession| session_view(x),
        ));
        r
    }

    /// What `wait_for_output` does after capture number `poll` (from 0) of
    /// `max_polls`: stop when the capture succeeded and shows the marker,
    /// give up after the last poll, and poll again otherwise.
    pub fn wait_decision(poll: u32, max_polls: u32, success: bool, output: &str, marker: &str) -> (d: WaitDecision)
        requires
            poll < max_polls,
        ensures
            d == wait_decision_spec(poll, max_polls, success, output@, marker@),
    {
        let o = chars_of(output);
        let m = chars_of(marker);
        if success && contains(&o, &m) {
            WaitDecision::Found
        } else if poll == max_polls - 1 {
            WaitDecision::GiveUp
        } else {
            WaitDecision::PollAgain
        }
    }

    /// The result when the marker never showed.
    pub fn timeout_result(marker: &str, max_polls: u32) -> (r: TmuxResult)
        ensures
            !r.success,
            r.exit_code == -1,
            r.output@ == "Timeout: marker '"@ + marker@ + "' not found after "@ + decimal(
                max_polls as nat,
            ) + " polls"@,
    {
        let mut v = chars_of("Timeout: marker '");
        append_str(&mut v, marker);
        append_str(&mut v, "' not found after ");
        let d = decimal_string(max_polls as u64);
        append_str(&mut v, d.as_str());
        append_str(&mut v, " polls");
        TmuxResult { success: false, output: string_from(&v), exit_code: -1 }
    }

    /// The result when no poll was asked for.
    pub fn no_polls_result() -> (r: TmuxResult)
        ensures
            !r.success,
            r.exit_code == -1,
            r.output@ == "No polls configured"@,
    {
        TmuxResult { success: false, output: String::from_str("No polls configured"), exit_code: -1 }
    }
}

/// The polling loop ends by the last poll: at the last poll the decision is
/// never to poll again.
pub proof fn lemma_wait_ends_at_last_poll(max_polls: u32, success: bool, output: Seq<char>, marker: Seq<char>)
    requires
        max_polls > 0,
    ensures
        wait_decision_spec((max_polls - 1) as u32, max_polls, success, output, marker) != WaitDecision::PollAgain,
{
}

} // verus!
