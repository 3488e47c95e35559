//! Policy-gated command execution: the decisions around running a program.
//!
//! Spawning the process and waiting with a timeout are done by the
//! application; the library names the run and decides whether a command may
//! run, which timeout applies, and what the run reports.
use std::sync::Arc;
use vstd::prelude::*;

use crate::config::{AppConfig, CommandPolicy};
use crate::path_map::{apply, map_path};
use crate::policy::{regex_compiles, regex_matches, Pattern};
use crate::text::{
    append_str, chars_eq_str, chars_of, decimal, decimal_string, is_digit, string_from,
};

verus! {

broadcast use vstd::string::group_string_axioms;

/// A lower-case hexadecimal digit.
pub open spec fn is_lower_hex(c: char) -> bool {
    is_digit(c) || 97 <= (c as u32) <= 102
}

/// A version-4 UUID written out: 36 characters, `-` at positions 8, 13, 18
/// and 23 and lower-case hexadecimal digits elsewhere, the version digit `4`
/// at position 14 and one of `8`, `9`, `a`, `b` at position 19.
pub open spec fn uuid_v4_text(s: Seq<char>) -> bool {
    &&& s.len() == 36
    &&& forall|i: int|
        0 <= i < 36 ==> if i == 8 || i == 13 || i == 18 || i == 23 {
            s[i] == '-'
        } else {
            is_lower_hex(#[trigger] s[i])
        }
    &&& s[14] == '4'
    &&& s[19] == '8' || s[19] == '9' || s[19] == 'a' || s[19] == 'b'
}

/// `uuid::Uuid::new_v4().to_string()`: a random version-4 UUID in its
/// hyphenated lower-case form.  Which one it is rests on chance; what is
/// claimed is the form that `new_v4` (version and variant bits set) and
/// `Display` (lower-case hyphenated hex) give every outcome.  The call
/// panics when the system cannot supply random bytes; that depends on the
/// machine, not on anything passed here.
#[verifier::external_body]
fn new_uuid_v4() -> (s: String)
    ensures
        uuid_v4_text(s@),
{
    uuid::Uuid::new_v4().to_string()
}

pub struct ExecService {
    cfg: Arc<AppConfig>,
}

#[derive(Debug, Clone)]
pub enum PolicyResult {
    Allowed,
    Denied(String),
    Confirm,
}

/// A policy answer as the contracts see it.
pub enum PolicyVerdict {
    Allowed,
    Denied(Seq<char>),
    Confirm,
}

impl View for PolicyResult {
    type V = PolicyVerdict;

    open spec fn view(&self) -> PolicyVerdict {
        match self {
            PolicyResult::Allowed => PolicyVerdict::Allowed,
            PolicyResult::Denied(reason) => PolicyVerdict::Denied(reason@),
            PolicyResult::Confirm => PolicyVerdict::Confirm,
        }
    }
}

#[derive(Debug, Clone)]
pub struct ExecutionOutput {
    pub execution_id: String,
    pub success: bool,
    pub exit_code: i32,
    pub output: String,
}

/// The answer when no rule decides: the configured default action.
pub open spec fn default_verdict(default_action: Seq<char>) -> PolicyVerdict {
    if default_action == "deny"@ {
        PolicyVerdict::Denied("default deny"@)
    } else if default_action == "confirm"@ {
        PolicyVerdict::Confirm
    } else {
        PolicyVerdict::Allowed
    }
}

/// The command rules in order: the first rule whose pattern compiles and
/// matches and whose action is `deny` or `confirm` decides; rules with any
/// other action are passed over.
pub open spec fn check_rules(
    rules: Seq<CommandPolicy>,
    cmd: Seq<char>,
    default_action: Seq<char>,
) -> PolicyVerdict
    decreases rules.len(),
{
    if rules.len() == 0 {
        default_verdict(default_action)
    } else if regex_compiles(rules[0].pattern@) && regex_matches(rules[0].pattern@, cmd)
        && rules[0].action@ == "deny"@ {
        PolicyVerdict::Denied(rules[0].pattern@)
    } else if regex_compiles(rules[0].pattern@) && regex_matches(rules[0].pattern@, cmd)
        && rules[0].action@ == "confirm"@ {
        PolicyVerdict::Confirm
    } else {
        check_rules(rules.drop_first(), cmd, default_action)
    }
}

/// The text that a finished run reports: its standard output, followed by a
/// newline and its standard error when there is any.
pub open spec fn merged_output(stdout: Seq<char>, stderr: Seq<char>) -> Seq<char> {
    if stderr.len() == 0 {
        stdout
    } else {
        stdout.push('\n') + stderr
    }
}

impl ExecService {
    /// The configuration the service was made with.
    pub closed spec fn config(&self) -> AppConfig {
        *self.cfg
    }

    pub fn new(cfg: Arc<AppConfig>) -> (s: Self)
        ensures
            s.config() == *cfg,
    {
        ExecService { cfg }
    }

    /// Whether `command` may run under the configured command rules.
    pub fn check_policy(&self, command: &str) -> (r: PolicyResult)
        ensures
            r@ == check_rules(
                self.config().execution.commands@,
                command@,
                self.config().execution.default_action@,
            ),
    {
        let rules = &self.cfg.execution.commands;
        let ghost rs = rules@;
        let ghost d = self.config().execution.default_action@;
        let mut i: usize = 0;
        assert(rs.skip(0) == rs);
        while i < rules.len()
            invariant
                i <= rs.len(),
                rs == rules@,
                rs == self.config().execution.commands@,
                d == self.config().execution.default_action@,
                check_rules(rs, command@, d) == check_rules(rs.skip(i as int), command@, d),
            decreases rules.len() - i,
        {
            let ghost rest = rs.skip(i as int);
            assert(rest[0] == rs[i as int]);
            assert(rest.drop_first() == rs.skip(i + 1));
            let rule = &rules[i];
            match Pattern::compile(rule.pattern.as_str()) {
                Some(re) => {
                    if re.is_match(command) {
                        let action = chars_of(rule.action.as_str());
                        if chars_eq_str(&action, "deny") {
                            return PolicyResult::Denied(rule.pattern.clone());
                        }
                        if chars_eq_str(&action, "confirm") {
                            return PolicyResult::Confirm;
                        }
                    }
                },
                None => {},
            }
            i = i + 1;
        }
        let default_action = chars_of(self.cfg.execution.default_action.as_str());
        if chars_eq_str(&default_action, "deny") {
            PolicyResult::Denied(String::from_str("default deny"))
        } else if chars_eq_str(&default_action, "confirm") {
            PolicyResult::Confirm
        } else {
            PolicyResult::Allowed
        }
    }

    /// What a run starts with: a fresh name for it (a version-4 UUID, see
    /// `uuid_v4_text`) and its timeout (see `timeout_for`).
    pub fn prepare_execution(&self, timeout_ms: Option<u64>) -> (r: (String, u64))
        ensures
            uuid_v4_text(r.0@),
            r.1 == vstd::math::min(
                match timeout_ms {
                    Some(x) => x as int,
                    None => self.config().execution.default_timeout_ms as int,
                },
                self.config().execution.max_timeout_ms as int,
            ),
    {
        let id = new_uuid_v4();
        let timeout = self.timeout_for(timeout_ms);
        (id, timeout)
    }

    /// The timeout for a run: the one asked for, or the configured default,
    /// but never more than the configured maximum.
    pub fn timeout_for(&self, timeout_ms: Option<u64>) -> (t: u64)
        ensures
            t == vstd::math::min(
                match timeout_ms {
                    Some(x) => x as int,
                    None => self.config().execution.default_timeout_ms as int,
                },
                self.config().execution.max_timeout_ms as int,
            ),
    {
        let asked = match timeout_ms {
            Some(x) => x,
            None => self.cfg.execution.default_timeout_ms,
        };
        if asked < self.cfg.execution.max_timeout_ms {
            asked
        } else {
            self.cfg.execution.max_timeout_ms
        }
    }

    /// Rewrites `path` by the configured path mappings (see `map_path`).
    pub fn apply_path_mappings(&self, path: &str) -> (r: String)
        ensures
            r@ == map_path(path@, self.config().path_mappings@),
    {
        apply(path, self.cfg.path_mappings.as_slice())
    }
}

impl ExecutionOutput {
    /// The report of a run that finished: `exit_code` is the process's exit
    /// code, or -1 when it has none.
    pub fn completed(
        execution_id: String,
        success: bool,
        exit_code: Option<i32>,
        stdout: String,
        stderr: String,
    ) -> (o: Self)
        ensures
            o.execution_id@ == execution_id@,
            o.success == success,
            o.exit_code == match exit_code {
                Some(c) => c,
                None => -1i32,
            },
            o.output@ == merged_output(stdout@, stderr@),
    {
        let output = if stderr.as_str().is_empty() {
            stdout
        } else {
            let mut m = chars_of(stdout.as_str());
            m.push('\n');
            append_str(&mut m, stderr.as_str());
            string_from(&m)
        };
        let code = match exit_code {
            Some(c) => c,
            None => -1,
        };
        ExecutionOutput { execution_id, success, exit_code: code, output }
    }

    /// The report of a run that could not start: the error text, exit code -1.
    pub fn failed(execution_id: String, message: String) -> (o: Self)
        ensures
            o.execution_id@ == execution_id@,
            !o.success,
            o.exit_code == -1,
            o.output@ == message@,
    {
        ExecutionOutput { execution_id, success: false, exit_code: -1, output: message }
    }

    /// The report of a run stopped by its timeout.
    pub fn timed_out(execution_id: String, timeout_ms: u64) -> (o: Self)
        ensures
            o.execution_id@ == execution_id@,
            !o.success,
            o.exit_code == -1,
            o.output@ == "Timed out after "@ + decimal(timeout_ms as nat) + "ms"@,
    {
        let mut m = chars_of("Timed out after ");
        let digits = decimal_string(timeout_ms);
        append_str(&mut m, digits.as_str());
        append_str(&mut m, "ms");
        ExecutionOutput { execution_id, success: false, exit_code: -1, output: string_from(&m) }
    }
}

} // verus!
