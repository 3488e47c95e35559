//! Decomposition of a task written in words into WSL steps.
use std::sync::Arc;
use vstd::prelude::*;

use crate::services::wsl::WslService;
use crate::text::{
    append_str, ascii_upper_text, chars_of, contains, contains_seq, decimal, decimal_string,
    has_prefix, is_ascii_text, lemma_ascii_upper_keeps_ascii, lemma_ascii_upper_text, lower, starts_with, string_from,
    to_lowercase,
};

verus! {

broadcast use vstd::string::group_string_axioms;

#[derive(Debug, Clone)]
pub struct AgentTaskResult {
    pub success: bool,
    pub task: String,
    pub steps: Vec<String>,
    pub results: Vec<String>,
    pub summary: String,
}

pub struct TaskPlanner {
    wsl: Arc<WslService>,
}

pub open spec fn strings_view(v: Seq<String>) -> Seq<Seq<char>> {
    v.map_values(|s: String| s@)
}

/// The steps for a task: `t` is the task in lower case, `task` as given.
/// Installing a distribution, setting up or configuring, backing up or
/// exporting, and optimizing each have four fixed steps; any other task gets
/// three general ones.
pub open spec fn plan_spec(t: Seq<char>, task: Seq<char>) -> Seq<Seq<char>> {
    if contains_seq(t, "install"@) && contains_seq(t, "distro"@) {
        seq![
            "Check if distribution is already installed"@,
            "Install the requested distribution"@,
            "Verify installation success"@,
            "Start the distribution"@,
        ]
    } else if contains_seq(t, "setup"@) || contains_seq(t, "configure"@) {
        seq![
            "Get current WSL configuration"@,
            "Apply requested configuration changes"@,
            "Restart WSL to apply changes"@,
            "Verify configuration"@,
        ]
    } else if contains_seq(t, "backup"@) || contains_seq(t, "export"@) {
        seq![
            "List available distributions"@,
            "Stop the distribution"@,
            "Export to tar file"@,
            "Verify export completed"@,
        ]
    } else if contains_seq(t, "optimize"@) || contains_seq(t, "performance"@) {
        seq![
            "Analyze current resource usage"@,
            "Generate optimization recommendations"@,
            "Apply performance tuning"@,
            "Validate improvements"@,
        ]
    } else {
        seq![
            "Analyze requirement: "@ + task,
            "Execute appropriate WSL commands"@,
            "Verify results"@,
        ]
    }
}

/// Which plan a task gets, by the keywords its lower-cased text `t` holds:
/// installing a distribution needs both `install` and `distro`; otherwise
/// `setup` or `configure`, then `backup` or `export`, then `optimize` or
/// `performance` choose the plan, each of four fixed steps; a task holding
/// none of them gets the three general steps, the first naming the task.
pub proof fn lemma_plan_by_keywords(t: Seq<char>, task: Seq<char>)
    ensures
        contains_seq(t, "install"@) && contains_seq(t, "distro"@) ==> plan_spec(t, task) == seq![
            "Check if distribution is already installed"@,
            "Install the requested distribution"@,
            "Verify installation success"@,
            "Start the distribution"@,
        ],
        !(contains_seq(t, "install"@) && contains_seq(t, "distro"@)) && (contains_seq(t, "setup"@)
            || contains_seq(t, "configure"@)) ==> plan_spec(t, task) == seq![
            "Get current WSL configuration"@,
            "Apply requested configuration changes"@,
            "Restart WSL to apply changes"@,
            "Verify configuration"@,
        ],
        !(contains_seq(t, "install"@) && contains_seq(t, "distro"@)) && !contains_seq(t, "setup"@)
            && !contains_seq(t, "configure"@) && (contains_seq(t, "backup"@) || contains_seq(t, "export"@))
            ==> plan_spec(t, task) == seq![
            "List available distributions"@,
            "Stop the distribution"@,
            "Export to tar file"@,
            "Verify export completed"@,
        ],
        !(contains_seq(t, "install"@) && contains_seq(t, "distro"@)) && !contains_seq(t, "setup"@)
            && !contains_seq(t, "configure"@) && !contains_seq(t, "backup"@) && !contains_seq(t, "export"@)
            && (contains_seq(t, "optimize"@) || contains_seq(t, "performance"@)) ==> plan_spec(t, task) == seq![
            "Analyze current resource usage"@,
            "Generate optimization recommendations"@,
            "Apply performance tuning"@,
            "Validate improvements"@,
        ],
        !(contains_seq(t, "install"@) && contains_seq(t, "distro"@)) && !contains_seq(t, "setup"@)
            && !contains_seq(t, "configure"@) && !contains_seq(t, "backup"@) && !contains_seq(t, "export"@)
            && !contains_seq(t, "optimize"@) && !contains_seq(t, "performance"@) ==> plan_spec(t, task)
            == seq!["Analyze requirement: "@ + task, "Execute appropriate WSL commands"@, "Verify results"@],
        plan_spec(t, task)[0] == "Check if distribution is already installed"@ ==> contains_seq(t, "install"@)
            && contains_seq(t, "distro"@),
{
    reveal_strlit("Check if distribution is already installed");
    reveal_strlit("Get current WSL configuration");
    reveal_strlit("List available distributions");
    reveal_strlit("Analyze current resource usage");
    reveal_strlit("Analyze requirement: ");
    let c = "Check if distribution is already installed"@;
    assert(("Get current WSL configuration"@)[0] != c[0]);
    assert(("List available distributions"@)[0] != c[0]);
    assert(("Analyze current resource usage"@)[0] != c[0]);
    assert(("Analyze requirement: "@ + task)[0] != c[0]);
}

/// Whether the lower-cased task `t` names one of the kinds of work that have
/// a plan of their own (anything but the general plan).
pub open spec fn names_planned_work(t: Seq<char>) -> bool {
    ||| contains_seq(t, "install"@) && contains_seq(t, "distro"@)
    ||| contains_seq(t, "setup"@) || contains_seq(t, "configure"@)
    ||| contains_seq(t, "backup"@) || contains_seq(t, "export"@)
    ||| contains_seq(t, "optimize"@) || contains_seq(t, "performance"@)
}

/// Writing an ASCII task in upper case does not change its plan when the
/// task names a kind of work that has a plan of its own.
pub proof fn lemma_plan_ignores_ascii_case(task: Seq<char>)
    requires
        is_ascii_text(task),
        names_planned_work(lower(task)),
    ensures
        plan_spec(lower(ascii_upper_text(task)), ascii_upper_text(task)) == plan_spec(lower(task), task),
{
    lemma_ascii_upper_text(task);
}

/// What running a step reports.
pub open spec fn step_result(step: Seq<char>) -> Seq<char> {
    "Completed: "@ + step
}

fn has(t: &Vec<char>, word: &str) -> (b: bool)
    ensures
        b == contains_seq(t@, word@),
{
    let w = chars_of(word);
    contains(t, &w)
}

fn strings(items: Vec<&str>) -> (r: Vec<String>)
    ensures
        strings_view(r@) == items@.map_values(|s: &str| s@),
{
    let mut r: Vec<String> = Vec::new();
    for i in 0..items.len()
        invariant
            strings_view(r@) == items@.map_values(|s: &str| s@).take(i as int),
    {
        let x = String::from_str(items[i]);
        assert(x@ == items@[i as int]@);
        let ghost before = r@;
        r.push(x);
        assert(strings_view(r@) =~= strings_view(before).push(x@));
        assert(items@.map_values(|s: &str| s@).take(i + 1) =~= items@.map_values(|s: &str| s@).take(
            i as int,
        ).push(items@[i as int]@));
    }
    assert(items@.map_values(|s: &str| s@).take(items.len() as int) =~= items@.map_values(
        |s: &str| s@,
    ));
    r
}

impl TaskPlanner {
    /// The WSL service the planner was made with.
    pub closed spec fn service(&self) -> Arc<WslService> {
        self.wsl
    }

    pub fn new(wsl: Arc<WslService>) -> (p: Self)
        ensures
            p.service() == wsl,
    {
        TaskPlanner { wsl }
    }

    /// The steps for `task` (see `plan_spec`); the context is not used.  A
    /// task that names a kind of work with a plan of its own gets the plan
    /// that the same task written in ASCII upper case gets.
    pub fn plan(&self, task: &str, _context: Option<&str>) -> (steps: Vec<String>)
        ensures
            strings_view(steps@) == plan_spec(lower(task@), task@),
            names_planned_work(lower(task@)) ==> strings_view(steps@) == plan_spec(
                lower(ascii_upper_text(task@)),
                ascii_upper_text(task@),
            ),
    {
        let lowered = to_lowercase(task);
        proof {
            lemma_ascii_upper_keeps_ascii(task@);
            if is_ascii_text(task@) {
                lemma_ascii_upper_text(task@);
            }
            assert(lower(ascii_upper_text(task@)) == lower(task@));
        }
        let t = chars_of(lowered.as_str());
        if has(&t, "install") && has(&t, "distro") {
            let v = vec![
                "Check if distribution is already installed",
                "Install the requested distribution",
                "Verify installation success",
                "Start the distribution",
            ];
            let r = strings(v);
            assert(v@.map_values(|s: &str| s@) =~= plan_spec(lower(task@), task@));
            r
        } else if has(&t, "setup") || has(&t, "configure") {
            let v = vec![
                "Get current WSL configuration",
                "Apply requested configuration changes",
                "Restart WSL to apply changes",
                "Verify configuration",
            ];
            let r = strings(v);
            assert(v@.map_values(|s: &str| s@) =~= plan_spec(lower(task@), task@));
            r
        } else if has(&t, "backup") || has(&t, "export") {
            let v = vec![
                "List available distributions",
                "Stop the distribution",
                "Export to tar file",
                "Verify export completed",
            ];
            let r = strings(v);
            assert(v@.map_values(|s: &str| s@) =~= plan_spec(lower(task@), task@));
            r
        } else if has(&t, "optimize") || has(&t, "performance") {
            let v = vec![
                "Analyze current resource usage",
                "Generate optimization recommendations",
                "Apply performance tuning",
                "Validate improvements",
            ];
            let r = strings(v);
            assert(v@.map_values(|s: &str| s@) =~= plan_spec(lower(task@), task@));
            r
        } else {
            let mut first = chars_of("Analyze requirement: ");
            append_str(&mut first, task);
            let mut r: Vec<String> = Vec::new();
            r.push(string_from(&first));
            r.push(String::from_str("Execute appropriate WSL commands"));
            r.push(String::from_str("Verify results"));
            assert(strings_view(r@) =~= plan_spec(lower(task@), task@));
            r
        }
    }

    /// Runs one step: the step is reported as completed.
    pub fn run_step(&self, step: &str) -> (r: String)
        ensures
            r@ == step_result(step@),
    {
        let mut v = chars_of("Completed: ");
        append_str(&mut v, step);
        string_from(&v)
    }

    /// Plans `task` and runs its steps: the result lists the steps and what
    /// each reported, succeeds when no report begins with `Failed`, and sums
    /// up the number of steps.
    pub fn execute_task(&self, task: &str, context: Option<&str>) -> (r: AgentTaskResult)
        ensures
            r.task@ == task@,
            strings_view(r.steps@) == plan_spec(lower(task@), task@),
            strings_view(r.results@) == strings_view(r.steps@).map_values(|s: Seq<char>| step_result(s)),
            r.success == (forall|i: int| 0 <= i < r.results@.len() ==> !has_prefix(#[trigger] r.results@[i]@, "Failed"@)),
            r.summary@ == "Completed "@ + decimal(r.steps@.len()) + " steps"@,
    {
        let steps = self.plan(task, context);
        let mut results: Vec<String> = Vec::new();
        for i in 0..steps.len()
            invariant
                strings_view(results@) == strings_view(steps@).take(i as int).map_values(
                    |s: Seq<char>| step_result(s),
                ),
        {
            let r = self.run_step(steps[i].as_str());
            assert(r@ == step_result(strings_view(steps@)[i as int]));
            let ghost before = results@;
            results.push(r);
            assert(strings_view(results@) =~= strings_view(before).push(r@));
            assert(strings_view(steps@).take(i + 1).map_values(|s: Seq<char>| step_result(s))
                =~= strings_view(steps@).take(i as int).map_values(|s: Seq<char>| step_result(s)).push(
                step_result(strings_view(steps@)[i as int]),
            ));
        }
        assert(strings_view(steps@).take(steps.len() as int) =~= strings_view(steps@));
        let failed = chars_of("Failed");
        let mut success = true;
        for i in 0..results.len()
            invariant
                failed@ == "Failed"@,
                success == (forall|j: int| 0 <= j < i ==> !has_prefix(#[trigger] results@[j]@, "Failed"@)),
        {
            let rv = chars_of(results[i].as_str());
            assert(rv@ == results@[i as int]@);
            if starts_with(&rv, &failed) {
                success = false;
            }
            assert(success == (forall|j: int| 0 <= j < i + 1 ==> !has_prefix(#[trigger] results@[j]@, "Failed"@)));
        }
        assert(success == (forall|j: int| 0 <= j < results@.len() ==> !has_prefix(#[trigger] results@[j]@, "Failed"@)));
        let n = steps.len();
        let mut summary = chars_of("Completed ");
        let d = decimal_string(n as u64);
        append_str(&mut summary, d.as_str());
        append_str(&mut summary, " steps");
        let ghost rs = results@;
        let r = AgentTaskResult {
            success,
            task: String::from_str(task),
            steps,
            results,
            summary: string_from(&summary),
        };
        assert(r.results@ == rs);
        assert(r.success == (forall|j: int| 0 <= j < rs.len() ==> !has_prefix(#[trigger] rs[j]@, "Failed"@)));
        r
    }
}

/// A step report never begins with `Failed`: every planned task succeeds.
pub proof fn lemma_step_results_never_fail(step: Seq<char>)
    ensures
        !has_prefix(step_result(step), "Failed"@),
{
    reveal_strlit("Completed: ");
    reveal_strlit("Failed");
    let r = step_result(step);
    assert(r[0] == 'C');
    if has_prefix(r, "Failed"@) {
        assert(r.take(6)[0] == 'C');
    }
}

} // verus!
