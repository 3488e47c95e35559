//! Regex-based allow / deny / confirm rules for commands.
use vstd::prelude::*;

verus! {

#[verifier::external_type_specification]
#[verifier::external_body]
pub struct ExRegex(regex::Regex);

/// Whether `regex::Regex::new` accepts the pattern.
pub uninterp spec fn regex_compiles(pattern: Seq<char>) -> bool;

/// What `regex::Regex::is_match` answers for the regex compiled from
/// `pattern` on `haystack`.
pub uninterp spec fn regex_matches(pattern: Seq<char>, haystack: Seq<char>) -> bool;

/// A compiled regular expression together with the text it was compiled from.
/// The only way to make one is `Pattern::compile`, so the compiled regex is
/// always that of `source`.
#[derive(Debug)]
pub struct Pattern {
    source: String,
    compiled: regex::Regex,
}

impl View for Pattern {
    type V = Seq<char>;

    /// The pattern's source text.
    closed spec fn view(&self) -> Seq<char> {
        self.source@
    }
}

impl Pattern {
    /// `regex::Regex::new`: compiles `pattern`.  Claimed: the result is
    /// `Some` exactly when the crate accepts the pattern (`regex_compiles`), and
    /// it remembers its source text.
    #[verifier::external_body]
    pub(crate) fn compile(pattern: &str) -> (res: Option<Pattern>)
        ensures
            res is Some <==> regex_compiles(pattern@),
            res matches Some(p) ==> p@ == pattern@,
    {
        match regex::Regex::new(pattern) {
            Ok(compiled) => Some(Pattern { source: pattern.to_string(), compiled }),
            Err(_) => None,
        }
    }

    /// `regex::Regex::is_match`: whether the regex matches anywhere in
    /// `haystack`.  Claimed: the answer is `regex_matches` of the source text
    /// and the haystack.
    #[verifier::external_body]
    pub(crate) fn is_match(&self, haystack: &str) -> (b: bool)
        ensures
            b == regex_matches(self@, haystack@),
    {
        self.compiled.is_match(haystack)
    }
}

#[derive(Debug, Clone, Copy, PartialEq, Eq, Structural)]
pub enum Action {
    Allow,
    Deny,
    Confirm,
}

#[derive(Debug)]
pub struct PolicyRule {
    pub pattern: Pattern,
    pub action: Action,
}

#[derive(Debug)]
pub struct PolicyEngine {
    pub rules: Vec<PolicyRule>,
    pub default_action: Action,
}

/// A rule as the contracts see it: its pattern text and its action.
pub open spec fn rule_view(r: PolicyRule) -> (Seq<char>, Action) {
    (r.pattern@, r.action)
}

pub open spec fn rules_view(rs: Seq<PolicyRule>) -> Seq<(Seq<char>, Action)> {
    rs.map_values(|r: PolicyRule| rule_view(r))
}

/// The rules whose patterns compile, in their order.
pub open spec fn kept_rules(rs: Seq<(String, Action)>) -> Seq<(Seq<char>, Action)>
    decreases rs.len(),
{
    if rs.len() == 0 {
        seq![]
    } else if regex_compiles(rs[0].0@) {
        seq![(rs[0].0@, rs[0].1)] + kept_rules(rs.drop_first())
    } else {
        kept_rules(rs.drop_first())
    }
}

/// The action of the first rule whose pattern matches `cmd`, or `default`.
pub open spec fn first_match(rules: Seq<(Seq<char>, Action)>, cmd: Seq<char>, default: Action) -> Action
    decreases rules.len(),
{
    if rules.len() == 0 {
        default
    } else if regex_matches(rules[0].0, cmd) {
        rules[0].1
    } else {
        first_match(rules.drop_first(), cmd, default)
    }
}

/// The decision the rules as written give: the first rule whose pattern both
/// compiles and matches decides; a rule with a broken pattern never does.
pub open spec fn decide(rs: Seq<(String, Action)>, cmd: Seq<char>, default: Action) -> Action
    decreases rs.len(),
{
    if rs.len() == 0 {
        default
    } else if regex_compiles(rs[0].0@) && regex_matches(rs[0].0@, cmd) {
        rs[0].1
    } else {
        decide(rs.drop_first(), cmd, default)
    }
}

impl PolicyEngine {
    /// An engine with the rules whose patterns compile, in their order; the
    /// others are dropped.
    pub fn new(rules: Vec<(String, Action)>, default_action: Action) -> (e: Self)
        ensures
            rules_view(e.rules@) == kept_rules(rules@),
            e.default_action == default_action,
    {
        let mut kept: Vec<PolicyRule> = Vec::new();
        let mut i: usize = 0;
        assert(rules@.skip(0) == rules@);
        while i < rules.len()
            invariant
                i <= rules@.len(),
                kept_rules(rules@) == rules_view(kept@) + kept_rules(rules@.skip(i as int)),
            decreases rules.len() - i,
        {
            let ghost rest = rules@.skip(i as int);
            assert(rest[0] == rules@[i as int]);
            assert(rest.drop_first() == rules@.skip(i + 1));
            let ghost old_kept = kept@;
            match Pattern::compile(rules[i].0.as_str()) {
                Some(p) => {
                    kept.push(PolicyRule { pattern: p, action: rules[i].1 });
                    assert(rules_view(kept@) =~= rules_view(old_kept).push(
                        (rules@[i as int].0@, rules@[i as int].1),
                    ));
                    assert(rules_view(kept@) + kept_rules(rules@.skip(i + 1)) =~= rules_view(
                        old_kept,
                    ) + kept_rules(rest));
                },
                None => {},
            }
            i = i + 1;
        }
        assert(rules@.skip(i as int) =~= Seq::<(String, Action)>::empty());
        assert(rules_view(kept@) + kept_rules(rules@.skip(i as int)) =~= rules_view(kept@));
        PolicyEngine { rules: kept, default_action }
    }

    /// The action of the first rule that matches `command`, or the default.
    pub fn evaluate(&self, command: &str) -> (a: Action)
        ensures
            a == first_match(rules_view(self.rules@), command@, self.default_action),
    {
        let ghost rv = rules_view(self.rules@);
        let mut i: usize = 0;
        assert(rv.skip(0) == rv);
        while i < self.rules.len()
            invariant
                i <= self.rules@.len(),
                rv == rules_view(self.rules@),
                first_match(rv, command@, self.default_action) == first_match(
                    rv.skip(i as int),
                    command@,
                    self.default_action,
                ),
            decreases self.rules.len() - i,
        {
            let ghost rest = rv.skip(i as int);
            assert(rest[0] == rule_view(self.rules@[i as int]));
            assert(rest.drop_first() == rv.skip(i + 1));
            let rule = &self.rules[i];
            if rule.pattern.is_match(command) {
                return match rule.action {
                    Action::Deny | Action::Confirm => rule.action,
                    Action::Allow => Action::Allow,
                };
            }
            i = i + 1;
        }
        self.default_action
    }
}

/// Dropping the rules whose patterns do not compile does not change any
/// decision: the engine built from a list of rules decides every command as
/// the first rule of the list that compiles and matches, and falls back to the
/// default when none does.
pub proof fn lemma_engine_decides_as_written(
    rs: Seq<(String, Action)>,
    cmd: Seq<char>,
    default: Action,
)
    ensures
        first_match(kept_rules(rs), cmd, default) == decide(rs, cmd, default),
    decreases rs.len(),
{
    if rs.len() > 0 {
        lemma_engine_decides_as_written(rs.drop_first(), cmd, default);
        if regex_compiles(rs[0].0@) {
            let k = seq![(rs[0].0@, rs[0].1)] + kept_rules(rs.drop_first());
            assert(k[0] == (rs[0].0@, rs[0].1));
            assert(k.drop_first() =~= kept_rules(rs.drop_first()));
        }
    }
}

/// An engine without rules answers every command with its default.
pub proof fn lemma_no_rules_default(cmd: Seq<char>, default: Action)
    ensures
        first_match(Seq::empty(), cmd, default) == default,
{
}

} // verus!
