//! Permission rules, policies and remembered approvals.

use vstd::prelude::*;

use crate::ordered::OrderedMap;
#[allow(unused_imports)]
use crate::ordered::{law_put_then_get, lemma_not_found, lookup, present, with_entry};
#[allow(unused_imports)]
use crate::text::{begins, blank, find_char, lemma_find_char, texts, trim, word_length, words_of};
use crate::text::{
    chars_of, is_whitespace, same_text, split_once, starts_with, substring, trimmed, words,
};

verus! {

#[derive(Debug, Clone, Copy, PartialEq, Eq, Structural)]
pub enum PermissionEffect {
    Allow,
    Ask,
    Deny,
}

#[derive(Debug, PartialEq, Eq)]
pub struct PermissionError {
    pub message: String,
}

impl PermissionError {
    fn new(message: &str) -> (r: Self)
        ensures
            r.message@ == message@,
    {
        PermissionError { message: message.to_owned() }
    }

    /// The message of the error.
    pub fn to_text(&self) -> (r: String)
        ensures
            r@ == self.message@,
    {
        self.message.clone()
    }
}

#[derive(Debug, PartialEq, Eq)]
pub struct PermissionRule {
    pub effect: PermissionEffect,
    pub tool: String,
    pub target_prefix: String,
}

/// What a [`PermissionRule`] says.
#[verifier::ext_equal]
pub struct RuleModel {
    pub effect: PermissionEffect,
    pub tool: Seq<char>,
    pub target_prefix: Seq<char>,
}

impl View for PermissionRule {
    type V = RuleModel;

    open spec fn view(&self) -> RuleModel {
        RuleModel {
            effect: self.effect,
            tool: self.tool@,
            target_prefix: self.target_prefix@,
        }
    }
}

pub open spec fn rule_models(rules: Seq<PermissionRule>) -> Seq<RuleModel> {
    Seq::new(rules.len(), |i: int| rules[i]@)
}

/// Whether a rule speaks of using `tool` on `target`.
pub open spec fn rule_matches(rule: RuleModel, tool: Seq<char>, target: Seq<char>) -> bool {
    (rule.tool == "*"@ || rule.tool == tool) && begins(target, rule.target_prefix)
}

impl Clone for PermissionRule {
    fn clone(&self) -> (r: Self)
        ensures
            r@ == self@,
    {
        PermissionRule {
            effect: self.effect,
            tool: self.tool.clone(),
            target_prefix: self.target_prefix.clone(),
        }
    }
}

impl PermissionRule {
    /// Whether the rule speaks of using `tool` on `target`.
    pub fn matches(&self, tool: &str, target: &str) -> (r: bool)
        ensures
            r == rule_matches(self@, tool@, target@),
    {
        (same_text(self.tool.as_str(), "*") || same_text(self.tool.as_str(), tool)) && starts_with(
            target,
            self.target_prefix.as_str(),
        )
    }
}

/// Whether `s` is one word.
pub open spec fn one_word(s: Seq<char>) -> bool {
    s.len() > 0 && words_of(s).len() == 1
}

pub open spec fn rule_form() -> Seq<char> {
    "permission rule must be '<allow|ask|deny> <tool|*>[:<target-prefix>]'"@
}

pub open spec fn effect_named(name: Seq<char>) -> Option<PermissionEffect> {
    if name == "allow"@ {
        Some(PermissionEffect::Allow)
    } else if name == "ask"@ {
        Some(PermissionEffect::Ask)
    } else if name == "deny"@ {
        Some(PermissionEffect::Deny)
    } else {
        None
    }
}

/// The tool and the target prefix that a selector names.
pub open spec fn parse_selector(selector: Seq<char>) -> Result<(Seq<char>, Seq<char>), Seq<char>> {
    let i = find_char(selector, ':');
    if 0 <= i < selector.len() {
        let tool = trim(selector.take(i));
        let target = trim(selector.skip(i + 1));
        if !one_word(tool) {
            Err("permission rule tool must be a single non-empty name"@)
        } else if !one_word(target) {
            Err("permission rule target prefix must be a single non-empty value"@)
        } else {
            Ok((tool, target))
        }
    } else if !one_word(selector) {
        Err(rule_form())
    } else {
        Ok((selector, ""@))
    }
}

/// The rule that `text` denotes, or why it denotes none.
pub open spec fn parse_rule(text: Seq<char>) -> Result<RuleModel, Seq<char>> {
    let body = trim(text);
    let i = word_length(body);
    if i >= body.len() {
        Err(rule_form())
    } else {
        match parse_selector(trim(body.skip(i + 1))) {
            Err(message) => Err(message),
            Ok((tool, target_prefix)) => match effect_named(body.take(i)) {
                Some(effect) => Ok(RuleModel { effect, tool, target_prefix }),
                None => Err("permission effect must be one of 'allow', 'ask', or 'deny'"@),
            },
        }
    }
}

fn is_one_word(s: &str) -> (r: bool)
    ensures
        r == one_word(s@),
{
    let found = words(s);
    assert(texts(found@).len() == found@.len());
    !s.is_empty() && found.len() == 1
}

fn selector_parts(selector: &str) -> (r: Result<(String, String), PermissionError>)
    ensures
        match r {
            Ok((tool, target)) => parse_selector(selector@) == Ok::<
                (Seq<char>, Seq<char>),
                Seq<char>,
            >((tool@, target@)),
            Err(error) => parse_selector(selector@) == Err::<(Seq<char>, Seq<char>), Seq<char>>(
                error.message@,
            ),
        },
{
    proof {
        lemma_find_char(selector@, ':');
    }
    match split_once(selector, ':') {
        Some((left, right)) => {
            let tool = trimmed(left.as_str());
            let target = trimmed(right.as_str());
            if !is_one_word(tool.as_str()) {
                return Err(
                    PermissionError::new("permission rule tool must be a single non-empty name"),
                );
            }
            if !is_one_word(target.as_str()) {
                return Err(
                    PermissionError::new(
                        "permission rule target prefix must be a single non-empty value",
                    ),
                );
            }
            Ok((tool, target))
        },
        None => {
            if !is_one_word(selector) {
                return Err(
                    PermissionError::new(
                        "permission rule must be '<allow|ask|deny> <tool|*>[:<target-prefix>]'",
                    ),
                );
            }
            Ok((selector.to_owned(), "".to_owned()))
        },
    }
}

/// Reads a rule such as `allow read_file:src/` or `deny run_command`.
pub fn parse_permission_rule(text: &str) -> (r: Result<PermissionRule, PermissionError>)
    ensures
        match r {
            Ok(rule) => parse_rule(text@) == Ok::<RuleModel, Seq<char>>(rule@),
            Err(error) => parse_rule(text@) == Err::<RuleModel, Seq<char>>(error.message@),
        },
{
    let body = trimmed(text);
    let chars = chars_of(body.as_str());
    let mut i: usize = 0;
    while i < chars.len() && !is_whitespace(chars[i])
        invariant
            i <= chars@.len(),
            forall|j: int| 0 <= j < i ==> !crate::text::white(chars@[j]),
        decreases chars@.len() - i,
    {
        i += 1;
    }
    proof {
        crate::text::lemma_word_length_is(body@, i as int);
    }
    if i == chars.len() {
        return Err(
            PermissionError::new(
                "permission rule must be '<allow|ask|deny> <tool|*>[:<target-prefix>]'",
            ),
        );
    }
    let name = substring(&chars, 0, i);
    let rest = substring(&chars, i + 1, chars.len());
    assert(name@ =~= body@.take(i as int));
    assert(rest@ =~= body@.skip(i + 1));
    let (tool, target_prefix) = match selector_parts(trimmed(rest.as_str()).as_str()) {
        Ok(parts) => parts,
        Err(error) => {
            return Err(error);
        },
    };
    let effect = if same_text(name.as_str(), "allow") {
        PermissionEffect::Allow
    } else if same_text(name.as_str(), "ask") {
        PermissionEffect::Ask
    } else if same_text(name.as_str(), "deny") {
        PermissionEffect::Deny
    } else {
        return Err(
            PermissionError::new("permission effect must be one of 'allow', 'ask', or 'deny'"),
        );
    };
    Ok(PermissionRule { effect, tool, target_prefix })
}

#[derive(Debug, PartialEq, Eq)]
pub struct PermissionPolicy {
    rules: Vec<PermissionRule>,
}

impl View for PermissionPolicy {
    type V = Seq<RuleModel>;

    closed spec fn view(&self) -> Seq<RuleModel> {
        rule_models(self.rules@)
    }
}

/// The effect of the first rule from `index` on that matches, or `Ask`.
pub open spec fn decide_from(
    rules: Seq<RuleModel>,
    index: int,
    tool: Seq<char>,
    target: Seq<char>,
) -> PermissionEffect
    decreases rules.len() - index,
{
    if !(0 <= index < rules.len()) {
        PermissionEffect::Ask
    } else if rule_matches(rules[index], tool, target) {
        rules[index].effect
    } else {
        decide_from(rules, index + 1, tool, target)
    }
}

impl Default for PermissionPolicy {
    fn default() -> (r: Self)
        ensures
            r@ == Seq::<RuleModel>::empty(),
    {
        PermissionPolicy::new()
    }
}

impl Clone for PermissionPolicy {
    fn clone(&self) -> (r: Self)
        ensures
            r@ == self@,
    {
        let mut rules: Vec<PermissionRule> = Vec::new();
        let mut i: usize = 0;
        while i < self.rules.len()
            invariant
                i <= self.rules@.len(),
                rule_models(rules@) == rule_models(self.rules@).take(i as int),
            decreases self.rules@.len() - i,
        {
            let ghost before = rules@;
            rules.push(self.rules[i].clone());
            assert(rule_models(rules@) =~= rule_models(before).push(self.rules@[i as int]@));
            assert(rule_models(self.rules@).take(i + 1) =~= rule_models(self.rules@).take(
                i as int,
            ).push(self.rules@[i as int]@));
            i += 1;
        }
        assert(rule_models(self.rules@).take(self.rules@.len() as int) =~= rule_models(
            self.rules@,
        ));
        PermissionPolicy { rules }
    }
}

impl PermissionPolicy {
    pub fn new() -> (r: Self)
        ensures
            r@ == Seq::<RuleModel>::empty(),
    {
        let r = PermissionPolicy { rules: Vec::new() };
        assert(r@ =~= Seq::<RuleModel>::empty());
        r
    }

    pub fn with_rules(rules: Vec<PermissionRule>) -> (r: Self)
        ensures
            r@ == rule_models(rules@),
    {
        PermissionPolicy { rules }
    }

    pub fn add_rule(&mut self, rule: PermissionRule)
        ensures
            final(self)@ == old(self)@.push(rule@),
    {
        let ghost before = self@;
        self.rules.push(rule);
        assert(self@ =~= before.push(rule@));
    }

    pub fn rules(&self) -> (r: &[PermissionRule])
        ensures
            rule_models(r@) == self@,
    {
        self.rules.as_slice()
    }

    /// What the policy says of using `tool` on `target`: the first rule that matches decides, and
    /// where none does the user is asked.
    pub fn decide(&self, tool: &str, target: &str) -> (r: PermissionEffect)
        ensures
            r == decide_from(self@, 0, tool@, target@),
    {
        let mut i: usize = 0;
        while i < self.rules.len()
            invariant
                i <= self.rules@.len(),
                decide_from(self@, 0, tool@, target@) == decide_from(
                    self@,
                    i as int,
                    tool@,
                    target@,
                ),
            decreases self.rules@.len() - i,
        {
            assert(self@[i as int] == self.rules@[i as int]@);
            if self.rules[i].matches(tool, target) {
                return self.rules[i].effect;
            }
            i += 1;
        }
        PermissionEffect::Ask
    }
}

/// The approvals that a user gave for the rest of a session.
#[derive(Debug)]
pub struct SessionApprovals {
    allowed: OrderedMap<Vec<String>, ()>,
}

/// A tool and a target.
pub type Use = (Seq<char>, Seq<char>);

impl View for SessionApprovals {
    type V = Set<Use>;

    closed spec fn view(&self) -> Set<Use> {
        Set::new(|u: Use| present::<Vec<String>, ()>(self.allowed@, seq![u.0, u.1]))
    }
}

fn use_key(tool: &str, target: &str) -> (r: Vec<String>)
    ensures
        texts(r@) == seq![tool@, target@],
{
    let mut r: Vec<String> = Vec::new();
    r.push(tool.to_owned());
    r.push(target.to_owned());
    assert(texts(r@) =~= seq![tool@, target@]);
    r
}

impl Default for SessionApprovals {
    fn default() -> (r: Self)
        ensures
            r@ == Set::<Use>::empty(),
    {
        SessionApprovals::new()
    }
}

impl SessionApprovals {
    pub fn new() -> (r: Self)
        ensures
            r@ == Set::<Use>::empty(),
    {
        let r = SessionApprovals { allowed: OrderedMap::new() };
        proof {
            assert forall|u: Use| !#[trigger] r@.contains(u) by {
                lemma_not_found::<Vec<String>, ()>(r.allowed@, seq![u.0, u.1]);
            }
            assert(r@ =~= Set::<Use>::empty());
        }
        r
    }

    /// Remembers that `tool` may be used on `target`.
    pub fn remember(&mut self, tool: &str, target: &str)
        ensures
            final(self)@ == old(self)@.insert((tool@, target@)),
    {
        let ghost before = self.allowed@;
        let ghost seen = self@;
        self.allowed.in_order();
        let key = use_key(tool, target);
        self.allowed.insert(key, ());
        proof {
            assert forall|u: Use| #[trigger] self@.contains(u) == seen.insert(
                (tool@, target@),
            ).contains(u) by {
                law_put_then_get::<Vec<String>, ()>(
                    before,
                    seq![tool@, target@],
                    (),
                    seq![u.0, u.1],
                );
                if u != (tool@, target@) {
                    if seq![u.0, u.1] == seq![tool@, target@] {
                        assert(seq![u.0, u.1][0] == seq![tool@, target@][0]);
                        assert(seq![u.0, u.1][1] == seq![tool@, target@][1]);
                    }
                }
            }
            assert(self@ =~= seen.insert((tool@, target@)));
        }
    }

    /// Whether using `tool` on `target` was approved.
    pub fn is_allowed(&self, tool: &str, target: &str) -> (r: bool)
        ensures
            r == self@.contains((tool@, target@)),
    {
        self.allowed.contains(&use_key(tool, target))
    }

    /// Forgets every approval.
    pub fn clear(&mut self)
        ensures
            final(self)@ == Set::<Use>::empty(),
    {
        *self = SessionApprovals::new();
    }
}

// ---------------------------------------------------------------------------
// What policies guarantee
// ---------------------------------------------------------------------------

/// The first rule that matches decides, whatever rules follow it.
pub proof fn law_first_match_decides(
    rules: Seq<RuleModel>,
    index: int,
    tool: Seq<char>,
    target: Seq<char>,
)
    requires
        0 <= index < rules.len(),
        rule_matches(rules[index], tool, target),
        forall|i: int| 0 <= i < index ==> !rule_matches(#[trigger] rules[i], tool, target),
    ensures
        decide_from(rules, 0, tool, target) == rules[index].effect,
{
    lemma_decide(rules, 0, index, tool, target);
}

proof fn lemma_decide(
    rules: Seq<RuleModel>,
    from: int,
    index: int,
    tool: Seq<char>,
    target: Seq<char>,
)
    requires
        0 <= from <= index <= rules.len(),
        forall|i: int| from <= i < index ==> !rule_matches(#[trigger] rules[i], tool, target),
    ensures
        decide_from(rules, from, tool, target) == decide_from(rules, index, tool, target),
    decreases index - from,
{
    if from < index {
        assert(!rule_matches(rules[from], tool, target));
        lemma_decide(rules, from + 1, index, tool, target);
    }
}

/// Where no rule matches, the user is asked.
pub proof fn law_unmatched_uses_are_asked(
    rules: Seq<RuleModel>,
    tool: Seq<char>,
    target: Seq<char>,
)
    requires
        forall|i: int| 0 <= i < rules.len() ==> !rule_matches(#[trigger] rules[i], tool, target),
    ensures
        decide_from(rules, 0, tool, target) == PermissionEffect::Ask,
{
    lemma_decide(rules, 0, rules.len() as int, tool, target);
}

/// A rule speaks of its own tool, or of every tool where it names `*`, and of the targets that begin
/// with its prefix. The first rule that speaks of a use decides it.
pub proof fn law_rules_speak_of_their_tool_and_prefix(
    policy: PermissionPolicy,
    tool: &str,
    target: &str,
    rest: Seq<char>,
    index: int,
    r: PermissionEffect,
)
    requires
        call_ensures(PermissionPolicy::decide, (&policy, tool, target), r),
        0 <= index < policy@.len(),
        policy@[index].tool == tool@ || policy@[index].tool == "*"@,
        target@ == policy@[index].target_prefix + rest,
        forall|i: int|
            #![trigger policy@[i]]
            0 <= i < index ==> policy@[i].tool != tool@ && policy@[i].tool != "*"@ || forall|
                other: Seq<char>,
            |
                target@ != #[trigger] (policy@[i].target_prefix + other),
    ensures
        r == policy@[index].effect,
{
    let rules = policy@;
    assert(target@.take(rules[index].target_prefix.len() as int) =~= rules[index].target_prefix);
    assert forall|i: int| 0 <= i < index implies !rule_matches(
        #[trigger] rules[i],
        tool@,
        target@,
    ) by {
        let prefix = rules[i].target_prefix;
        if rule_matches(rules[i], tool@, target@) {
            assert(target@ =~= prefix + target@.skip(prefix.len() as int));
        }
    }
    law_first_match_decides(rules, index, tool@, target@);
}

/// A rule that names another tool never decides, and neither does one whose prefix the target does
/// not begin with: where there are only such rules, the user is asked.
pub proof fn law_other_tools_and_targets_are_asked_about(
    policy: PermissionPolicy,
    tool: &str,
    target: &str,
    r: PermissionEffect,
)
    requires
        call_ensures(PermissionPolicy::decide, (&policy, tool, target), r),
        forall|i: int|
            #![trigger policy@[i]]
            0 <= i < policy@.len() ==> policy@[i].tool != tool@ && policy@[i].tool != "*"@
                || forall|other: Seq<char>|
                target@ != #[trigger] (policy@[i].target_prefix + other),
    ensures
        r == PermissionEffect::Ask,
{
    let rules = policy@;
    assert forall|i: int| 0 <= i < rules.len() implies !rule_matches(
        #[trigger] rules[i],
        tool@,
        target@,
    ) by {
        let prefix = rules[i].target_prefix;
        if rule_matches(rules[i], tool@, target@) {
            assert(target@ =~= prefix + target@.skip(prefix.len() as int));
        }
    }
    law_unmatched_uses_are_asked(rules, tool@, target@);
}

/// A single rule matches a use exactly where it names the tool or `*`, and the target is its prefix
/// with something or nothing behind it.
pub proof fn law_rules_match_their_uses(
    rule: PermissionRule,
    tool: &str,
    target: &str,
    r: bool,
)
    requires
        call_ensures(PermissionRule::matches, (&rule, tool, target), r),
    ensures
        r <==> (rule.tool@ == tool@ || rule.tool@ == "*"@) && exists|rest: Seq<char>|
            target@ == #[trigger] (rule.target_prefix@ + rest),
{
    let prefix = rule.target_prefix@;
    if begins(target@, prefix) {
        assert(target@ =~= prefix + target@.skip(prefix.len() as int));
    }
    if exists|rest: Seq<char>| target@ == #[trigger] (prefix + rest) {
        let rest = choose|rest: Seq<char>| target@ == #[trigger] (prefix + rest);
        assert((prefix + rest).take(prefix.len() as int) =~= prefix);
    }
}

/// A use that is remembered is allowed from then on, and no other use is: not the same tool on
/// another target, nor another tool on the same target. What was allowed before still is, until the
/// approvals are cleared.
pub proof fn law_approvals_are_remembered()
    ensures
        forall|
            approvals: &mut SessionApprovals,
            tool: &str,
            target: &str,
            other_tool: &str,
            other_target: &str,
            before: bool,
            after: bool,
        |
            call_ensures(SessionApprovals::remember, (approvals, tool, target), ())
                && #[trigger] call_ensures(
                SessionApprovals::is_allowed,
                (&*approvals, other_tool, other_target),
                before,
            ) && #[trigger] call_ensures(
                SessionApprovals::is_allowed,
                (&*final(approvals), other_tool, other_target),
                after,
            ) && #[trigger] call_ensures(
                SessionApprovals::remember,
                (approvals, tool, target),
                (),
            ) ==> (after <==> before || other_tool@ == tool@ && other_target@ == target@),
        forall|approvals: &mut SessionApprovals, tool: &str, target: &str, after: bool|
            #[trigger] call_ensures(SessionApprovals::clear, (approvals,), ())
                && #[trigger] call_ensures(
                SessionApprovals::is_allowed,
                (&*final(approvals), tool, target),
                after,
            ) ==> !after,
        forall|approvals: SessionApprovals, tool: &str, target: &str, after: bool|
            #[trigger] call_ensures(SessionApprovals::new, (), approvals)
                && #[trigger] call_ensures(
                SessionApprovals::is_allowed,
                (&approvals, tool, target),
                after,
            ) ==> !after,
{
}

} // verus!
