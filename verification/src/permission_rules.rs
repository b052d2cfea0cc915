//! Permission rules that are kept on disk or given on the command line.

use vstd::prelude::*;
#[allow(unused_imports)]
use vstd::utf8::encode_utf8;

use crate::command_line::{Reply, extract_permission_rule_texts};
#[allow(unused_imports)]
use crate::command_line::{ReplyModel, failure, flag_values, said, said_line};
use crate::permissions::{
    PermissionEffect, PermissionPolicy, PermissionRule, parse_permission_rule,
};
#[allow(unused_imports)]
use crate::permissions::{
    RuleModel, decide_from, effect_named, parse_rule, rule_matches, rule_models,
};
use crate::runtime_error::labelled;
use crate::text::{same_text, trimmed};
#[allow(unused_imports)]
use crate::json::json_string;
#[allow(unused_imports)]
use crate::text::{
    all_white, begins, ends, find_char, joined, lacks, lemma_find_char, lemma_find_char_is, lemma_one_word,
    lemma_only_word, lemma_trim_padded, lemma_trim_parts, lemma_trim_solid, lemma_word_length,
    lemma_word_length_is, texts, trim, white, word_length,
};

verus! {

/// What `serde_json::from_slice` reads in bytes as a list of texts, or the message of the error.
pub uninterp spec fn texts_reading(bytes: Seq<u8>) -> Result<Seq<Seq<char>>, Seq<char>>;

/// `serde_json::from_slice` on bytes, as a `Vec<String>`. The result depends on the bytes alone
/// and is called [`texts_reading`].
#[verifier::external_body]
fn decode_texts(bytes: &[u8]) -> (r: Result<Vec<String>, String>)
    ensures
        match r {
            Ok(items) => texts_reading(bytes@) == Ok::<Seq<Seq<char>>, Seq<char>>(texts(items@)),
            Err(message) => texts_reading(bytes@) == Err::<Seq<Seq<char>>, Seq<char>>(message@),
        },
{
    serde_json::from_slice::<Vec<String>>(bytes).map_err(|error| error.to_string())
}

/// A list of texts as indented JSON: each text on a line of its own, behind two spaces.
pub open spec fn texts_layout(items: Seq<Seq<char>>) -> Seq<char> {
    if items.len() == 0 {
        "[]"@
    } else {
        "[\n"@ + joined(Seq::new(items.len(), |i: int| "  "@ + json_string(items[i])), ",\n"@)
            + "\n]"@
    }
}

/// `serde_json::to_vec_pretty` on a `Vec<String>`, which cannot fail. It writes UTF-8, with
/// `PrettyFormatter` of `serde_json`: the brackets, a line for each text with an indent of two
/// spaces, and commas between them. What was written is read as the same texts.
#[verifier::external_body]
fn encode_texts(items: &Vec<String>) -> (r: Result<Vec<u8>, String>)
    ensures
        match r {
            Ok(bytes) => {
                &&& bytes@ == encode_utf8(texts_layout(texts(items@)))
                &&& texts_reading(bytes@) == Ok::<Seq<Seq<char>>, Seq<char>>(texts(items@))
                &&& bytes@.len() > 0
            },
            Err(_) => r is Ok,
        },
{
    serde_json::to_vec_pretty(items).map_err(|error| error.to_string())
}

// ---------------------------------------------------------------------------
// Stored rules
// ---------------------------------------------------------------------------

/// What was found where the rules are kept.
#[derive(Debug, PartialEq, Eq)]
pub enum RulesFile {
    Missing,
    Unreadable(String),
    Found(Vec<u8>),
}

/// The texts of the rules that a file holds.
pub open spec fn stored_texts(file: RulesFile) -> Result<Seq<Seq<char>>, Seq<char>> {
    match file {
        RulesFile::Missing => Ok(Seq::empty()),
        RulesFile::Unreadable(message) => Err("cannot read permission rules: "@ + message@),
        RulesFile::Found(bytes) => if bytes@.len() == 0 {
            Ok(Seq::empty())
        } else {
            match texts_reading(bytes@) {
                Ok(items) => Ok(items),
                Err(message) => Err("cannot decode permission rules: "@ + message),
            }
        },
    }
}

/// The message for a rule that cannot be read.
pub open spec fn rule_trouble(label: Seq<char>, text: Seq<char>, message: Seq<char>) -> Seq<char> {
    label + text + "': "@ + message
}

/// The first `n` rules, or the message for the first of them that cannot be read.
pub open spec fn rules_read(items: Seq<Seq<char>>, label: Seq<char>, n: int) -> Result<
    Seq<RuleModel>,
    Seq<char>,
>
    decreases n,
{
    if n <= 0 {
        Ok(Seq::empty())
    } else {
        match rules_read(items, label, n - 1) {
            Err(message) => Err(message),
            Ok(before) => match parse_rule(items[n - 1]) {
                Ok(rule) => Ok(before.push(rule)),
                Err(message) => Err(rule_trouble(label, items[n - 1], message)),
            },
        }
    }
}

proof fn lemma_rules_read_fail(items: Seq<Seq<char>>, label: Seq<char>, i: int, n: int)
    requires
        0 <= i <= n,
        rules_read(items, label, i) is Err,
    ensures
        rules_read(items, label, n) == rules_read(items, label, i),
    decreases n - i,
{
    if i < n {
        lemma_rules_read_fail(items, label, i, n - 1);
    }
}

fn tell_rule(label: &str, text: &str, message: &str) -> (r: String)
    ensures
        r@ == rule_trouble(label@, text@, message@),
{
    let mut r = labelled(label, text);
    r.push_str("': ");
    r.push_str(message);
    r
}

fn read_rules(items: &Vec<String>, label: &str) -> (r: Result<PermissionPolicy, String>)
    ensures
        match r {
            Ok(policy) => rules_read(texts(items@), label@, items@.len() as int) == Ok::<
                Seq<RuleModel>,
                Seq<char>,
            >(policy@),
            Err(message) => rules_read(texts(items@), label@, items@.len() as int) == Err::<
                Seq<RuleModel>,
                Seq<char>,
            >(message@),
        },
{
    let ghost all = texts(items@);
    let mut policy = PermissionPolicy::new();
    let mut i: usize = 0;
    while i < items.len()
        invariant
            i <= items@.len(),
            all == texts(items@),
            rules_read(all, label@, i as int) == Ok::<Seq<RuleModel>, Seq<char>>(policy@),
        decreases items@.len() - i,
    {
        assert(all[i as int] == items@[i as int]@);
        match parse_permission_rule(items[i].as_str()) {
            Err(error) => {
                let message = tell_rule(label, items[i].as_str(), error.to_text().as_str());
                proof {
                    lemma_rules_read_fail(all, label@, i + 1, all.len() as int);
                }
                return Err(message);
            },
            Ok(rule) => policy.add_rule(rule),
        }
        i += 1;
    }
    Ok(policy)
}

fn read_stored(file: &RulesFile) -> (r: Result<Vec<String>, String>)
    ensures
        match r {
            Ok(items) => stored_texts(*file) == Ok::<Seq<Seq<char>>, Seq<char>>(texts(items@)),
            Err(message) => stored_texts(*file) == Err::<Seq<Seq<char>>, Seq<char>>(message@),
        },
{
    let none: Vec<String> = Vec::new();
    assert(texts(none@) =~= Seq::<Seq<char>>::empty());
    match file {
        RulesFile::Missing => Ok(none),
        RulesFile::Unreadable(message) => Err(
            labelled("cannot read permission rules: ", message.as_str()),
        ),
        RulesFile::Found(bytes) => if bytes.len() == 0 {
            Ok(none)
        } else {
            match decode_texts(bytes.as_slice()) {
                Ok(items) => Ok(items),
                Err(message) => Err(
                    labelled("cannot decode permission rules: ", message.as_str()),
                ),
            }
        },
    }
}

/// The policy for texts of rules, stored ones.
pub open spec fn policy_of(items: Seq<Seq<char>>) -> Result<Seq<RuleModel>, Seq<char>> {
    rules_read(items, "invalid stored rule '"@, items.len() as int)
}

/// The policy that a file holds.
pub open spec fn stored_policy(file: RulesFile) -> Result<Seq<RuleModel>, Seq<char>> {
    match stored_texts(file) {
        Err(message) => Err(message),
        Ok(items) => policy_of(items),
    }
}

/// The policy of stored rules.
pub fn decode_policy(items: &Vec<String>) -> (r: Result<PermissionPolicy, String>)
    ensures
        match r {
            Ok(policy) => policy_of(texts(items@)) == Ok::<Seq<RuleModel>, Seq<char>>(policy@),
            Err(message) => policy_of(texts(items@)) == Err::<Seq<RuleModel>, Seq<char>>(
                message@,
            ),
        },
{
    assert(texts(items@).len() == items@.len());
    read_rules(items, "invalid stored rule '")
}

/// The policy that a file holds.
pub fn load_stored_permission_policy(file: &RulesFile) -> (r: Result<PermissionPolicy, String>)
    ensures
        match r {
            Ok(policy) => stored_policy(*file) == Ok::<Seq<RuleModel>, Seq<char>>(policy@),
            Err(message) => stored_policy(*file) == Err::<Seq<RuleModel>, Seq<char>>(message@),
        },
{
    match read_stored(file) {
        Err(message) => Err(message),
        Ok(items) => decode_policy(&items),
    }
}

/// The texts to store once a rule is added.
pub open spec fn texts_with(stored: Seq<Seq<char>>, text: Seq<char>) -> Result<
    Seq<Seq<char>>,
    Seq<char>,
> {
    match policy_of(stored) {
        Err(message) => Err(message),
        Ok(_) => Ok(stored.push(trim(text))),
    }
}

/// The texts to store once a rule is added to what a file holds.
pub open spec fn rule_added(file: RulesFile, text: Seq<char>) -> Result<
    Seq<Seq<char>>,
    Seq<char>,
> {
    match parse_rule(trim(text)) {
        Err(message) => Err(rule_trouble("invalid rule '"@, trim(text), message)),
        Ok(_) => match stored_texts(file) {
            Err(message) => Err(message),
            Ok(stored) => texts_with(stored, text),
        },
    }
}

/// What is to be written to add a rule to those that a file holds.
pub fn add_stored_permission_rule(file: &RulesFile, text: &str) -> (r: Result<Vec<u8>, String>)
    ensures
        match rule_added(*file, text@) {
            Err(message) => r matches Err(told) && told@ == message,
            Ok(items) => r matches Ok(content) && {
                &&& content@ == encode_utf8(texts_layout(items))
                &&& stored_texts(RulesFile::Found(content)) == Ok::<Seq<Seq<char>>, Seq<char>>(
                    items,
                )
            },
        },
{
    let rule = trimmed(text);
    match parse_permission_rule(rule.as_str()) {
        Err(error) => {
            return Err(
                tell_rule("invalid rule '", rule.as_str(), error.to_text().as_str()),
            );
        },
        Ok(_) => {},
    }
    let mut stored = match read_stored(file) {
        Err(message) => return Err(message),
        Ok(stored) => stored,
    };
    match decode_policy(&stored) {
        Err(message) => return Err(message),
        Ok(_) => {},
    }
    let ghost before = stored@;
    stored.push(rule);
    assert(texts(stored@) =~= texts(before).push(rule@));
    match encode_texts(&stored) {
        Ok(content) => Ok(content),
        Err(message) => Err(labelled("cannot encode permission rules: ", message.as_str())),
    }
}

/// A rule that was added is the last rule of the policy that is loaded afterwards; the rules
/// before it stay as they are.
pub proof fn law_added_rules_are_loaded(file: RulesFile, text: Seq<char>, written: RulesFile)
    requires
        rule_added(file, text) is Ok,
        stored_texts(written) == rule_added(file, text),
    ensures
        ({
            let before = stored_policy(file);
            let rule = parse_rule(trim(text));
            &&& before is Ok
            &&& rule is Ok
            &&& stored_policy(written) == Ok::<Seq<RuleModel>, Seq<char>>(
                before->Ok_0.push(rule->Ok_0),
            )
        }),
{
    let stored = stored_texts(file)->Ok_0;
    let items = stored.push(trim(text));
    let label = "invalid stored rule '"@;
    lemma_rules_read_prefix(stored, items, label, stored.len() as int);
}

proof fn lemma_rules_read_prefix(
    items: Seq<Seq<char>>,
    longer: Seq<Seq<char>>,
    label: Seq<char>,
    n: int,
)
    requires
        n <= items.len() <= longer.len(),
        forall|i: int| 0 <= i < items.len() ==> items[i] == longer[i],
    ensures
        rules_read(longer, label, n) == rules_read(items, label, n),
    decreases n,
{
    if n > 0 {
        lemma_rules_read_prefix(items, longer, label, n - 1);
    }
}

// ---------------------------------------------------------------------------
// Rules on the command line
// ---------------------------------------------------------------------------

/// The policy that the arguments give.
pub open spec fn given_policy(arguments: Seq<Seq<char>>) -> Result<Seq<RuleModel>, Seq<char>> {
    let items = flag_values(arguments, "--rule"@);
    rules_read(items, "invalid --rule '"@, items.len() as int)
}

/// The policy that the arguments give.
pub fn build_permission_policy(arguments: &[String]) -> (r: Result<PermissionPolicy, String>)
    ensures
        match r {
            Ok(policy) => given_policy(texts(arguments@)) == Ok::<Seq<RuleModel>, Seq<char>>(
                policy@,
            ),
            Err(message) => given_policy(texts(arguments@)) == Err::<Seq<RuleModel>, Seq<char>>(
                message@,
            ),
        },
{
    let items = extract_permission_rule_texts(arguments);
    assert(texts(items@).len() == items@.len());
    read_rules(&items, "invalid --rule '")
}

/// The rules of the command line, and the stored ones behind them.
pub open spec fn merged_rules(
    given: Result<Seq<RuleModel>, Seq<char>>,
    stored: Result<Seq<RuleModel>, Seq<char>>,
) -> Result<Seq<RuleModel>, Seq<char>> {
    match given {
        Err(message) => Err(message),
        Ok(given) => match stored {
            Err(message) => Err(message),
            Ok(stored) => Ok(given + stored),
        },
    }
}

/// The rules of the command line, and the stored ones behind them.
pub fn merged_permission_policy(file: &RulesFile, arguments: &[String]) -> (r: Result<
    PermissionPolicy,
    String,
>)
    ensures
        ({
            let merged = merged_rules(given_policy(texts(arguments@)), stored_policy(*file));
            match r {
                Ok(policy) => merged == Ok::<Seq<RuleModel>, Seq<char>>(policy@),
                Err(message) => merged == Err::<Seq<RuleModel>, Seq<char>>(message@),
            }
        }),
{
    let mut policy = match build_permission_policy(arguments) {
        Err(message) => return Err(message),
        Ok(policy) => policy,
    };
    let stored = match load_stored_permission_policy(file) {
        Err(message) => return Err(message),
        Ok(stored) => stored,
    };
    let ghost given = policy@;
    let rules = stored.rules();
    let mut i: usize = 0;
    assert(given + stored@.take(0) =~= given);
    while i < rules.len()
        invariant
            i <= rules@.len(),
            rule_models(rules@) == stored@,
            policy@ == given + stored@.take(i as int),
        decreases rules@.len() - i,
    {
        assert(stored@[i as int] == rules@[i as int]@);
        policy.add_rule(rules[i].clone());
        assert((given + stored@.take(i as int)).push(stored@[i as int]) =~= given + stored@.take(
            i + 1,
        ));
        i += 1;
    }
    assert(stored@.len() == rules@.len());
    assert(stored@.take(i as int) =~= stored@);
    Ok(policy)
}

/// Where a rule of the command line matches, the stored rules have no say.
pub proof fn law_given_rules_come_first(
    given: Seq<RuleModel>,
    stored: Seq<RuleModel>,
    index: int,
    tool: Seq<char>,
    target: Seq<char>,
)
    requires
        0 <= index <= given.len(),
    ensures
        (exists|i: int| index <= i < given.len() && rule_matches(#[trigger] given[i], tool, target))
            ==> decide_from(given + stored, index, tool, target) == decide_from(
            given,
            index,
            tool,
            target,
        ),
    decreases given.len() - index,
{
    if index < given.len() {
        assert((given + stored)[index] == given[index]);
        if !rule_matches(given[index], tool, target) {
            law_given_rules_come_first(given, stored, index + 1, tool, target);
            assert forall|i: int|
                index <= i < given.len() && rule_matches(
                    #[trigger] given[i],
                    tool,
                    target,
                ) implies index + 1 <= i by {}
        }
    }
}

// ---------------------------------------------------------------------------
// Commands
// ---------------------------------------------------------------------------

/// The word for an effect.
pub open spec fn effect_word(effect: PermissionEffect) -> Seq<char> {
    match effect {
        PermissionEffect::Allow => "allow"@,
        PermissionEffect::Ask => "ask"@,
        PermissionEffect::Deny => "deny"@,
    }
}

/// A rule as it is listed.
pub open spec fn rule_line(rule: RuleModel) -> Seq<char> {
    if rule.target_prefix.len() == 0 {
        effect_word(rule.effect) + " "@ + rule.tool
    } else {
        effect_word(rule.effect) + " "@ + rule.tool + ":"@ + rule.target_prefix
    }
}

fn format_rule(rule: &PermissionRule) -> (r: String)
    ensures
        r@ == rule_line(rule@),
{
    let mut r = match rule.effect {
        PermissionEffect::Allow => "allow".to_owned(),
        PermissionEffect::Ask => "ask".to_owned(),
        PermissionEffect::Deny => "deny".to_owned(),
    };
    r.push_str(" ");
    r.push_str(rule.tool.as_str());
    if !rule.target_prefix.as_str().is_empty() {
        r.push_str(":");
        r.push_str(rule.target_prefix.as_str());
    }
    r
}

/// What is asked of the stored rules.
#[derive(Debug, PartialEq, Eq)]
pub enum PermissionCommand {
    List,
    Add(String),
    Clear,
    Usage,
}

/// What is asked of the stored rules.
pub fn parse_permission_command(arguments: &[String]) -> (r: PermissionCommand)
    ensures
        ({
            let all = texts(arguments@);
            match r {
                PermissionCommand::List => all.len() > 0 && all[0] == "list"@,
                PermissionCommand::Add(rule) => all.len() == 2 && all[0] == "add"@ && rule@
                    == all[1],
                PermissionCommand::Clear => all.len() == 1 && all[0] == "clear"@,
                PermissionCommand::Usage => !(all.len() > 0 && all[0] == "list"@) && !(all.len()
                    == 2 && all[0] == "add"@) && !(all.len() == 1 && all[0] == "clear"@),
            }
        }),
{
    if arguments.len() == 0 {
        return PermissionCommand::Usage;
    }
    assert(texts(arguments@)[0] == arguments@[0]@);
    let command = arguments[0].as_str();
    if same_text(command, "list") {
        PermissionCommand::List
    } else if arguments.len() == 2 && same_text(command, "add") {
        PermissionCommand::Add(arguments[1].clone())
    } else if arguments.len() == 1 && same_text(command, "clear") {
        PermissionCommand::Clear
    } else {
        PermissionCommand::Usage
    }
}

/// The lines that list rules.
pub open spec fn rule_lines(rules: Seq<RuleModel>) -> Seq<Seq<char>> {
    if rules.len() == 0 {
        seq!["(no rules)"@]
    } else {
        Seq::new(rules.len(), |i: int| rule_line(rules[i]))
    }
}

/// The reply that lists the stored rules.
pub fn list_rules(file: &RulesFile) -> (r: Reply)
    ensures
        r@ == (match stored_policy(*file) {
            Ok(rules) => said(rule_lines(rules)),
            Err(message) => failure("[permission] "@ + message, 1),
        }),
{
    let policy = match load_stored_permission_policy(file) {
        Err(message) => {
            return Reply::fail(labelled("[permission] ", message.as_str()), 1);
        },
        Ok(policy) => policy,
    };
    let rules = policy.rules();
    let ghost all = policy@;
    assert(all.len() == rules@.len());
    if rules.len() == 0 {
        let reply = Reply::line("(no rules)".to_owned());
        return reply;
    }
    let mut lines: Vec<String> = Vec::new();
    let mut i: usize = 0;
    assert(texts(lines@) =~= rule_lines(all).take(0));
    while i < rules.len()
        invariant
            i <= rules@.len(),
            rules@.len() > 0,
            rule_models(rules@) == all,
            all.len() == rules@.len(),
            texts(lines@) == rule_lines(all).take(i as int),
        decreases rules@.len() - i,
    {
        assert(all[i as int] == rules@[i as int]@);
        let ghost before = lines@;
        let line = format_rule(&rules[i]);
        lines.push(line);
        assert(texts(lines@) =~= texts(before).push(line@));
        assert(rule_lines(all).take(i + 1) =~= rule_lines(all).take(i as int).push(line@));
        i += 1;
    }
    assert(rule_lines(all).take(i as int) =~= rule_lines(all));
    Reply::say(lines)
}

/// Whether a rule can be written down: its tool is a word without a colon, and its target prefix is
/// a word where there is one.
pub open spec fn writable_rule(rule: RuleModel) -> bool {
    &&& rule.tool.len() > 0
    &&& lacks(rule.tool, ':')
    &&& forall|i: int| 0 <= i < rule.tool.len() ==> !white(#[trigger] rule.tool[i])
    &&& forall|i: int| 0 <= i < rule.target_prefix.len()
        ==> !white(#[trigger] rule.target_prefix[i])
}

proof fn lemma_effect_word(effect: PermissionEffect)
    ensures
        effect_word(effect).len() > 0,
        forall|i: int| 0 <= i < effect_word(effect).len()
            ==> !white(#[trigger] effect_word(effect)[i]),
        effect_named(effect_word(effect)) == Some(effect),
{
    reveal_strlit("allow");
    reveal_strlit("ask");
    reveal_strlit("deny");
    assert("allow"@.len() != "ask"@.len());
    assert("allow"@.len() != "deny"@.len());
    assert("ask"@.len() != "deny"@.len());
}

/// The white space around the parts of a rule.
pub struct Spacing {
    pub before: Seq<char>,
    pub between: Seq<char>,
    pub left: Seq<char>,
    pub right: Seq<char>,
    pub after: Seq<char>,
}

/// Whether there is nothing but white space around the parts, and some behind the effect.
pub open spec fn white_spacing(s: Spacing) -> bool {
    &&& all_white(s.before)
    &&& all_white(s.between)
    &&& s.between.len() > 0
    &&& all_white(s.left)
    &&& all_white(s.right)
    &&& all_white(s.after)
}

/// The tool of a rule, and its target prefix behind a colon where there is one.
pub open spec fn spaced_selector(rule: RuleModel, s: Spacing) -> Seq<char> {
    if rule.target_prefix.len() == 0 {
        rule.tool
    } else {
        rule.tool + s.left + ":"@ + s.right + rule.target_prefix
    }
}

/// A rule that is written down with white space around its parts.
pub open spec fn spaced_rule(rule: RuleModel, s: Spacing) -> Seq<char> {
    s.before + effect_word(rule.effect) + s.between + spaced_selector(rule, s) + s.after
}

/// A rule is read as the rule that it was, whatever white space stands around its parts.
pub proof fn law_spaced_rules_are_read(rule: RuleModel, s: Spacing)
    requires
        writable_rule(rule),
        white_spacing(s),
    ensures
        parse_rule(spaced_rule(rule, s)) == Ok::<RuleModel, Seq<char>>(rule),
{
    reveal_strlit(":");
    let word = effect_word(rule.effect);
    let selector = spaced_selector(rule, s);
    let body = word + s.between + selector;
    let n = word.len() as int;
    lemma_effect_word(rule.effect);
    assert(!white(rule.tool[0]));
    assert(!white(word[0]));
    assert(selector[0] == rule.tool[0]);
    if rule.target_prefix.len() > 0 {
        assert(selector.last() == rule.target_prefix.last());
        assert(!white(rule.target_prefix[rule.target_prefix.len() - 1]));
    } else {
        assert(!white(rule.tool[rule.tool.len() - 1]));
    }
    assert(body[0] == word[0]);
    assert(body.last() == selector.last());
    assert(spaced_rule(rule, s) =~= s.before + body + s.after);
    lemma_trim_padded(s.before, body, s.after);
    assert(white(s.between[0]));
    assert(body[n] == s.between[0]);
    assert forall|j: int| 0 <= j < n implies !white(body[j]) by {
        assert(body[j] == word[j]);
    }
    lemma_word_length_is(body, n);
    assert(body.take(n) =~= word);
    let gap = s.between.skip(1);
    assert forall|i: int| 0 <= i < gap.len() implies white(#[trigger] gap[i]) by {
        assert(white(s.between[i + 1]));
    }
    assert(body.skip(n + 1) =~= gap + selector + Seq::<char>::empty());
    lemma_trim_padded(gap, selector, Seq::empty());
    lemma_one_word(rule.tool);
    lemma_trim_solid(rule.tool);
    let none = Seq::<char>::empty();
    if rule.target_prefix.len() == 0 {
        reveal_strlit("");
        assert(rule.target_prefix =~= ""@);
        lemma_find_char_is(selector, ':', selector.len() as int);
    } else {
        let at = (rule.tool.len() + s.left.len()) as int;
        assert forall|j: int| 0 <= j < at implies selector[j] != ':' by {
            if j < rule.tool.len() {
                assert(selector[j] == rule.tool[j]);
            } else {
                assert(white(s.left[j - rule.tool.len()]));
            }
        }
        assert(selector[at] == ':');
        lemma_find_char_is(selector, ':', at);
        assert(selector.take(at) =~= none + rule.tool + s.left);
        assert(selector.skip(at + 1) =~= s.right + rule.target_prefix + none);
        lemma_trim_padded(none, rule.tool, s.left);
        assert(!white(rule.target_prefix[0]));
        lemma_trim_padded(s.right, rule.target_prefix, none);
        lemma_one_word(rule.target_prefix);
    }
}

/// A text that is read as a rule is that rule, written down with white space around its parts. So
/// the tool is a word without a colon and the target prefix is a word where there is one, and any
/// other text is refused.
pub proof fn law_only_spaced_rules_are_read(text: Seq<char>, rule: RuleModel)
    requires
        parse_rule(text) == Ok::<RuleModel, Seq<char>>(rule),
    ensures
        writable_rule(rule),
        exists|s: Spacing| white_spacing(s) && text == #[trigger] spaced_rule(rule, s),
{
    reveal_strlit(":");
    reveal_strlit("");
    let none = Seq::<char>::empty();
    let body = trim(text);
    let (before, after) = lemma_trim_parts(text);
    lemma_word_length(body);
    let n = word_length(body);
    let rest = body.skip(n + 1);
    let selector = trim(rest);
    let (gap, tail) = lemma_trim_parts(rest);
    let word = body.take(n);
    assert(word == effect_word(rule.effect));
    assert(body =~= word + seq![body[n]] + rest);
    let space = seq![body[n]] + gap;
    lemma_find_char(selector, ':');
    let at = find_char(selector, ':');
    if 0 <= at < selector.len() {
        let left = selector.take(at);
        let right = selector.skip(at + 1);
        let (l0, l1) = lemma_trim_parts(left);
        let (r0, r1) = lemma_trim_parts(right);
        assert(rule.tool == trim(left));
        assert(rule.target_prefix == trim(right));
        lemma_only_word(rule.tool);
        lemma_only_word(rule.target_prefix);
        assert forall|i: int| 0 <= i < rule.tool.len() implies rule.tool[i] != ':' by {
            assert(left[l0.len() + i] == rule.tool[i]);
            assert(selector[l0.len() + i] != ':');
        }
        let s = Spacing { before, between: space + l0, left: l1, right: r0, after: r1 + tail + after };
        assert(selector =~= left + seq![':'] + right);
        assert(text =~= spaced_rule(rule, s)) by {
            assert(left == l0 + rule.tool + l1);
            assert(right == r0 + rule.target_prefix + r1);
            assert(rest == gap + selector + tail);
            assert(text == before + body + after);
        }
        assert(white_spacing(s));
    } else {
        assert(rule.tool == selector);
        lemma_only_word(rule.tool);
        let s = Spacing { before, between: space, left: none, right: none, after: tail + after };
        assert(text =~= spaced_rule(rule, s)) by {
            assert(rest == gap + selector + tail);
            assert(text == before + body + after);
        }
        assert(white_spacing(s));
    }
}

/// A rule that is written down is read as the rule that it was.
pub proof fn law_written_rules_read_back(rule: RuleModel)
    requires
        writable_rule(rule),
    ensures
        parse_rule(rule_line(rule)) == Ok::<RuleModel, Seq<char>>(rule),
{
    reveal_strlit(" ");
    reveal_strlit(":");
    let none = Seq::<char>::empty();
    let s = Spacing { before: none, between: " "@, left: none, right: none, after: none };
    assert(rule_line(rule) =~= spaced_rule(rule, s));
    law_spaced_rules_are_read(rule, s);
}

/// Rules that are given come before stored ones, all in their order; where either cannot be read,
/// there are none.
pub proof fn law_given_and_stored_rules_are_joined(
    given: Seq<RuleModel>,
    stored: Seq<RuleModel>,
    message: Seq<char>,
    i: int,
)
    ensures
        merged_rules(Ok(given), Ok(stored)) matches Ok(rules) && rules.len() == given.len()
            + stored.len() && (0 <= i < given.len() ==> rules[i] == given[i]) && (0 <= i
            < stored.len() ==> rules[given.len() + i] == stored[i]),
        merged_rules(Err(message), Ok(stored)) is Err,
        merged_rules(Ok(given), Err(message)) is Err,
        0 <= i < given.len() ==> rule_lines(given).len() == given.len() && begins(
            rule_lines(given)[i],
            (match given[i].effect {
                PermissionEffect::Allow => "allow "@,
                PermissionEffect::Ask => "ask "@,
                PermissionEffect::Deny => "deny "@,
            }) + given[i].tool,
        ) && (given[i].target_prefix.len() > 0 ==> ends(
            rule_lines(given)[i],
            ":"@ + given[i].target_prefix,
        )),
{
    if 0 <= i < given.len() {
        let line = rule_lines(given)[i];
        reveal_strlit("allow ");
        reveal_strlit("ask ");
        reveal_strlit("deny ");
        reveal_strlit("allow");
        reveal_strlit("ask");
        reveal_strlit("deny");
        reveal_strlit(" ");
        let first = (match given[i].effect {
            PermissionEffect::Allow => "allow "@,
            PermissionEffect::Ask => "ask "@,
            PermissionEffect::Deny => "deny "@,
        }) + given[i].tool;
        assert(line.take(first.len() as int) =~= first);
        let last = ":"@ + given[i].target_prefix;
        if given[i].target_prefix.len() > 0 {
            assert(line.skip(line.len() - last.len()) =~= last);
        }
    }
}

} // verus!
