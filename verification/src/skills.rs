//! Explicit project skill discovery for scoped agent instructions.
//!
//! Skills are directories containing a `SKILL.md` file with `name` and
//! `description` frontmatter. Discovery is deterministic and explicit loading
//! keeps skill text out of the system prompt until requested.

use vstd::prelude::*;

use crate::ordered::OrderedMap;
#[allow(unused_imports)]
use crate::ordered::{
    law_put_then_get, lemma_found, lemma_viewed_lookup, lemma_viewed_put, lemma_with_entry_sorted,
    lookup, position, present, sorted, viewed, with_entry,
};
use crate::runtime_error::labelled;
use crate::session::has_word_characters;
#[allow(unused_imports)]
use crate::session::{word_character, word_characters};
#[allow(unused_imports)]
use crate::text::{
    blank, byte_len, find_char, joined, lacks, law_lines_undo_join, lemma_find_char_is,
    lemma_trim_padded, lemma_trim_solid, lines_of, text_option, texts, trim, white,
};
use crate::text::{byte_count, chars_of, join, lines, same_text, split_once, trimmed};

verus! {

pub const MAX_SKILL_BYTES: u64 = 64 * 1024;

/// Errors from skill discovery or loading.
#[derive(Debug, PartialEq, Eq)]
pub struct SkillError {
    pub message: String,
}

impl SkillError {
    fn new(message: String) -> (r: Self)
        ensures
            r.message == message,
    {
        SkillError { message }
    }

    pub fn to_text(&self) -> (r: String)
        ensures
            r@ == self.message@,
    {
        self.message.clone()
    }
}

/// Summary of a discovered skill without its instruction body.
#[derive(Debug, PartialEq, Eq)]
pub struct SkillSummary {
    pub name: String,
    pub description: String,
    pub directory: String,
}

/// What a [`SkillSummary`] says.
#[verifier::ext_equal]
pub struct SummaryModel {
    pub name: Seq<char>,
    pub description: Seq<char>,
    pub directory: Seq<char>,
}

impl View for SkillSummary {
    type V = SummaryModel;

    open spec fn view(&self) -> SummaryModel {
        SummaryModel {
            name: self.name@,
            description: self.description@,
            directory: self.directory@,
        }
    }
}

pub open spec fn summary_models(list: Seq<SkillSummary>) -> Seq<SummaryModel> {
    Seq::new(list.len(), |i: int| list[i]@)
}

/// A loaded skill with its scoped instruction body.
#[derive(Debug, PartialEq, Eq)]
pub struct Skill {
    pub name: String,
    pub description: String,
    pub directory: String,
    pub instructions: String,
}

/// What a [`Skill`] says.
#[verifier::ext_equal]
pub struct SkillModel {
    pub name: Seq<char>,
    pub description: Seq<char>,
    pub directory: Seq<char>,
    pub instructions: Seq<char>,
}

impl View for Skill {
    type V = SkillModel;

    open spec fn view(&self) -> SkillModel {
        SkillModel {
            name: self.name@,
            description: self.description@,
            directory: self.directory@,
            instructions: self.instructions@,
        }
    }
}

/// The summary of a skill.
pub open spec fn summary_of(skill: SkillModel) -> SummaryModel {
    SummaryModel {
        name: skill.name,
        description: skill.description,
        directory: skill.directory,
    }
}

impl Skill {
    pub fn scoped_instructions(&self) -> (r: String)
        ensures
            r@ == "# Skill: "@ + self@.name + "\n"@ + self@.description + "\n\n"@
                + self@.instructions,
    {
        let mut r = "# Skill: ".to_owned();
        r.push_str(self.name.as_str());
        r.push_str("\n");
        r.push_str(self.description.as_str());
        r.push_str("\n\n");
        r.push_str(self.instructions.as_str());
        r
    }
}

// ---------------------------------------------------------------------------
// Names and the text of a skill
// ---------------------------------------------------------------------------

pub open spec fn valid_skill_name(name: Seq<char>) -> bool {
    name.len() > 0 && byte_len(name) <= 64 && word_characters(name)
}

pub open spec fn invalid_name_text() -> Seq<char> {
    "skill name must be 1-64 ASCII letters, numbers, '-' or '_'"@
}

pub fn validate_skill_name(name: &str) -> (r: Result<(), SkillError>)
    ensures
        match r {
            Ok(_) => valid_skill_name(name@),
            Err(error) => !valid_skill_name(name@) && error.message@ == invalid_name_text(),
        },
{
    if name.is_empty() || byte_count(name) > 64 || !has_word_characters(name) {
        return Err(
            SkillError::new(
                "skill name must be 1-64 ASCII letters, numbers, '-' or '_'".to_owned(),
            ),
        );
    }
    Ok(())
}

/// The first line from `index` on that closes the frontmatter.
pub open spec fn closer(all: Seq<Seq<char>>, index: int) -> Option<int>
    decreases all.len() - index,
{
    if !(0 <= index < all.len()) {
        None
    } else if trim(all[index]) == "---"@ {
        Some(index)
    } else {
        closer(all, index + 1)
    }
}

/// The name and the description that frontmatter gives.
pub type Front = (Option<Seq<char>>, Option<Seq<char>>);

/// What the first `n` lines of frontmatter give; the last of several values counts.
pub open spec fn front_of(all: Seq<Seq<char>>, n: int) -> Result<Front, Seq<char>>
    decreases n,
{
    if n <= 0 {
        Ok((None, None))
    } else {
        match front_of(all, n - 1) {
            Err(message) => Err(message),
            Ok(front) => {
                let line = all[n - 1];
                let colon = find_char(line, ':');
                if trim(line).len() == 0 {
                    Ok(front)
                } else if colon == line.len() {
                    Err("invalid frontmatter line '"@ + trim(line) + "'"@)
                } else {
                    let key = trim(line.take(colon));
                    let value = trim(line.skip(colon + 1));
                    if key == "name"@ {
                        Ok((Some(value), front.1))
                    } else if key == "description"@ {
                        Ok((front.0, Some(value)))
                    } else {
                        Ok(front)
                    }
                }
            },
        }
    }
}

pub open spec fn absent_or_empty(value: Option<Seq<char>>) -> bool {
    value is None || value->0.len() == 0
}

/// The name, description and instructions of a skill.
pub open spec fn skill_parts(content: Seq<char>) -> Result<
    (Seq<char>, Seq<char>, Seq<char>),
    Seq<char>,
> {
    let all = lines_of(content);
    if all.len() == 0 || trim(all[0]) != "---"@ {
        Err("missing frontmatter opener '---'"@)
    } else {
        match closer(all, 1) {
            None => Err("missing frontmatter closer '---'"@),
            Some(end) => {
                let instructions = trim(joined(all.skip(end + 1), "\n"@));
                match front_of(all.subrange(1, end), end - 1) {
                    Err(message) => Err(message),
                    Ok((name, description)) => if absent_or_empty(name) || absent_or_empty(
                        description,
                    ) {
                        Err("frontmatter must contain non-empty 'name' and 'description'"@)
                    } else if !valid_skill_name(name->0) {
                        Err(invalid_name_text())
                    } else if instructions.len() == 0 {
                        Err("skill body must not be empty"@)
                    } else {
                        Ok((name->0, description->0, instructions))
                    },
                }
            },
        }
    }
}

/// What frontmatter lines give, and how the exec code holds it.
pub open spec fn front_seen(name: Option<String>, description: Option<String>) -> Front {
    (text_option(name), text_option(description))
}

fn read_front(front: &Vec<String>) -> (r: Result<(Option<String>, Option<String>), String>)
    ensures
        match r {
            Ok((name, description)) => front_of(texts(front@), front@.len() as int) == Ok::<
                Front,
                Seq<char>,
            >(front_seen(name, description)),
            Err(message) => front_of(texts(front@), front@.len() as int) == Err::<Front, Seq<char>>(
                message@,
            ),
        },
{
    let ghost all = texts(front@);
    let ghost n = front@.len() as int;
    let mut name: Option<String> = None;
    let mut description: Option<String> = None;
    let mut i: usize = 0;
    while i < front.len()
        invariant
            i <= front@.len(),
            all == texts(front@),
            n == front@.len(),
            front_of(all, i as int) == Ok::<Front, Seq<char>>(front_seen(name, description)),
        decreases front@.len() - i,
    {
        let line = &front[i];
        assert(all[i as int] == line@);
        let ghost so_far = front_seen(name, description);
        let shown = trimmed(line.as_str());
        if !shown.as_str().is_empty() {
            match split_once(line.as_str(), ':') {
                None => {
                    let mut message = "invalid frontmatter line '".to_owned();
                    message.push_str(shown.as_str());
                    message.push_str("'");
                    proof {
                        lemma_front_fails(all, i + 1, n);
                    }
                    return Err(message);
                },
                Some((left, right)) => {
                    let key = trimmed(left.as_str());
                    let value = trimmed(right.as_str());
                    if same_text(key.as_str(), "name") {
                        name = Some(value);
                    } else if same_text(key.as_str(), "description") {
                        description = Some(value);
                    }
                },
            }
        }
        i += 1;
    }
    Ok((name, description))
}

/// Frontmatter with a bad line is bad.
proof fn lemma_front_fails(all: Seq<Seq<char>>, from: int, n: int)
    requires
        from <= n,
        front_of(all, from) is Err,
    ensures
        front_of(all, n) == front_of(all, from),
    decreases n - from,
{
    if from < n {
        lemma_front_fails(all, from, n - 1);
        if n <= 0 {
            assert(front_of(all, from) is Ok);
        }
    }
}

/// How a part of a list of texts is held.
fn part_of(list: &Vec<String>, from: usize, to: usize) -> (r: Vec<String>)
    requires
        from <= to <= list@.len(),
    ensures
        texts(r@) == texts(list@).subrange(from as int, to as int),
{
    let ghost all = texts(list@);
    let mut r: Vec<String> = Vec::new();
    let mut i: usize = from;
    assert(texts(r@) =~= all.subrange(from as int, from as int));
    while i < to
        invariant
            from <= i <= to <= list@.len(),
            all == texts(list@),
            texts(r@) == all.subrange(from as int, i as int),
        decreases to - i,
    {
        let ghost before = r@;
        let line = list[i].clone();
        let ghost added = line@;
        r.push(line);
        assert(texts(r@) =~= texts(before).push(added));
        assert(all.subrange(from as int, i + 1) =~= all.subrange(from as int, i as int).push(
            all[i as int],
        ));
        i += 1;
    }
    r
}

/// The parts of a skill as the exec code holds them.
pub open spec fn parts_seen(parts: (String, String, String)) -> (Seq<char>, Seq<char>, Seq<char>) {
    (parts.0@, parts.1@, parts.2@)
}

/// The name, description and instructions of a skill.
pub fn parse_skill_markdown(content: &str) -> (r: Result<(String, String, String), String>)
    ensures
        match r {
            Ok(parts) => skill_parts(content@) == Ok::<
                (Seq<char>, Seq<char>, Seq<char>),
                Seq<char>,
            >(parts_seen(parts)),
            Err(message) => skill_parts(content@) == Err::<
                (Seq<char>, Seq<char>, Seq<char>),
                Seq<char>,
            >(message@),
        },
{
    let all = lines(content);
    let ghost seen = lines_of(content@);
    if all.len() == 0 || !same_text(trimmed(all[0].as_str()).as_str(), "---") {
        return Err("missing frontmatter opener '---'".to_owned());
    }
    let mut end: usize = 1;
    while end < all.len() && !same_text(trimmed(all[end].as_str()).as_str(), "---")
        invariant
            1 <= end <= all@.len(),
            seen == texts(all@),
            closer(seen, 1) == closer(seen, end as int),
        decreases all@.len() - end,
    {
        assert(seen[end as int] == all@[end as int]@);
        end += 1;
    }
    if end == all.len() {
        return Err("missing frontmatter closer '---'".to_owned());
    }
    assert(seen[end as int] == all@[end as int]@);
    assert(closer(seen, 1) == Some(end as int));
    assert(seen[0] == all@[0]@);
    let front = part_of(&all, 1, end);
    assert(texts(front@).len() == end - 1);
    assert(front@.len() == end - 1);
    let (name, description) = match read_front(&front) {
        Err(message) => return Err(message),
        Ok(pair) => pair,
    };
    let wanted = "frontmatter must contain non-empty 'name' and 'description'";
    let (name, description) = match (name, description) {
        (Some(name), Some(description)) => (name, description),
        _ => return Err(wanted.to_owned()),
    };
    if name.as_str().is_empty() || description.as_str().is_empty() {
        return Err(wanted.to_owned());
    }
    match validate_skill_name(name.as_str()) {
        Err(error) => return Err(error.message),
        Ok(_) => {},
    }
    let rest = part_of(&all, end + 1, all.len());
    assert(texts(rest@) =~= seen.skip(end + 1));
    let instructions = trimmed(join(&rest, "\n").as_str());
    if instructions.as_str().is_empty() {
        return Err("skill body must not be empty".to_owned());
    }
    Ok((name, description, instructions))
}

// ---------------------------------------------------------------------------
// Reading one skill
// ---------------------------------------------------------------------------

/// A skill file as it was found: its size, and its text where the size allows to read it.
#[derive(Debug, PartialEq, Eq)]
pub struct SkillSource {
    pub size: Result<u64, String>,
    pub text: Result<String, String>,
}

/// What a [`SkillSource`] holds.
#[verifier::ext_equal]
pub struct SourceModel {
    pub size: Result<u64, Seq<char>>,
    pub text: Result<Seq<char>, Seq<char>>,
}

impl View for SkillSource {
    type V = SourceModel;

    open spec fn view(&self) -> SourceModel {
        SourceModel {
            size: match self.size {
                Ok(size) => Ok(size),
                Err(message) => Err(message@),
            },
            text: match self.text {
                Ok(text) => Ok(text@),
                Err(message) => Err(message@),
            },
        }
    }
}

/// The directory `name` below `root`.
pub open spec fn below(root: Seq<char>, name: Seq<char>) -> Seq<char> {
    if root.len() == 0 || root.last() == '/' {
        root + name
    } else {
        root + "/"@ + name
    }
}

/// The directory `name` below `root`.
pub fn path_below(root: &str, name: &str) -> (r: String)
    ensures
        r@ == below(root@, name@),
{
    let chars = chars_of(root);
    let mut r = root.to_owned();
    if chars.len() > 0 && chars[chars.len() - 1] != '/' {
        r.push_str("/");
    }
    r.push_str(name);
    r
}

/// The skill in the directory `name` below `root`.
pub open spec fn skill_in(root: Seq<char>, name: Seq<char>, source: SourceModel) -> Result<
    SkillModel,
    Seq<char>,
> {
    let directory = below(root, name);
    match source.size {
        Err(message) => Err("cannot read skill: "@ + message),
        Ok(size) => if size > MAX_SKILL_BYTES {
            Err("skill file too large: exceeds 64 KiB limit"@)
        } else {
            match source.text {
                Err(message) => Err("cannot read skill: "@ + message),
                Ok(text) => match skill_parts(text) {
                    Err(message) => Err("invalid skill '"@ + directory + "': "@ + message),
                    Ok((given, description, instructions)) => if given != name {
                        Err(
                            "invalid skill '"@ + directory + "': frontmatter name '"@ + given
                                + "' must match directory '"@ + name + "'"@,
                        )
                    } else {
                        Ok(SkillModel { name, description, directory, instructions })
                    },
                },
            }
        },
    }
}

/// A skill or an error as the contracts see it.
pub open spec fn skill_seen(r: Result<Skill, SkillError>) -> Result<SkillModel, Seq<char>> {
    match r {
        Ok(skill) => Ok(skill@),
        Err(error) => Err(error.message@),
    }
}

/// The skill in the directory `name` below `root`.
pub fn read_skill(root: &str, name: &str, source: &SkillSource) -> (r: Result<Skill, SkillError>)
    ensures
        skill_seen(r) == skill_in(root@, name@, source@),
{
    let directory = path_below(root, name);
    let size: u64 = match &source.size {
        Err(message) => {
            return Err(SkillError::new(labelled("cannot read skill: ", message.as_str())));
        },
        Ok(size) => *size,
    };
    if size > MAX_SKILL_BYTES {
        return Err(SkillError::new("skill file too large: exceeds 64 KiB limit".to_owned()));
    }
    let text = match &source.text {
        Err(message) => {
            return Err(SkillError::new(labelled("cannot read skill: ", message.as_str())));
        },
        Ok(text) => text,
    };
    match parse_skill_markdown(text.as_str()) {
        Err(message) => {
            let mut r = "invalid skill '".to_owned();
            r.push_str(directory.as_str());
            r.push_str("': ");
            r.push_str(message.as_str());
            Err(SkillError::new(r))
        },
        Ok((given, description, instructions)) => {
            if !same_text(given.as_str(), name) {
                let mut r = "invalid skill '".to_owned();
                r.push_str(directory.as_str());
                r.push_str("': frontmatter name '");
                r.push_str(given.as_str());
                r.push_str("' must match directory '");
                r.push_str(name);
                r.push_str("'");
                return Err(SkillError::new(r));
            }
            Ok(Skill { name: given, description, directory, instructions })
        },
    }
}

// ---------------------------------------------------------------------------
// Roots
// ---------------------------------------------------------------------------

/// A directory of skills: the directories below it that hold a skill file, by their names.
#[derive(Debug, PartialEq, Eq)]
pub struct SkillRoot {
    pub path: String,
    pub skills: OrderedMap<String, SkillSource>,
}

/// What a [`SkillRoot`] holds.
#[verifier::ext_equal]
pub struct RootModel {
    pub path: Seq<char>,
    pub skills: Seq<(Seq<char>, SourceModel)>,
}

impl View for SkillRoot {
    type V = RootModel;

    open spec fn view(&self) -> RootModel {
        RootModel { path: self.path@, skills: viewed::<String, SkillSource>(self.skills@) }
    }
}

pub open spec fn root_models(roots: Seq<SkillRoot>) -> Seq<RootModel> {
    Seq::new(roots.len(), |i: int| roots[i]@)
}

/// Whether the names in each root stand in their order.
pub open spec fn ordered_roots(roots: Seq<RootModel>) -> bool {
    forall|i: int|
        0 <= i < roots.len() ==> sorted::<String, SourceModel>((#[trigger] roots[i]).skills)
}

/// What discovery has found, by name.
pub type Found = Seq<(Seq<char>, SummaryModel)>;

/// What is found once the first `n` skills of a root have been looked at.
pub open spec fn found_in_root(root: RootModel, n: int, found: Found) -> Result<Found, Seq<char>>
    decreases n,
{
    if n <= 0 {
        Ok(found)
    } else {
        match found_in_root(root, n - 1, found) {
            Err(message) => Err(message),
            Ok(found) => {
                let (name, source) = root.skills[n - 1];
                if !valid_skill_name(name) || present::<String, SummaryModel>(found, name) {
                    Ok(found)
                } else {
                    match skill_in(root.path, name, source) {
                        Err(message) => Err(message),
                        Ok(skill) => Ok(
                            with_entry::<String, SummaryModel>(found, name, summary_of(skill)),
                        ),
                    }
                }
            },
        }
    }
}

/// What is found once the first `n` roots have been looked at.
pub open spec fn found_in_roots(roots: Seq<RootModel>, n: int) -> Result<Found, Seq<char>>
    decreases n,
{
    if n <= 0 {
        Ok(Seq::empty())
    } else {
        match found_in_roots(roots, n - 1) {
            Err(message) => Err(message),
            Ok(found) => found_in_root(roots[n - 1], roots[n - 1].skills.len() as int, found),
        }
    }
}

/// The summaries of what was found, in the order of the names.
pub open spec fn summaries(found: Found) -> Seq<SummaryModel> {
    Seq::new(found.len(), |i: int| found[i].1)
}

/// The skill `name` in the first root from `index` on that has one.
pub open spec fn load_from(roots: Seq<RootModel>, name: Seq<char>, index: int) -> Result<
    SkillModel,
    Seq<char>,
>
    decreases roots.len() - index,
{
    if !(0 <= index < roots.len()) {
        Err("unknown skill '"@ + name + "'"@)
    } else {
        match lookup::<String, SourceModel>(roots[index].skills, name) {
            Some(source) => skill_in(roots[index].path, name, source),
            None => load_from(roots, name, index + 1),
        }
    }
}

/// The skill `name`, or why there is none.
pub open spec fn loaded(roots: Seq<RootModel>, name: Seq<char>) -> Result<SkillModel, Seq<char>> {
    if !valid_skill_name(name) {
        Err(invalid_name_text())
    } else {
        load_from(roots, name, 0)
    }
}

/// Discover skills across ordered roots; earlier roots win on duplicate names.
pub fn discover_skills(roots: &Vec<SkillRoot>) -> (r: Result<Vec<SkillSummary>, SkillError>)
    ensures
        match r {
            Ok(list) => {
                &&& found_in_roots(root_models(roots@), roots@.len() as int) matches Ok(found)
                &&& summary_models(list@) == summaries(found)
            },
            Err(error) => found_in_roots(root_models(roots@), roots@.len() as int) == Err::<
                Found,
                Seq<char>,
            >(error.message@),
        },
{
    let ghost all = root_models(roots@);
    let ghost n = roots@.len() as int;
    let mut found: OrderedMap<String, SkillSummary> = OrderedMap::new();
    let mut i: usize = 0;
    assert(viewed::<String, SkillSummary>(found@) =~= Seq::<(Seq<char>, SummaryModel)>::empty());
    while i < roots.len()
        invariant
            i <= roots@.len(),
            n == roots@.len(),
            all == root_models(roots@),
            found_in_roots(all, i as int) == Ok::<Found, Seq<char>>(
                viewed::<String, SkillSummary>(found@),
            ),
        decreases roots@.len() - i,
    {
        assert(all[i as int] == roots@[i as int]@);
        match discover_in(&roots[i], &mut found) {
            Err(error) => {
                proof {
                    lemma_discovery_fails(all, i + 1, n);
                }
                return Err(error);
            },
            Ok(_) => {},
        }
        i += 1;
    }
    let list = found.into_values();
    assert(summary_models(list@) =~= summaries(viewed::<String, SkillSummary>(found@)));
    Ok(list)
}

/// Discovery that has failed in one root fails.
proof fn lemma_discovery_fails(roots: Seq<RootModel>, from: int, n: int)
    requires
        0 < from <= n,
        found_in_roots(roots, from) is Err,
    ensures
        found_in_roots(roots, n) == found_in_roots(roots, from),
    decreases n - from,
{
    if from < n {
        lemma_discovery_fails(roots, from, n - 1);
    }
}

/// A root with a bad skill fails.
proof fn lemma_root_fails(root: RootModel, from: int, n: int, found: Found)
    requires
        0 < from <= n,
        found_in_root(root, from, found) is Err,
    ensures
        found_in_root(root, n, found) == found_in_root(root, from, found),
    decreases n - from,
{
    if from < n {
        lemma_root_fails(root, from, n - 1, found);
    }
}

fn discover_in(root: &SkillRoot, found: &mut OrderedMap<String, SkillSummary>) -> (r: Result<
    (),
    SkillError,
>)
    ensures
        ({
            let before = viewed::<String, SkillSummary>(old(found)@);
            let after = found_in_root(root@, root@.skills.len() as int, before);
            match r {
                Ok(_) => after == Ok::<Found, Seq<char>>(
                    viewed::<String, SkillSummary>(final(found)@),
                ),
                Err(error) => after == Err::<Found, Seq<char>>(error.message@),
            }
        }),
{
    let ghost before = viewed::<String, SkillSummary>(found@);
    let n: usize = root.skills.len();
    let mut i: usize = 0;
    while i < n
        invariant
            i <= n,
            n == root.skills@.len(),
            n == root@.skills.len(),
            before == viewed::<String, SkillSummary>(old(found)@),
            found_in_root(root@, i as int, before) == Ok::<Found, Seq<char>>(
                viewed::<String, SkillSummary>(found@),
            ),
        decreases n - i,
    {
        let name = root.skills.key(i);
        let source = root.skills.value(i);
        assert(root@.skills[i as int] == (name@, source@));
        proof {
            lemma_viewed_lookup::<String, SkillSummary>(found@, name@);
        }
        let valid = match validate_skill_name(name.as_str()) {
            Ok(_) => true,
            Err(_) => false,
        };
        if valid && !found.contains(name) {
            match read_skill(root.path.as_str(), name.as_str(), source) {
                Err(error) => {
                    proof {
                        lemma_root_fails(root@, i + 1, n as int, before);
                    }
                    return Err(error);
                },
                Ok(skill) => {
                    let summary = SkillSummary {
                        name: skill.name,
                        description: skill.description,
                        directory: skill.directory,
                    };
                    proof {
                        lemma_viewed_put::<String, SkillSummary>(found@, name@, summary);
                    }
                    found.insert(name.clone(), summary);
                },
            }
        }
        i += 1;
    }
    Ok(())
}

// ---------------------------------------------------------------------------
// What discovery and loading have in common
// ---------------------------------------------------------------------------

/// Whether everything found can be loaded and says the same there.
spec fn loadable(roots: Seq<RootModel>, found: Found) -> bool {
    forall|name: Seq<char>|
        present::<String, SummaryModel>(found, name) ==> {
            &&& #[trigger] loaded(roots, name) is Ok
            &&& lookup::<String, SummaryModel>(found, name) == Some(
                summary_of(loaded(roots, name)->Ok_0),
            )
        }
}

/// Whether everything that the first `n` roots hold under a valid name was found.
spec fn covered(roots: Seq<RootModel>, n: int, found: Found) -> bool {
    forall|i: int, name: Seq<char>|
        0 <= i < n && valid_skill_name(name) && #[trigger] present::<String, SourceModel>(
            roots[i].skills,
            name,
        ) ==> present::<String, SummaryModel>(found, name)
}

/// A skill is loaded from the first root that holds its name.
proof fn lemma_load_skips(roots: Seq<RootModel>, name: Seq<char>, from: int, to: int)
    requires
        0 <= from <= to <= roots.len(),
        forall|i: int|
            from <= i < to ==> !#[trigger] present::<String, SourceModel>(roots[i].skills, name),
    ensures
        load_from(roots, name, from) == load_from(roots, name, to),
    decreases to - from,
{
    if from < to {
        assert(!present::<String, SourceModel>(roots[from].skills, name));
        lemma_load_skips(roots, name, from + 1, to);
    }
}

proof fn lemma_root_is_loadable(roots: Seq<RootModel>, r: int, n: int, found: Found)
    requires
        0 <= r < roots.len(),
        0 <= n <= roots[r].skills.len(),
        ordered_roots(roots),
        sorted::<String, SummaryModel>(found),
        loadable(roots, found),
        covered(roots, r, found),
        found_in_root(roots[r], n, found) is Ok,
    ensures
        ({
            let after = found_in_root(roots[r], n, found)->Ok_0;
            &&& sorted::<String, SummaryModel>(after)
            &&& loadable(roots, after)
            &&& covered(roots, r, after)
            &&& forall|i: int|
                0 <= i < n && valid_skill_name((#[trigger] roots[r].skills[i]).0) ==> present::<
                    String,
                    SummaryModel,
                >(after, roots[r].skills[i].0)
        }),
    decreases n,
{
    if n > 0 {
        lemma_root_is_loadable(roots, r, n - 1, found);
        let now = found_in_root(roots[r], n - 1, found)->Ok_0;
        let (name, source) = roots[r].skills[n - 1];
        assert(sorted::<String, SourceModel>(roots[r].skills));
        lemma_found::<String, SourceModel>(roots[r].skills, n - 1);
        if valid_skill_name(name) && !present::<String, SummaryModel>(now, name) {
            let skill = skill_in(roots[r].path, name, source)->Ok_0;
            let after = with_entry::<String, SummaryModel>(now, name, summary_of(skill));
            lemma_with_entry_sorted::<String, SummaryModel>(now, name, summary_of(skill));
            assert forall|i: int| 0 <= i < r implies !#[trigger] present::<String, SourceModel>(
                roots[i].skills,
                name,
            ) by {}
            lemma_load_skips(roots, name, 0, r);
            assert forall|other: Seq<char>| present::<String, SummaryModel>(after, other) implies {
                &&& #[trigger] loaded(roots, other) is Ok
                &&& lookup::<String, SummaryModel>(after, other) == Some(
                    summary_of(loaded(roots, other)->Ok_0),
                )
            } by {
                law_put_then_get::<String, SummaryModel>(now, name, summary_of(skill), other);
            }
            assert forall|other: Seq<char>| present::<String, SummaryModel>(now, other) implies
                #[trigger] present::<String, SummaryModel>(after, other) by {
                law_put_then_get::<String, SummaryModel>(now, name, summary_of(skill), other);
            }
            law_put_then_get::<String, SummaryModel>(now, name, summary_of(skill), name);
        }
    }
}

proof fn lemma_roots_are_loadable(roots: Seq<RootModel>, n: int)
    requires
        0 <= n <= roots.len(),
        ordered_roots(roots),
        found_in_roots(roots, n) is Ok,
    ensures
        ({
            let found = found_in_roots(roots, n)->Ok_0;
            &&& sorted::<String, SummaryModel>(found)
            &&& loadable(roots, found)
            &&& covered(roots, n, found)
        }),
    decreases n,
{
    if n > 0 {
        lemma_roots_are_loadable(roots, n - 1);
        let before = found_in_roots(roots, n - 1)->Ok_0;
        let root = roots[n - 1];
        let found = found_in_roots(roots, n)->Ok_0;
        lemma_root_is_loadable(roots, n - 1, root.skills.len() as int, before);
        assert forall|i: int, name: Seq<char>|
            0 <= i < n && valid_skill_name(name) && #[trigger] present::<String, SourceModel>(
                roots[i].skills,
                name,
            ) implies present::<String, SummaryModel>(found, name) by {
            if i == n - 1 {
                let p = position::<String, SourceModel>(root.skills, name);
                assert(root.skills[p].0 == name);
            }
        }
    }
}

/// What discovery lists under a name is what loading that name gives: a root that stands earlier
/// wins in both.
pub proof fn law_discovered_skills_can_be_loaded(roots: Seq<RootModel>, name: Seq<char>)
    requires
        ordered_roots(roots),
        found_in_roots(roots, roots.len() as int) is Ok,
    ensures
        ({
            let found = found_in_roots(roots, roots.len() as int)->Ok_0;
            &&& sorted::<String, SummaryModel>(found)
            &&& lookup::<String, SummaryModel>(found, name) == match loaded(roots, name) {
                Ok(skill) => Some(summary_of(skill)),
                Err(_) => None,
            }
        }),
{
    lemma_roots_are_loadable(roots, roots.len() as int);
    let found = found_in_roots(roots, roots.len() as int)->Ok_0;
    if !present::<String, SummaryModel>(found, name) && valid_skill_name(name) {
        assert forall|i: int| 0 <= i < roots.len() implies !#[trigger] present::<
            String,
            SourceModel,
        >(roots[i].skills, name) by {}
        lemma_load_skips(roots, name, 0, roots.len() as int);
    }
}

/// Explicitly load one skill by name from ordered roots.
pub fn load_skill(roots: &Vec<SkillRoot>, name: &str) -> (r: Result<Skill, SkillError>)
    ensures
        skill_seen(r) == loaded(root_models(roots@), name@),
{
    match validate_skill_name(name) {
        Err(error) => return Err(error),
        Ok(_) => {},
    }
    let ghost all = root_models(roots@);
    let key = name.to_owned();
    let mut i: usize = 0;
    while i < roots.len()
        invariant
            i <= roots@.len(),
            all == root_models(roots@),
            key@ == name@,
            valid_skill_name(name@),
            load_from(all, name@, 0) == load_from(all, name@, i as int),
        decreases roots@.len() - i,
    {
        let root = &roots[i];
        assert(all[i as int] == root@);
        proof {
            lemma_viewed_lookup::<String, SkillSource>(root.skills@, name@);
        }
        match root.skills.get(&key) {
            Some(source) => return read_skill(root.path.as_str(), name, source),
            None => {},
        }
        i += 1;
    }
    let mut r = "unknown skill '".to_owned();
    r.push_str(name);
    r.push_str("'");
    Err(SkillError::new(r))
}

/// A skill file of four lines of frontmatter and a body is read as what it says: the name, the
/// description, and the body without the white space around it.
pub proof fn law_skill_files_are_read(name: Seq<char>, description: Seq<char>, body: Seq<Seq<char>>)
    requires
        valid_skill_name(name),
        description.len() > 0,
        !white(description[0]),
        !white(description.last()),
        lacks(description, '\n'),
        lacks(description, '\r'),
        body.len() > 0,
        forall|i: int|
            0 <= i < body.len() ==> (#[trigger] body[i]).len() > 0 && lacks(body[i], '\n') && lacks(
                body[i],
                '\r',
            ),
        !blank(joined(body, "\n"@)),
    ensures
        skill_parts(
            joined(
                seq!["---"@, "name: "@ + name, "description: "@ + description, "---"@] + body,
                "\n"@,
            ),
        ) == Ok::<(Seq<char>, Seq<char>, Seq<char>), Seq<char>>(
            (name, description, trim(joined(body, "\n"@))),
        ),
{
    reveal_strlit("\n");
    reveal_strlit("---");
    reveal_strlit("name: ");
    reveal_strlit("description: ");
    reveal_strlit("name");
    reveal_strlit("description");
    assert("\n"@ =~= seq!['\n']);
    let second = "name: "@ + name;
    let third = "description: "@ + description;
    let front = seq!["---"@, second, third, "---"@];
    let all = front + body;
    assert forall|k: int| 0 <= k < name.len() implies #[trigger] name[k] != '\n' && name[k] != '\r'
        && name[k] != ':' && !white(name[k]) by {
        assert(word_character(name[k]));
    }
    assert forall|i: int| 0 <= i < all.len() implies (#[trigger] all[i]).len() > 0 && lacks(
        all[i],
        '\n',
    ) && lacks(all[i], '\r') by {
        if i == 0 {
            assert(all[0] == "---"@);
        } else if i == 1 {
            assert(all[1] == second);
            assert forall|k: int| 0 <= k < second.len() implies #[trigger] second[k] != '\n'
                && second[k] != '\r' by {
                if k >= 6 {
                    assert(second[k] == name[k - 6]);
                }
            }
        } else if i == 2 {
            assert(all[2] == third);
            assert forall|k: int| 0 <= k < third.len() implies #[trigger] third[k] != '\n'
                && third[k] != '\r' by {
                if k >= 13 {
                    assert(third[k] == description[k - 13]);
                }
            }
        } else if i == 3 {
            assert(all[3] == "---"@);
        } else {
            assert(all[i] == body[i - 4]);
        }
    }
    law_lines_undo_join(all);
    assert(all[0] == "---"@ && all[1] == second && all[2] == third && all[3] == "---"@);
    assert("---"@[0] == '-' && "---"@.last() == '-');
    lemma_trim_solid("---"@);
    assert(second[0] == 'n');
    assert(second.last() == name[name.len() - 1]);
    lemma_trim_solid(second);
    assert(third[0] == 'd');
    assert(third.last() == description.last());
    lemma_trim_solid(third);
    assert("---"@[0] != second[0]);
    assert("---"@[0] != third[0]);
    assert(closer(all, 3) == Some(3int));
    assert(closer(all, 2) == Some(3int));
    assert(closer(all, 1) == Some(3int));
    let inner = all.subrange(1, 3);
    assert(inner[0] == second && inner[1] == third);
    reveal_strlit(": ");
    assert(second =~= "name"@ + ": "@ + name);
    assert(third =~= "description"@ + ": "@ + description);
    lemma_front_line(second, "name"@, name);
    lemma_front_line(third, "description"@, description);
    assert("name"@.len() != "description"@.len());
    reveal_with_fuel(front_of, 3);
    assert(front_of(inner, 1) == Ok::<Front, Seq<char>>((Some(name), None)));
    assert(front_of(inner, 2) == Ok::<Front, Seq<char>>((Some(name), Some(description))));
    assert(all.skip(4) =~= body);
}

proof fn lemma_front_line(line: Seq<char>, key: Seq<char>, value: Seq<char>)
    requires
        line == key + ": "@ + value,
        key.len() > 0,
        !white(key[0]),
        !white(key.last()),
        lacks(key, ':'),
        value.len() > 0,
        !white(value[0]),
        !white(value.last()),
    ensures
        find_char(line, ':') == key.len(),
        trim(line.take(find_char(line, ':'))) == key,
        trim(line.skip(find_char(line, ':') + 1)) == value,
        trim(line).len() > 0,
{
    reveal_strlit(": ");
    let n = key.len() as int;
    assert forall|j: int| 0 <= j < n implies line[j] != ':' by {
        assert(line[j] == key[j]);
    }
    assert(line[n] == ':');
    lemma_find_char_is(line, ':', n);
    assert(line.take(n) =~= key);
    lemma_trim_solid(key);
    let none = Seq::<char>::empty();
    assert(line.skip(n + 1) =~= seq![' '] + value + none);
    lemma_trim_padded(seq![' '], value, none);
    assert(line[0] == key[0]);
    assert(line.last() == value.last());
    lemma_trim_solid(line);
}

/// A skill is loaded from the first root that has one of its name; a root behind it does not matter,
/// and without such a root the skill is unknown.
pub proof fn law_earlier_roots_win(roots: Seq<RootModel>, name: Seq<char>, k: int)
    requires
        0 <= k <= roots.len(),
        valid_skill_name(name),
        forall|i: int|
            0 <= i < k ==> lookup::<String, SourceModel>((#[trigger] roots[i]).skills, name) is None,
        k < roots.len() ==> lookup::<String, SourceModel>(roots[k].skills, name) is Some,
    ensures
        k < roots.len() ==> loaded(roots, name) == skill_in(
            roots[k].path,
            name,
            lookup::<String, SourceModel>(roots[k].skills, name)->0,
        ),
        k == roots.len() ==> loaded(roots, name) == Err::<SkillModel, Seq<char>>(
            "unknown skill '"@ + name + "'"@,
        ),
{
    lemma_load_from(roots, name, k, 0);
}

proof fn lemma_load_from(roots: Seq<RootModel>, name: Seq<char>, k: int, index: int)
    requires
        0 <= index <= k <= roots.len(),
        forall|i: int|
            0 <= i < k ==> lookup::<String, SourceModel>((#[trigger] roots[i]).skills, name) is None,
        k < roots.len() ==> lookup::<String, SourceModel>(roots[k].skills, name) is Some,
    ensures
        k < roots.len() ==> load_from(roots, name, index) == skill_in(
            roots[k].path,
            name,
            lookup::<String, SourceModel>(roots[k].skills, name)->0,
        ),
        k == roots.len() ==> load_from(roots, name, index) == Err::<SkillModel, Seq<char>>(
            "unknown skill '"@ + name + "'"@,
        ),
    decreases k - index,
{
    if index < k {
        assert(lookup::<String, SourceModel>(roots[index].skills, name) is None);
        lemma_load_from(roots, name, k, index + 1);
    }
}

/// A skill that is read has the name of its directory, which is at most 64 letters, digits, hyphens
/// and underscores, and its file is at most 64 kilobytes.
pub proof fn law_skills_have_the_name_of_their_directory(
    root: Seq<char>,
    name: Seq<char>,
    source: SourceModel,
)
    ensures
        skill_in(root, name, source) matches Ok(skill) ==> {
            &&& skill.name == name
            &&& source.size matches Ok(size) && size <= 65_536
            &&& source.text matches Ok(text) && (skill_parts(text) matches Ok((given, said, rest))
                && given == name && skill.description == said && skill.instructions == rest)
            &&& valid_skill_name(name)
            &&& byte_len(name) <= 64
        },
{
}

} // verus!
