//! The commands on sessions and on skills.

use vstd::prelude::*;
#[allow(unused_imports)]
use vstd::utf8::{decode_utf8, valid_utf8};

use crate::command_line::{Reply, extract_skill_names};
#[allow(unused_imports)]
use crate::command_line::{ReplyModel, failure, flag_values, said, said_line};
use crate::json::laid_out;
#[allow(unused_imports)]
use crate::json::json_layout;
use crate::runtime_error::labelled;
use crate::session::{Session, SessionError, SessionMessage, write_session};
#[allow(unused_imports)]
use crate::session::{
    SessionErrorKind, SessionModel, TranscriptModel, invalid_id_text, session_json, transcript,
    valid_session_id,
};
use crate::skills::{Skill, SkillError, SkillRoot, SkillSummary, load_skill};
#[allow(unused_imports)]
use crate::skills::{
    RootModel, SkillModel, SummaryModel, loaded, root_models, skill_seen, summary_models,
};
use crate::text::{join, same_text, size_text, utf8_text};
#[allow(unused_imports)]
use crate::text::{begins, decimal, ends, joined, texts};

verus! {

// ---------------------------------------------------------------------------
// Sessions
// ---------------------------------------------------------------------------

/// A message as it is shown.
pub open spec fn message_line(message: TranscriptModel) -> Seq<char> {
    "["@ + message.role + "] "@ + message.content
}

/// The messages as they are shown.
pub open spec fn message_lines(messages: Seq<TranscriptModel>) -> Seq<Seq<char>> {
    Seq::new(messages.len(), |i: int| message_line(messages[i]))
}

/// What is shown for a session without messages.
pub open spec fn empty_line(id: Seq<char>) -> Seq<char> {
    "(empty session "@ + id + ")"@
}

fn tell_empty(id: &str) -> (r: String)
    ensures
        r@ == empty_line(id@),
{
    let mut r = labelled("(empty session ", id);
    r.push_str(")");
    r
}

fn show_messages(messages: &Vec<SessionMessage>) -> (r: Vec<String>)
    ensures
        texts(r@) == message_lines(transcript(messages@)),
{
    let ghost all = message_lines(transcript(messages@));
    let mut lines: Vec<String> = Vec::new();
    let mut i: usize = 0;
    assert(texts(lines@) =~= all.take(0));
    while i < messages.len()
        invariant
            i <= messages@.len(),
            all == message_lines(transcript(messages@)),
            texts(lines@) == all.take(i as int),
        decreases messages@.len() - i,
    {
        assert(transcript(messages@)[i as int] == messages@[i as int]@);
        let mut line = labelled("[", messages[i].role.as_str());
        line.push_str("] ");
        line.push_str(messages[i].content.as_str());
        let ghost before = lines@;
        lines.push(line);
        assert(texts(lines@) =~= texts(before).push(line@));
        assert(all.take(i + 1) =~= all.take(i as int).push(all[i as int]));
        i += 1;
    }
    assert(all.take(i as int) =~= all);
    lines
}

/// A session as text.
pub open spec fn session_text(session: SessionModel) -> Seq<char> {
    if session.messages.len() == 0 {
        empty_line(session.id)
    } else {
        joined(message_lines(session.messages), "\n"@)
    }
}

/// A session as text.
pub fn format_session_text(session: &Session) -> (r: String)
    ensures
        r@ == session_text(session@),
{
    assert(session@.messages.len() == session.messages@.len());
    if session.messages.len() == 0 {
        return tell_empty(session.id.as_str());
    }
    join(&show_messages(&session.messages), "\n")
}

/// A session as JSON, laid out over lines.
pub open spec fn session_layout(session: SessionModel) -> Result<Seq<char>, Seq<char>> {
    match json_layout(session_json(session)) {
        Ok(bytes) => Ok(decode_utf8(bytes)),
        Err(message) => Err("cannot encode session '"@ + session.id + "': "@ + message),
    }
}

/// A session as JSON, laid out over lines.
pub fn format_session_json(session: &Session) -> (r: Result<String, String>)
    ensures
        match r {
            Ok(text) => session_layout(session@) == Ok::<Seq<char>, Seq<char>>(text@),
            Err(message) => session_layout(session@) == Err::<Seq<char>, Seq<char>>(message@),
        },
{
    match laid_out(write_session(session).as_str()) {
        Ok(bytes) => match utf8_text(bytes.as_slice()) {
            Some(text) => Ok(text),
            None => vstd::pervasive::unreached(),
        },
        Err(message) => {
            let mut text = labelled("cannot encode session '", session.id.as_str());
            text.push_str("': ");
            text.push_str(message.as_str());
            Err(text)
        },
    }
}

/// A session that was loaded, as text or as JSON.
pub fn export_session(found: Result<Session, SessionError>, json: bool) -> (r: Result<
    String,
    String,
>)
    ensures
        match found {
            Err(error) => r matches Err(message) && message@ == error@.0,
            Ok(session) => if json {
                match r {
                    Ok(text) => session_layout(session@) == Ok::<Seq<char>, Seq<char>>(text@),
                    Err(message) => session_layout(session@) == Err::<Seq<char>, Seq<char>>(
                        message@,
                    ),
                }
            } else {
                r matches Ok(text) && text@ == session_text(session@)
            },
        },
{
    match found {
        Err(error) => Err(error.to_text()),
        Ok(session) => if json {
            format_session_json(&session)
        } else {
            Ok(format_session_text(&session))
        },
    }
}

/// Which session to export, and whether as JSON.
pub fn parse_session_export_args(arguments: &[String]) -> (r: Result<(String, bool), String>)
    ensures
        ({
            let all = texts(arguments@);
            match r {
                Ok((id, json)) => {
                    &&& all.len() > 0
                    &&& id@ == all[0]
                    &&& if json {
                        all.len() == 2 && all[1] == "--json"@
                    } else {
                        all.len() == 1
                    }
                },
                Err(message) => {
                    &&& all.len() != 1
                    &&& !(all.len() == 2 && all[1] == "--json"@)
                    &&& message@ == "usage: arvm session export <id> [--json]"@
                },
            }
        }),
{
    assert(texts(arguments@).len() == arguments@.len());
    if arguments.len() == 1 {
        assert(texts(arguments@)[0] == arguments@[0]@);
        return Ok((arguments[0].clone(), false));
    }
    if arguments.len() == 2 {
        assert(texts(arguments@)[1] == arguments@[1]@);
        if same_text(arguments[1].as_str(), "--json") {
            return Ok((arguments[0].clone(), true));
        }
    }
    Err("usage: arvm session export <id> [--json]".to_owned())
}

/// What is asked of the sessions. What belongs to an export is read by itself.
#[derive(Debug, PartialEq, Eq)]
pub enum SessionCommand {
    List,
    Show(String),
    Save { id: String, role: String, content: String },
    Export,
    Usage,
}

/// Whether the arguments are a proper command on sessions.
pub open spec fn proper_session_command(all: Seq<Seq<char>>) -> bool {
    all.len() > 0 && (all[0] == "list"@ || (all[0] == "show"@ && all.len() >= 2) || (all[0]
        == "save"@ && all.len() >= 4) || all[0] == "export"@)
}

/// What is asked of the sessions.
pub fn parse_session_command(arguments: &[String]) -> (r: SessionCommand)
    ensures
        ({
            let all = texts(arguments@);
            match r {
                SessionCommand::List => all.len() > 0 && all[0] == "list"@,
                SessionCommand::Show(id) => all.len() >= 2 && all[0] == "show"@ && id@ == all[1],
                SessionCommand::Save { id, role, content } => {
                    &&& all.len() >= 4
                    &&& all[0] == "save"@
                    &&& id@ == all[1]
                    &&& role@ == all[2]
                    &&& content@ == all[3]
                },
                SessionCommand::Export => all.len() > 0 && all[0] == "export"@,
                SessionCommand::Usage => !proper_session_command(all),
            }
        }),
{
    assert(texts(arguments@).len() == arguments@.len());
    if arguments.len() == 0 {
        return SessionCommand::Usage;
    }
    assert(texts(arguments@)[0] == arguments@[0]@);
    let command = arguments[0].as_str();
    if same_text(command, "list") {
        SessionCommand::List
    } else if same_text(command, "export") {
        SessionCommand::Export
    } else if same_text(command, "show") && arguments.len() >= 2 {
        assert(texts(arguments@)[1] == arguments@[1]@);
        SessionCommand::Show(arguments[1].clone())
    } else if same_text(command, "save") && arguments.len() >= 4 {
        assert(texts(arguments@)[1] == arguments@[1]@);
        assert(texts(arguments@)[2] == arguments@[2]@);
        assert(texts(arguments@)[3] == arguments@[3]@);
        SessionCommand::Save {
            id: arguments[1].clone(),
            role: arguments[2].clone(),
            content: arguments[3].clone(),
        }
    } else {
        proof {
            reveal_strlit("list");
            reveal_strlit("show");
            reveal_strlit("save");
            reveal_strlit("export");
            assert("list"@[0] != "show"@[0]);
            assert("show"@[1] != "save"@[1]);
        }
        SessionCommand::Usage
    }
}

/// The reply that lists sessions.
pub fn list_sessions(ids: Vec<String>) -> (r: Reply)
    ensures
        r@ == (if ids@.len() == 0 {
            said_line("(no sessions)"@)
        } else {
            said(texts(ids@))
        }),
{
    if ids.len() == 0 {
        Reply::line("(no sessions)".to_owned())
    } else {
        Reply::say(ids)
    }
}

/// The reply that shows a session.
pub open spec fn session_shown(id: Seq<char>, session: SessionModel) -> ReplyModel {
    if session.messages.len() == 0 {
        said_line(empty_line(id))
    } else {
        said(message_lines(session.messages))
    }
}

/// The reply that shows a session that was looked for.
pub fn show_session(id: &str, found: Result<Session, SessionError>) -> (r: Reply)
    ensures
        r@ == (match found {
            Ok(session) => session_shown(id@, session@),
            Err(error) => failure("[session] "@ + error@.0, 1),
        }),
{
    match found {
        Err(error) => Reply::fail(labelled("[session] ", error.to_text().as_str()), 1),
        Ok(session) => {
            assert(session@.messages.len() == session.messages@.len());
            if session.messages.len() == 0 {
                Reply::line(tell_empty(id))
            } else {
                Reply::say(show_messages(&session.messages))
            }
        },
    }
}

/// A session with a message at its end.
pub open spec fn with_message(
    session: SessionModel,
    role: Seq<char>,
    content: Seq<char>,
    now: u64,
) -> SessionModel {
    SessionModel {
        updated_at: now,
        messages: session.messages.push(TranscriptModel { role, content }),
        ..session
    }
}

/// A session without messages.
pub open spec fn fresh_session(id: Seq<char>, now: u64) -> SessionModel {
    SessionModel { id, created_at: now, updated_at: now, messages: Seq::empty() }
}

/// The session to save: the one that was found with a message more, or a new one where none was.
/// A session that is there but cannot be read is left alone.
pub open spec fn session_saved(
    found: Result<SessionModel, (Seq<char>, SessionErrorKind)>,
    id: Seq<char>,
    role: Seq<char>,
    content: Seq<char>,
    now: u64,
) -> Result<SessionModel, Seq<char>> {
    match found {
        Ok(session) => Ok(with_message(session, role, content, now)),
        Err(error) => if error.1 == SessionErrorKind::NotFound {
            if valid_session_id(id) {
                Ok(with_message(fresh_session(id, now), role, content, now))
            } else {
                Err("[session] "@ + invalid_id_text())
            }
        } else {
            Err("[session] cannot resume "@ + id + ": "@ + error.0)
        },
    }
}

/// What was found of a session.
pub open spec fn found_seen(found: Result<Session, SessionError>) -> Result<
    SessionModel,
    (Seq<char>, SessionErrorKind),
> {
    match found {
        Ok(session) => Ok(session@),
        Err(error) => Err(error@),
    }
}

/// The session to save.
pub fn session_to_save(
    found: Result<Session, SessionError>,
    id: &str,
    role: &str,
    content: &str,
    now: u64,
) -> (r: Result<Session, String>)
    ensures
        ({
            let saved = session_saved(found_seen(found), id@, role@, content@, now);
            match r {
                Ok(session) => saved == Ok::<SessionModel, Seq<char>>(session@),
                Err(message) => saved == Err::<SessionModel, Seq<char>>(message@),
            }
        }),
{
    let mut session = match found {
        Ok(session) => session,
        Err(error) => {
            if error.is_not_found() {
                match Session::new_at(id, now) {
                    Ok(session) => session,
                    Err(error) => {
                        return Err(labelled("[session] ", error.to_text().as_str()));
                    },
                }
            } else {
                let mut text = labelled("[session] cannot resume ", id);
                text.push_str(": ");
                text.push_str(error.to_text().as_str());
                return Err(text);
            }
        },
    };
    session.push_at(role, content, now);
    Ok(session)
}

/// What is said of a session that was saved.
pub fn saved_line(id: &str, session: &Session) -> (r: String)
    ensures
        r@ == "saved "@ + id@ + " ("@ + decimal(session@.messages.len()) + " messages)"@,
{
    let mut text = labelled("saved ", id);
    text.push_str(" (");
    text.push_str(size_text(session.messages.len()).as_str());
    text.push_str(" messages)");
    text
}

// ---------------------------------------------------------------------------
// Skills
// ---------------------------------------------------------------------------

/// What is asked of the skills.
#[derive(Debug, PartialEq, Eq)]
pub enum SkillCommand {
    List,
    Show(String),
    Load(String),
    Usage,
}

/// What is asked of the skills.
pub fn parse_skill_command(arguments: &[String]) -> (r: SkillCommand)
    ensures
        ({
            let all = texts(arguments@);
            match r {
                SkillCommand::List => all.len() == 1 && all[0] == "list"@,
                SkillCommand::Show(name) => all.len() == 2 && all[0] == "show"@ && name@ == all[1],
                SkillCommand::Load(name) => all.len() == 2 && all[0] == "load"@ && name@ == all[1],
                SkillCommand::Usage => !(all.len() == 1 && all[0] == "list"@) && !(all.len() == 2
                    && (all[0] == "show"@ || all[0] == "load"@)),
            }
        }),
{
    assert(texts(arguments@).len() == arguments@.len());
    if arguments.len() == 0 {
        return SkillCommand::Usage;
    }
    assert(texts(arguments@)[0] == arguments@[0]@);
    let command = arguments[0].as_str();
    if arguments.len() == 1 && same_text(command, "list") {
        SkillCommand::List
    } else if arguments.len() == 2 && same_text(command, "show") {
        assert(texts(arguments@)[1] == arguments@[1]@);
        SkillCommand::Show(arguments[1].clone())
    } else if arguments.len() == 2 && same_text(command, "load") {
        assert(texts(arguments@)[1] == arguments@[1]@);
        SkillCommand::Load(arguments[1].clone())
    } else {
        SkillCommand::Usage
    }
}

/// A skill as it is listed.
pub open spec fn skill_line(name: Seq<char>, description: Seq<char>) -> Seq<char> {
    name + "\t"@ + description
}

fn tell_skill(name: &str, description: &str) -> (r: String)
    ensures
        r@ == skill_line(name@, description@),
{
    let mut text = labelled(name, "\t");
    text.push_str(description);
    text
}

/// The lines that list skills.
pub open spec fn skill_lines(skills: Seq<SummaryModel>) -> Seq<Seq<char>> {
    Seq::new(skills.len(), |i: int| skill_line(skills[i].name, skills[i].description))
}

/// The reply that lists the skills that were discovered.
pub fn list_skills(found: Result<Vec<SkillSummary>, SkillError>) -> (r: Reply)
    ensures
        r@ == (match found {
            Err(error) => failure("[skill] "@ + error.message@, 1),
            Ok(skills) => if skills@.len() == 0 {
                said_line("(no skills)"@)
            } else {
                said(skill_lines(summary_models(skills@)))
            },
        }),
{
    let skills = match found {
        Err(error) => {
            return Reply::fail(labelled("[skill] ", error.message.as_str()), 1);
        },
        Ok(skills) => skills,
    };
    if skills.len() == 0 {
        return Reply::line("(no skills)".to_owned());
    }
    let ghost all = skill_lines(summary_models(skills@));
    let mut lines: Vec<String> = Vec::new();
    let mut i: usize = 0;
    assert(texts(lines@) =~= all.take(0));
    while i < skills.len()
        invariant
            i <= skills@.len(),
            all == skill_lines(summary_models(skills@)),
            texts(lines@) == all.take(i as int),
        decreases skills@.len() - i,
    {
        assert(summary_models(skills@)[i as int] == skills@[i as int]@);
        let line = tell_skill(skills[i].name.as_str(), skills[i].description.as_str());
        let ghost before = lines@;
        lines.push(line);
        assert(texts(lines@) =~= texts(before).push(line@));
        assert(all.take(i + 1) =~= all.take(i as int).push(all[i as int]));
        i += 1;
    }
    assert(all.take(i as int) =~= all);
    Reply::say(lines)
}

/// What a loaded skill brings into a prompt.
pub open spec fn scoped(skill: SkillModel) -> Seq<char> {
    "# Skill: "@ + skill.name + "\n"@ + skill.description + "\n\n"@ + skill.instructions
}

/// The reply that shows a skill, or loads it.
pub fn show_skill(found: Result<Skill, SkillError>, load: bool) -> (r: Reply)
    ensures
        r@ == (match found {
            Err(error) => failure("[skill] "@ + error.message@, 1),
            Ok(skill) => said_line(
                if load {
                    scoped(skill@)
                } else {
                    skill_line(skill@.name, skill@.description)
                },
            ),
        }),
{
    match found {
        Err(error) => Reply::fail(labelled("[skill] ", error.message.as_str()), 1),
        Ok(skill) => Reply::line(
            if load {
                skill.scoped_instructions()
            } else {
                tell_skill(skill.name.as_str(), skill.description.as_str())
            },
        ),
    }
}

/// What the first `n` skills that are asked for bring into a prompt.
pub open spec fn requested(roots: Seq<RootModel>, names: Seq<Seq<char>>, n: int) -> Result<
    Seq<Seq<char>>,
    Seq<char>,
>
    decreases n,
{
    if n <= 0 {
        Ok(Seq::empty())
    } else {
        match requested(roots, names, n - 1) {
            Err(message) => Err(message),
            Ok(before) => match loaded(roots, names[n - 1]) {
                Ok(skill) => Ok(before.push(scoped(skill))),
                Err(message) => Err("invalid --skill '"@ + names[n - 1] + "': "@ + message),
            },
        }
    }
}

proof fn lemma_requested_fails(roots: Seq<RootModel>, names: Seq<Seq<char>>, i: int, n: int)
    requires
        0 <= i <= n,
        requested(roots, names, i) is Err,
    ensures
        requested(roots, names, n) == requested(roots, names, i),
    decreases n - i,
{
    if i < n {
        lemma_requested_fails(roots, names, i, n - 1);
    }
}

/// What the skills that the arguments ask for bring into a prompt.
pub fn load_requested_skills(roots: &Vec<SkillRoot>, arguments: &[String]) -> (r: Result<
    Vec<String>,
    String,
>)
    ensures
        ({
            let names = flag_values(texts(arguments@), "--skill"@);
            let all = requested(root_models(roots@), names, names.len() as int);
            match r {
                Ok(skills) => all == Ok::<Seq<Seq<char>>, Seq<char>>(texts(skills@)),
                Err(message) => all == Err::<Seq<Seq<char>>, Seq<char>>(message@),
            }
        }),
{
    let names = extract_skill_names(arguments);
    let ghost all = texts(names@);
    let ghost models = root_models(roots@);
    let mut r: Vec<String> = Vec::new();
    let mut i: usize = 0;
    assert(texts(r@) =~= Seq::<Seq<char>>::empty());
    while i < names.len()
        invariant
            i <= names@.len(),
            all == texts(names@),
            all == flag_values(texts(arguments@), "--skill"@),
            models == root_models(roots@),
            requested(models, all, i as int) == Ok::<Seq<Seq<char>>, Seq<char>>(texts(r@)),
        decreases names@.len() - i,
    {
        assert(all[i as int] == names@[i as int]@);
        match load_skill(roots, names[i].as_str()) {
            Ok(skill) => {
                let part = skill.scoped_instructions();
                let ghost before = r@;
                r.push(part);
                assert(texts(r@) =~= texts(before).push(part@));
            },
            Err(error) => {
                let mut text = labelled("invalid --skill '", names[i].as_str());
                text.push_str("': ");
                text.push_str(error.message.as_str());
                proof {
                    lemma_requested_fails(models, all, i + 1, all.len() as int);
                }
                return Err(text);
            },
        }
        i += 1;
    }
    assert(all.len() == names@.len());
    Ok(r)
}

/// A prompt with the skills that were loaded behind it.
pub open spec fn prompt_with_skills(prompt: Seq<char>, skills: Seq<Seq<char>>) -> Seq<char> {
    if skills.len() == 0 {
        prompt
    } else {
        prompt + "\n\nLoaded skills:\n"@ + joined(skills, "\n\n"@)
    }
}

/// A prompt with the skills that were loaded behind it.
pub fn system_prompt_with_skills(prompt: &str, skills: &Vec<String>) -> (r: String)
    ensures
        r@ == prompt_with_skills(prompt@, texts(skills@)),
{
    assert(texts(skills@).len() == skills@.len());
    if skills.len() == 0 {
        return prompt.to_owned();
    }
    let mut r = labelled(prompt, "\n\nLoaded skills:\n");
    r.push_str(join(skills, "\n\n").as_str());
    r
}

/// Saving adds one message behind those that a session holds, and marks the time; a session that was
/// not found is begun with it, and one that cannot be read is not replaced.
pub proof fn law_saving_adds_a_message(
    found: Result<SessionModel, (Seq<char>, SessionErrorKind)>,
    id: Seq<char>,
    role: Seq<char>,
    content: Seq<char>,
    now: u64,
)
    ensures
        match found {
            Ok(before) => session_saved(found, id, role, content, now) matches Ok(after) && {
                &&& after.messages == before.messages.push(TranscriptModel { role, content })
                &&& after.id == before.id
                &&& after.created_at == before.created_at
                &&& after.updated_at == now
            },
            Err((_, kind)) => {
                let saved = session_saved(found, id, role, content, now);
                &&& kind != SessionErrorKind::NotFound ==> saved is Err
                &&& !valid_session_id(id) ==> saved is Err
                &&& kind == SessionErrorKind::NotFound && valid_session_id(id) ==> (
                saved matches Ok(after) && after.id == id && after.created_at == now
                    && after.updated_at == now && after.messages == seq![
                    TranscriptModel { role, content },
                ])
            },
        },
{
    assert(Seq::<TranscriptModel>::empty().push(TranscriptModel { role, content }) =~= seq![
        TranscriptModel { role, content },
    ]);
}

/// A session is shown message by message, each with its role and what was said.
pub proof fn law_sessions_are_shown_message_by_message(session: SessionModel, i: int)
    requires
        0 <= i < session.messages.len(),
    ensures
        session_text(session) == joined(message_lines(session.messages), "\n"@),
        message_lines(session.messages).len() == session.messages.len(),
        message_lines(session.messages)[i] == "["@ + session.messages[i].role + "] "@
            + session.messages[i].content,
{
}

/// A prompt keeps standing first when skills are loaded, and each skill stands in it, the last one at
/// the end.
pub proof fn law_skills_are_loaded_behind_the_prompt(prompt: Seq<char>, skills: Seq<Seq<char>>)
    ensures
        skills.len() == 0 ==> prompt_with_skills(prompt, skills) == prompt,
        begins(prompt_with_skills(prompt, skills), prompt),
        skills.len() > 0 ==> ends(prompt_with_skills(prompt, skills), skills.last()),
        skills.len() == 1 ==> prompt_with_skills(prompt, skills) == prompt
            + "\n\nLoaded skills:\n"@ + skills[0],
{
    let whole = prompt_with_skills(prompt, skills);
    assert(whole.take(prompt.len() as int) =~= prompt);
    if skills.len() > 0 {
        let all = joined(skills, "\n\n"@);
        let last = skills.last();
        if skills.len() == 1 {
            assert(all == skills[0]);
        }
        assert(all.skip(all.len() - last.len()) =~= last);
        assert(whole.skip(whole.len() - last.len()) =~= last);
    }
}

/// Skills are listed one to a line, the name before the description.
pub proof fn law_skills_are_listed(skills: Seq<SummaryModel>, i: int)
    requires
        0 <= i < skills.len(),
    ensures
        skill_lines(skills).len() == skills.len(),
        skill_lines(skills)[i] == skills[i].name + seq!['\t'] + skills[i].description,
{
    reveal_strlit("\t");
    assert(skill_lines(skills)[i] =~= skills[i].name + seq!['\t'] + skills[i].description);
}

} // verus!
