//! Private local session persistence for prompts and agent responses.

use vstd::prelude::*;

use crate::clock::unix_timestamp;
use crate::json::{field, laid_out, quoted, write_array, write_object};
#[allow(unused_imports)]
use crate::json::{array_text, field_models, json_layout, json_string, object_text};
#[allow(unused_imports)]
use crate::ordered::in_text_order;
use crate::ordered::sort_texts;
use crate::runtime_error::labelled;
#[allow(unused_imports)]
use crate::text::{ascii_alphanumeric, decimal, ends, texts};
use crate::text::{
    chars_of, decimal_text, ends_with, is_ascii_alphanumeric, substring,
};

verus! {

/// One message retained in a local session transcript.
#[derive(Debug, PartialEq, Eq)]
pub struct SessionMessage {
    pub role: String,
    pub content: String,
}

/// What a [`SessionMessage`] says.
#[verifier::ext_equal]
pub struct TranscriptModel {
    pub role: Seq<char>,
    pub content: Seq<char>,
}

impl View for SessionMessage {
    type V = TranscriptModel;

    open spec fn view(&self) -> TranscriptModel {
        TranscriptModel { role: self.role@, content: self.content@ }
    }
}

pub open spec fn transcript(messages: Seq<SessionMessage>) -> Seq<TranscriptModel> {
    Seq::new(messages.len(), |i: int| messages[i]@)
}

/// A resumable local conversation record.
#[derive(Debug, PartialEq, Eq)]
pub struct Session {
    pub id: String,
    pub created_at: u64,
    pub updated_at: u64,
    pub messages: Vec<SessionMessage>,
}

/// What a [`Session`] says.
#[verifier::ext_equal]
pub struct SessionModel {
    pub id: Seq<char>,
    pub created_at: u64,
    pub updated_at: u64,
    pub messages: Seq<TranscriptModel>,
}

impl View for Session {
    type V = SessionModel;

    open spec fn view(&self) -> SessionModel {
        SessionModel {
            id: self.id@,
            created_at: self.created_at,
            updated_at: self.updated_at,
            messages: transcript(self.messages@),
        }
    }
}

pub open spec fn word_character(c: char) -> bool {
    ascii_alphanumeric(c) || c == '-' || c == '_'
}

/// Whether every character is a letter, a digit, a hyphen or an underscore.
pub open spec fn word_characters(s: Seq<char>) -> bool {
    forall|i: int| 0 <= i < s.len() ==> word_character(#[trigger] s[i])
}

/// Whether every character is a letter, a digit, a hyphen or an underscore.
pub fn has_word_characters(s: &str) -> (r: bool)
    ensures
        r == word_characters(s@),
{
    let chars = chars_of(s);
    let mut i: usize = 0;
    while i < chars.len()
        invariant
            i <= chars@.len(),
            chars@ == s@,
            forall|j: int| 0 <= j < i ==> word_character(#[trigger] s@[j]),
        decreases chars@.len() - i,
    {
        let c = chars[i];
        if !(is_ascii_alphanumeric(c) || c == '-' || c == '_') {
            assert(!word_character(s@[i as int]));
            return false;
        }
        i += 1;
    }
    true
}

/// Whether a text can be a session id.
pub open spec fn valid_session_id(id: Seq<char>) -> bool {
    id.len() > 0 && word_characters(id)
}

pub open spec fn invalid_id_text() -> Seq<char> {
    "session id must contain only ASCII letters, numbers, '-' or '_'"@
}

/// What went wrong with a stored session.
#[derive(Debug, Clone, Copy, PartialEq, Eq, Structural)]
pub enum SessionErrorKind {
    Generic,
    NotFound,
}

/// Errors from local session storage.
#[derive(Debug, PartialEq, Eq)]
pub struct SessionError {
    pub message: String,
    kind: SessionErrorKind,
}

impl View for SessionError {
    type V = (Seq<char>, SessionErrorKind);

    closed spec fn view(&self) -> (Seq<char>, SessionErrorKind) {
        (self.message@, self.kind)
    }
}

impl SessionError {
    fn new(message: String) -> (r: Self)
        ensures
            r@ == (message@, SessionErrorKind::Generic),
    {
        SessionError { message, kind: SessionErrorKind::Generic }
    }

    fn not_found(message: String) -> (r: Self)
        ensures
            r@ == (message@, SessionErrorKind::NotFound),
    {
        SessionError { message, kind: SessionErrorKind::NotFound }
    }

    pub fn is_not_found(&self) -> (r: bool)
        ensures
            r == (self@.1 == SessionErrorKind::NotFound),
    {
        match self.kind {
            SessionErrorKind::NotFound => true,
            SessionErrorKind::Generic => false,
        }
    }

    pub fn to_text(&self) -> (r: String)
        ensures
            r@ == self@.0,
    {
        self.message.clone()
    }
}

/// Checks a session id.
pub fn validate_id(id: &str) -> (r: Result<(), SessionError>)
    ensures
        match r {
            Ok(_) => valid_session_id(id@),
            Err(error) => !valid_session_id(id@) && error@ == (
                invalid_id_text(),
                SessionErrorKind::Generic,
            ),
        },
{
    if id.is_empty() || !has_word_characters(id) {
        return Err(
            SessionError::new(
                "session id must contain only ASCII letters, numbers, '-' or '_'".to_owned(),
            ),
        );
    }
    Ok(())
}

impl Session {
    pub fn new(id: &str) -> (r: Result<Self, SessionError>)
        ensures
            match r {
                Ok(session) => {
                    &&& valid_session_id(id@)
                    &&& session@ == (SessionModel {
                        id: id@,
                        created_at: session@.created_at,
                        updated_at: session@.created_at,
                        messages: Seq::empty(),
                    })
                },
                Err(error) => !valid_session_id(id@) && error@ == (
                    invalid_id_text(),
                    SessionErrorKind::Generic,
                ),
            },
    {
        Session::new_at(id, unix_timestamp())
    }

    /// A session that begins at a given time.
    pub fn new_at(id: &str, now: u64) -> (r: Result<Self, SessionError>)
        ensures
            match r {
                Ok(session) => {
                    &&& valid_session_id(id@)
                    &&& session@ == (SessionModel {
                        id: id@,
                        created_at: now,
                        updated_at: now,
                        messages: Seq::empty(),
                    })
                },
                Err(error) => !valid_session_id(id@) && error@ == (
                    invalid_id_text(),
                    SessionErrorKind::Generic,
                ),
            },
    {
        match validate_id(id) {
            Err(error) => Err(error),
            Ok(_) => {
                let session = Session {
                    id: id.to_owned(),
                    created_at: now,
                    updated_at: now,
                    messages: Vec::new(),
                };
                assert(transcript(session.messages@) =~= Seq::<TranscriptModel>::empty());
                Ok(session)
            },
        }
    }

    pub fn push(&mut self, role: &str, content: &str)
        ensures
            final(self)@ == (SessionModel {
                updated_at: final(self)@.updated_at,
                messages: old(self)@.messages.push(
                    TranscriptModel { role: role@, content: content@ },
                ),
                ..old(self)@
            }),
    {
        self.push_at(role, content, unix_timestamp());
    }

    /// Adds a message at a given time.
    pub fn push_at(&mut self, role: &str, content: &str, now: u64)
        ensures
            final(self)@ == (SessionModel {
                updated_at: now,
                messages: old(self)@.messages.push(
                    TranscriptModel { role: role@, content: content@ },
                ),
                ..old(self)@
            }),
    {
        let ghost before = self.messages@;
        let message = SessionMessage { role: role.to_owned(), content: content.to_owned() };
        let ghost added = message@;
        self.messages.push(message);
        assert(transcript(self.messages@) =~= transcript(before).push(added));
        self.updated_at = now;
    }
}

// ---------------------------------------------------------------------------
// Storage
// ---------------------------------------------------------------------------

pub open spec fn message_json(m: TranscriptModel) -> Seq<char> {
    object_text(seq![("role"@, json_string(m.role)), ("content"@, json_string(m.content))])
}

/// A session as JSON.
pub open spec fn session_json(s: SessionModel) -> Seq<char> {
    object_text(
        seq![
            ("id"@, json_string(s.id)),
            ("created_at"@, decimal(s.created_at as nat)),
            ("updated_at"@, decimal(s.updated_at as nat)),
            (
                "messages"@,
                array_text(Seq::new(s.messages.len(), |i: int| message_json(s.messages[i]))),
            ),
        ],
    )
}

/// The file that a session is kept in.
pub open spec fn session_file(id: Seq<char>) -> Seq<char> {
    id + ".json"@
}

/// The file that a session is written to before it takes its place.
pub open spec fn temporary_file(id: Seq<char>, process: nat, sequence: nat) -> Seq<char> {
    "."@ + id + "."@ + decimal(process) + "."@ + decimal(sequence) + ".tmp"@
}

/// What is to be written where to save a session.
#[derive(Debug, PartialEq, Eq)]
pub struct SavePlan {
    pub file: String,
    pub temporary: String,
    pub content: Vec<u8>,
}

/// The steps of saving a session that can fail.
#[derive(Debug, Clone, Copy, PartialEq, Eq, Structural)]
pub enum SaveStep {
    Directory,
    Write,
    Commit,
}

/// The message for a step that failed.
pub open spec fn save_failure(
    step: SaveStep,
    directory: Seq<char>,
    id: Seq<char>,
    message: Seq<char>,
) -> Seq<char> {
    match step {
        SaveStep::Directory => "cannot create session directory '"@ + directory + "': "@ + message,
        SaveStep::Write => "cannot write temporary session: "@ + message,
        SaveStep::Commit => "cannot commit session '"@ + id + "': "@ + message,
    }
}

/// Why the file of a session could not be read.
#[derive(Debug, PartialEq, Eq)]
pub enum ReadFailure {
    Missing,
    Other(String),
}

/// A filesystem-backed session store rooted at a caller-selected private path.
#[derive(Debug, PartialEq, Eq)]
pub struct SessionStore {
    directory: String,
}

impl View for SessionStore {
    type V = Seq<char>;

    closed spec fn view(&self) -> Seq<char> {
        self.directory@
    }
}

fn write_message(message: &SessionMessage) -> (r: String)
    ensures
        r@ == message_json(message@),
{
    let fields = vec![
        field("role", quoted(message.role.as_str())),
        field("content", quoted(message.content.as_str())),
    ];
    assert(field_models(fields@) =~= seq![
        ("role"@, json_string(message@.role)),
        ("content"@, json_string(message@.content)),
    ]);
    write_object(&fields)
}

pub(crate) fn write_session(session: &Session) -> (r: String)
    ensures
        r@ == session_json(session@),
{
    let ghost m = session@;
    let ghost all = Seq::new(m.messages.len(), |i: int| message_json(m.messages[i]));
    let mut parts: Vec<String> = Vec::new();
    let mut i: usize = 0;
    while i < session.messages.len()
        invariant
            i <= session.messages@.len(),
            m == session@,
            all == Seq::new(m.messages.len(), |i: int| message_json(m.messages[i])),
            texts(parts@) == all.take(i as int),
        decreases session.messages@.len() - i,
    {
        let part = write_message(&session.messages[i]);
        assert(m.messages[i as int] == session.messages@[i as int]@);
        let ghost before = parts@;
        parts.push(part);
        assert(texts(parts@) =~= texts(before).push(part@));
        assert(all.take(i + 1) =~= all.take(i as int).push(all[i as int]));
        i += 1;
    }
    assert(all.take(all.len() as int) =~= all);
    let fields = vec![
        field("id", quoted(session.id.as_str())),
        field("created_at", decimal_text(session.created_at)),
        field("updated_at", decimal_text(session.updated_at)),
        field("messages", write_array(&parts)),
    ];
    assert(field_models(fields@) =~= seq![
        ("id"@, json_string(m.id)),
        ("created_at"@, decimal(m.created_at as nat)),
        ("updated_at"@, decimal(m.updated_at as nat)),
        ("messages"@, array_text(all)),
    ]);
    write_object(&fields)
}

/// Whether a file holds a session, going by its name.
pub open spec fn names_session(file: Seq<char>) -> bool {
    ends(file, ".json"@) && valid_session_id(file.take(file.len() - ".json"@.len()))
}

/// The ids in the names of the first `n` files, in their order.
pub open spec fn ids_in(files: Seq<Seq<char>>, n: int) -> Seq<Seq<char>>
    decreases n,
{
    if n <= 0 {
        Seq::empty()
    } else if names_session(files[n - 1]) {
        ids_in(files, n - 1).push(files[n - 1].take(files[n - 1].len() - ".json"@.len()))
    } else {
        ids_in(files, n - 1)
    }
}

impl SessionStore {
    pub fn new(directory: &str) -> (r: Self)
        ensures
            r@ == directory@,
    {
        SessionStore { directory: directory.to_owned() }
    }

    pub fn directory(&self) -> (r: &str)
        ensures
            r@ == self@,
    {
        self.directory.as_str()
    }

    /// What is to be written where to save a session, by a process and under a number that no
    /// other save of the process has.
    pub fn plan_save(&self, session: &Session, process: u32, sequence: u64) -> (r: Result<
        SavePlan,
        SessionError,
    >)
        ensures
            match r {
                Ok(plan) => {
                    &&& valid_session_id(session@.id)
                    &&& json_layout(session_json(session@)) == Ok::<Seq<u8>, Seq<char>>(
                        plan.content@,
                    )
                    &&& plan.file@ == session_file(session@.id)
                    &&& plan.temporary@ == temporary_file(
                        session@.id,
                        process as nat,
                        sequence as nat,
                    )
                },
                Err(error) => if !valid_session_id(session@.id) {
                    error@ == (invalid_id_text(), SessionErrorKind::Generic)
                } else {
                    json_layout(session_json(session@)) matches Err(message) && error@ == (
                        "cannot encode session: "@ + message,
                        SessionErrorKind::Generic,
                    )
                },
            },
    {
        match validate_id(session.id.as_str()) {
            Err(error) => return Err(error),
            Ok(_) => {},
        }
        let content = match laid_out(write_session(session).as_str()) {
            Err(message) => {
                return Err(
                    SessionError::new(labelled("cannot encode session: ", message.as_str())),
                );
            },
            Ok(content) => content,
        };
        let mut temporary = ".".to_owned();
        temporary.push_str(session.id.as_str());
        temporary.push_str(".");
        temporary.push_str(decimal_text(process as u64).as_str());
        temporary.push_str(".");
        temporary.push_str(decimal_text(sequence).as_str());
        temporary.push_str(".tmp");
        let mut file = session.id.clone();
        file.push_str(".json");
        Ok(SavePlan { file, temporary, content })
    }

    /// The error of a step of saving that failed.
    pub fn save_error(&self, step: SaveStep, id: &str, message: &str) -> (r: SessionError)
        ensures
            r@ == (save_failure(step, self@, id@, message@), SessionErrorKind::Generic),
    {
        let text = match step {
            SaveStep::Directory => {
                let mut text = "cannot create session directory '".to_owned();
                text.push_str(self.directory.as_str());
                text.push_str("': ");
                text.push_str(message);
                text
            },
            SaveStep::Write => labelled("cannot write temporary session: ", message),
            SaveStep::Commit => {
                let mut text = "cannot commit session '".to_owned();
                text.push_str(id);
                text.push_str("': ");
                text.push_str(message);
                text
            },
        };
        SessionError::new(text)
    }

    /// The file to load a session from.
    pub fn file_for(&self, id: &str) -> (r: Result<String, SessionError>)
        ensures
            match r {
                Ok(file) => valid_session_id(id@) && file@ == session_file(id@),
                Err(error) => !valid_session_id(id@) && error@ == (
                    invalid_id_text(),
                    SessionErrorKind::Generic,
                ),
            },
    {
        match validate_id(id) {
            Err(error) => Err(error),
            Ok(_) => {
                let mut file = id.to_owned();
                file.push_str(".json");
                Ok(file)
            },
        }
    }

    /// The error of a session whose file could not be read.
    pub fn load_error(&self, id: &str, failure: ReadFailure) -> (r: SessionError)
        ensures
            r@ == (match failure {
                ReadFailure::Missing => (
                    "session '"@ + id@ + "' does not exist"@,
                    SessionErrorKind::NotFound,
                ),
                ReadFailure::Other(message) => (
                    "cannot read session '"@ + id@ + "': "@ + message@,
                    SessionErrorKind::Generic,
                ),
            }),
    {
        match failure {
            ReadFailure::Missing => {
                let mut text = "session '".to_owned();
                text.push_str(id);
                text.push_str("' does not exist");
                SessionError::not_found(text)
            },
            ReadFailure::Other(message) => {
                let mut text = "cannot read session '".to_owned();
                text.push_str(id);
                text.push_str("': ");
                text.push_str(message.as_str());
                SessionError::new(text)
            },
        }
    }

    /// The error of a session whose file could not be decoded.
    pub fn decode_error(&self, id: &str, message: &str) -> (r: SessionError)
        ensures
            r@ == (
                "cannot decode session '"@ + id@ + "': "@ + message@,
                SessionErrorKind::Generic,
            ),
    {
        let mut text = "cannot decode session '".to_owned();
        text.push_str(id);
        text.push_str("': ");
        text.push_str(message);
        SessionError::new(text)
    }

    /// The ids of the sessions that a directory with these files holds.
    pub fn list(&self, files: &Vec<String>) -> (r: Vec<String>)
        ensures
            in_text_order(texts(r@)),
            texts(r@).to_multiset() == ids_in(texts(files@), files@.len() as int).to_multiset(),
    {
        let ghost all = texts(files@);
        let mut ids: Vec<String> = Vec::new();
        let mut i: usize = 0;
        assert(texts(ids@) =~= Seq::<Seq<char>>::empty());
        while i < files.len()
            invariant
                i <= files@.len(),
                all == texts(files@),
                texts(ids@) == ids_in(all, i as int),
            decreases files@.len() - i,
        {
            assert(all[i as int] == files@[i as int]@);
            if ends_with(files[i].as_str(), ".json") {
                let chars = chars_of(files[i].as_str());
                let suffix = chars_of(".json");
                let id = substring(&chars, 0, chars.len() - suffix.len());
                assert(id@ =~= all[i as int].take(all[i as int].len() - ".json"@.len()));
                if !id.as_str().is_empty() && has_word_characters(id.as_str()) {
                    let ghost before = ids@;
                    let ghost added = id@;
                    ids.push(id);
                    assert(texts(ids@) =~= texts(before).push(added));
                }
            }
            i += 1;
        }
        sort_texts(ids)
    }
}

// ---------------------------------------------------------------------------
// Laws
// ---------------------------------------------------------------------------

/// The id of a session is one or more letters, digits, hyphens and underscores, so it never leads out
/// of a directory.
pub proof fn law_session_ids_are_words(id: Seq<char>, i: int)
    ensures
        valid_session_id(id) ==> id.len() > 0 && (0 <= i < id.len() ==> 'a' <= id[i] <= 'z' || 'A'
            <= id[i] <= 'Z' || '0' <= id[i] <= '9' || id[i] == '-' || id[i] == '_'),
        id.len() > 0 && (forall|k: int|
            0 <= k < id.len() ==> ('a' <= #[trigger] id[k] <= 'z' || 'A' <= id[k] <= 'Z' || '0'
                <= id[k] <= '9' || id[k] == '-' || id[k] == '_')) ==> valid_session_id(id),
{
    if valid_session_id(id) && 0 <= i < id.len() {
        assert(word_character(id[i]));
    }
    if forall|k: int|
        0 <= k < id.len() ==> ('a' <= #[trigger] id[k] <= 'z' || 'A' <= id[k] <= 'Z' || '0' <= id[k]
            <= '9' || id[k] == '-' || id[k] == '_') {
        assert forall|k: int| 0 <= k < id.len() implies word_character(#[trigger] id[k]) by {}
    }
}

/// A session is kept in a file of its own name, and is listed by it: the files of two sessions are
/// different, and a file is listed exactly where it is the file of a session.
pub proof fn law_sessions_are_listed_by_their_files(
    files: Seq<Seq<char>>,
    n: int,
    id: Seq<char>,
    other: Seq<char>,
)
    requires
        0 <= n <= files.len(),
    ensures
        session_file(id) == session_file(other) <==> id == other,
        ids_in(files, n).contains(id) <==> valid_session_id(id) && exists|i: int|
            0 <= i < n && #[trigger] files[i] == id + ".json"@,
    decreases n,
{
    reveal_strlit(".json");
    let suffix = ".json"@;
    if session_file(id) == session_file(other) {
        let n1 = session_file(id).len() - 5;
        assert(session_file(id).take(n1) =~= id);
        assert(session_file(other).take(n1) =~= other);
    }
    if n > 0 {
        law_sessions_are_listed_by_their_files(files, n - 1, id, other);
        let file = files[n - 1];
        let before = ids_in(files, n - 1);
        let all = ids_in(files, n);
        let name = file.take(file.len() - 5);
        if names_session(file) {
            assert(file =~= name + suffix) by {
                assert(file.skip(file.len() - 5) == suffix);
                assert forall|k: int| 0 <= k < 5 implies file[file.len() - 5 + k] == suffix[k] by {
                    assert(file.skip(file.len() - 5)[k] == suffix[k]);
                }
            }
            assert(all.last() == name);
            if before.contains(id) {
                let k = choose|k: int| 0 <= k < before.len() && before[k] == id;
                assert(all[k] == id);
            }
            if all.contains(id) {
                let k = choose|k: int| 0 <= k < all.len() && all[k] == id;
                if k < before.len() {
                    assert(before[k] == id);
                } else {
                    assert(files[n - 1] == id + suffix);
                }
            }
        }
        if valid_session_id(id) && file == id + suffix {
            assert(file.skip(file.len() - 5) =~= suffix);
            assert(file.take(file.len() - 5) =~= id);
            assert(names_session(file));
            assert(all[all.len() - 1] == id);
        }
        if exists|i: int| 0 <= i < n && #[trigger] files[i] == id + suffix {
            let i = choose|i: int| 0 <= i < n && #[trigger] files[i] == id + suffix;
            if i < n - 1 {
                assert(files[i] == id + suffix);
            }
        }
    }
}

} // verus!
