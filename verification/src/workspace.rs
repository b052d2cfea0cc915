//! Workspace tools with path containment and explicit permission metadata.

use vstd::prelude::*;
#[allow(unused_imports)]
use vstd::utf8::{decode_utf8, valid_utf8};

use crate::agent_messages::{PermissionRequest, ToolArguments, ToolError, ToolSpec};
#[allow(unused_imports)]
use crate::agent_messages::{RequestedModel, SpecModel, asked_for, spec_models};
use crate::model_replies::lossy_text;
#[allow(unused_imports)]
use crate::model_replies::lossy;
#[allow(unused_imports)]
use crate::ordered::in_text_order;
use crate::ordered::sort_texts;
use crate::runtime_error::labelled;
#[allow(unused_imports)]
use crate::skills::below;
use crate::skills::path_below;
use crate::text::{
    after_last, ascii_lower, byte_count, chars_of, contains_char, contains_text, join,
    lines, same_text, signed_text, size_text, split, starts_with, substring, utf8_text, words,
};
#[allow(unused_imports)]
use crate::text::{
    all_white, begins, byte_len, decimal, ends, find_char, find_last, holds_text, joined, lacks,
    law_blank_texts_are_white, law_last_places, law_lines_undo_join, law_texts_hold_their_parts,
    lemma_find_char, lemma_find_char_is, lines_of, lower_text, signed_decimal, split_on, texts, words_of,
};
use crate::tool_arguments::{
    ensure_arguments, optional_text, required_text, required_text_allow_empty,
};
#[allow(unused_imports)]
use crate::tool_arguments::{
    any_text_argument, argument, maybe_text, names_in, names_trouble, text_argument,
};
#[allow(unused_imports)]
use crate::tool_values::{Arguments, ToolModel, arguments_model};
use crate::toolbox::{ToolRegistry, Toolbox};
#[allow(unused_imports)]
use crate::toolbox::{
    first_shared, just_two, kept_at, law_new_names_are_registered,
    law_tools_with_other_names_can_be_merged, lemma_kept_at, lemma_kept_in_merges, lemma_with_tools,
    merged, one_more, registered, with_tools,
};
use crate::vm_tools::vm_tool_registry;
#[allow(unused_imports)]
use crate::vm_tools::{VmTools, idle_tools, vm_tool_models};
use vstd::slice::slice_subrange;

verus! {

pub const MAX_FILE_BYTES: usize = 128 * 1024;

pub const MAX_SEARCH_RESULTS: usize = 100;

pub const MAX_COMMAND_OUTPUT_BYTES: usize = 16 * 1024;

/// Errors from workspace initialization or path resolution.
#[derive(Debug, PartialEq, Eq)]
pub struct WorkspaceError {
    pub message: String,
}

impl WorkspaceError {
    pub fn to_text(&self) -> (r: String)
        ensures
            r@ == self.message@,
    {
        self.message.clone()
    }
}

/// An approved root directory for workspace operations.
#[derive(Debug, PartialEq, Eq)]
pub struct Workspace {
    root: String,
}

impl View for Workspace {
    type V = Seq<char>;

    closed spec fn view(&self) -> Seq<char> {
        self.root@
    }
}

fn tell(label: &str, requested: &str, rest: &str) -> (r: ToolError)
    ensures
        r@ == label@ + requested@ + rest@,
{
    let mut text = label.to_owned();
    text.push_str(requested);
    text.push_str(rest);
    ToolError::new(text.as_str())
}

// ---------------------------------------------------------------------------
// Paths
// ---------------------------------------------------------------------------

/// What is wrong with a path that was asked for.
pub open spec fn path_trouble(requested: Seq<char>) -> Option<Seq<char>> {
    if requested.len() > 0 && requested[0] == '/' {
        Some("workspace paths must be relative"@)
    } else if split_on(requested, '/').contains(".."@) {
        Some("workspace paths cannot contain '..'"@)
    } else {
        None
    }
}

/// Whether an absolute path is the root or lies below it.
pub open spec fn within(root: Seq<char>, path: Seq<char>) -> bool {
    path == root || begins(path, below(root, Seq::empty()))
}

/// A path relative to the root, where it lies there.
pub open spec fn relative_path(root: Seq<char>, path: Seq<char>) -> Seq<char> {
    if path == root {
        Seq::empty()
    } else if begins(path, below(root, Seq::empty())) {
        path.skip(below(root, Seq::empty()).len() as int)
    } else {
        path
    }
}

/// What stands at a path: its real path, or what is known of a path where nothing stands.
#[derive(Debug, PartialEq, Eq)]
pub enum PathFound {
    Present(Result<String, String>),
    /// The real path of the parent, where there is one, and the last name, where there is one.
    Missing { parent: Option<Result<String, String>>, name: Option<String> },
}

/// The real path for what was asked for, before it is known to lie in the workspace.
pub open spec fn located(requested: Seq<char>, found: PathFound, allow_missing: bool) -> Result<
    Seq<char>,
    Seq<char>,
> {
    match found {
        PathFound::Present(Ok(path)) => Ok(path@),
        PathFound::Present(Err(message)) => Err(
            "cannot resolve '"@ + requested + ("': "@ + message@),
        ),
        PathFound::Missing { parent, name } => if !allow_missing {
            Err("path does not exist: "@ + requested)
        } else {
            match parent {
                None => Err("workspace path has no parent"@),
                Some(Err(message)) => Err(
                    "cannot resolve parent of '"@ + requested + ("': "@ + message@),
                ),
                Some(Ok(parent)) => match name {
                    None => Err("workspace path must name a file or directory"@),
                    Some(name) => Ok(below(parent@, name@)),
                },
            }
        },
    }
}

/// The real path for what was asked for.
pub open spec fn resolved(
    root: Seq<char>,
    requested: Seq<char>,
    found: PathFound,
    allow_missing: bool,
) -> Result<Seq<char>, Seq<char>> {
    match path_trouble(requested) {
        Some(message) => Err(message),
        None => match located(requested, found, allow_missing) {
            Err(message) => Err(message),
            Ok(path) => if within(root, path) {
                Ok(path)
            } else {
                Err("path escapes the workspace: "@ + requested)
            },
        },
    }
}

/// Checks a path that was asked for.
pub fn check_path(requested: &str) -> (r: Result<(), ToolError>)
    ensures
        match r {
            Ok(_) => path_trouble(requested@) is None,
            Err(error) => path_trouble(requested@) == Some(error@),
        },
{
    let chars = chars_of(requested);
    if chars.len() > 0 && chars[0] == '/' {
        return Err(ToolError::new("workspace paths must be relative"));
    }
    let parts = split(requested, '/');
    let ghost all = split_on(requested@, '/');
    let mut i: usize = 0;
    while i < parts.len()
        invariant
            i <= parts@.len(),
            all == texts(parts@),
            all == split_on(requested@, '/'),
            !(requested@.len() > 0 && requested@[0] == '/'),
            forall|j: int| 0 <= j < i ==> #[trigger] all[j] != ".."@,
        decreases parts@.len() - i,
    {
        assert(all[i as int] == parts@[i as int]@);
        if same_text(parts[i].as_str(), "..") {
            assert(all.contains(".."@));
            return Err(ToolError::new("workspace paths cannot contain '..'"));
        }
        i += 1;
    }
    assert(!all.contains(".."@));
    Ok(())
}

impl Workspace {
    /// The workspace at a path, once its real path is known.
    pub fn new(root: &str, found: Result<String, String>, is_dir: bool) -> (r: Result<
        Self,
        WorkspaceError,
    >)
        ensures
            match r {
                Ok(workspace) => {
                    &&& found matches Ok(path)
                    &&& is_dir
                    &&& workspace@ == path@
                },
                Err(error) => match found {
                    Err(message) => error.message@ == "cannot resolve workspace '"@ + root@ + "': "@
                        + message@,
                    Ok(path) => !is_dir && error.message@ == "workspace is not a directory: "@
                        + path@,
                },
            },
    {
        match found {
            Err(message) => {
                let mut text = "cannot resolve workspace '".to_owned();
                text.push_str(root);
                text.push_str("': ");
                text.push_str(message.as_str());
                Err(WorkspaceError { message: text })
            },
            Ok(path) => {
                if !is_dir {
                    return Err(
                        WorkspaceError {
                            message: labelled("workspace is not a directory: ", path.as_str()),
                        },
                    );
                }
                Ok(Workspace { root: path })
            },
        }
    }

    pub fn root(&self) -> (r: &str)
        ensures
            r@ == self@,
    {
        self.root.as_str()
    }

    /// Where something that was asked for would stand.
    pub fn candidate(&self, requested: &str) -> (r: String)
        ensures
            r@ == below(self@, requested@),
    {
        path_below(self.root.as_str(), requested)
    }

    fn holds(&self, path: &str) -> (r: bool)
        ensures
            r == within(self@, path@),
    {
        let prefix = path_below(self.root.as_str(), "");
        proof {
            reveal_strlit("");
            assert(""@ =~= Seq::<char>::empty());
        }
        same_text(path, self.root.as_str()) || starts_with(path, prefix.as_str())
    }

    /// The real path for what was asked for: it lies in the workspace.
    pub fn resolve(&self, requested: &str, found: PathFound, allow_missing: bool) -> (r: Result<
        String,
        ToolError,
    >)
        ensures
            match r {
                Ok(path) => resolved(self@, requested@, found, allow_missing) == Ok::<
                    Seq<char>,
                    Seq<char>,
                >(path@),
                Err(error) => resolved(self@, requested@, found, allow_missing) == Err::<
                    Seq<char>,
                    Seq<char>,
                >(error@),
            },
    {
        match check_path(requested) {
            Err(error) => return Err(error),
            Ok(_) => {},
        }
        let path = match found {
            PathFound::Present(Ok(path)) => path,
            PathFound::Present(Err(message)) => {
                return Err(
                    tell(
                        "cannot resolve '",
                        requested,
                        labelled("': ", message.as_str()).as_str(),
                    ),
                );
            },
            PathFound::Missing { parent, name } => {
                if !allow_missing {
                    return Err(
                        ToolError::new(labelled("path does not exist: ", requested).as_str()),
                    );
                }
                let parent = match parent {
                    None => return Err(ToolError::new("workspace path has no parent")),
                    Some(Err(message)) => {
                        return Err(
                            tell(
                                "cannot resolve parent of '",
                                requested,
                                labelled("': ", message.as_str()).as_str(),
                            ),
                        );
                    },
                    Some(Ok(parent)) => parent,
                };
                match name {
                    None => {
                        return Err(
                            ToolError::new("workspace path must name a file or directory"),
                        );
                    },
                    Some(name) => path_below(parent.as_str(), name.as_str()),
                }
            },
        };
        if !self.holds(path.as_str()) {
            return Err(
                ToolError::new(labelled("path escapes the workspace: ", requested).as_str()),
            );
        }
        Ok(path)
    }

    /// A path relative to the root, where it lies there.
    pub fn relative(&self, path: &str) -> (r: String)
        ensures
            r@ == relative_path(self@, path@),
    {
        proof {
            reveal_strlit("");
            assert(""@ =~= Seq::<char>::empty());
        }
        if same_text(path, self.root.as_str()) {
            return "".to_owned();
        }
        let prefix = path_below(self.root.as_str(), "");
        if starts_with(path, prefix.as_str()) {
            let chars = chars_of(path);
            let front = chars_of(prefix.as_str());
            let r = substring(&chars, front.len(), chars.len());
            assert(r@ =~= path@.skip(prefix@.len() as int));
            return r;
        }
        path.to_owned()
    }
}

/// Whatever was asked for and whatever stands there, a resolved path lies in the workspace.
pub proof fn law_resolved_paths_stay_in_the_workspace(
    root: Seq<char>,
    requested: Seq<char>,
    found: PathFound,
    allow_missing: bool,
)
    requires
        resolved(root, requested, found, allow_missing) is Ok,
    ensures
        within(root, resolved(root, requested, found, allow_missing)->Ok_0),
        path_trouble(requested) is None,
{
}

// ---------------------------------------------------------------------------
// Directories and files
// ---------------------------------------------------------------------------

/// What is known of an entry of a directory.
#[derive(Debug, PartialEq, Eq)]
pub struct WorkspaceEntry {
    /// The last name of the path, where it is text.
    pub name: Option<String>,
    pub path: String,
    pub is_symlink: bool,
    pub is_dir: bool,
    pub is_file: bool,
    /// The size in bytes, where it could be found out.
    pub size: Option<u64>,
}

/// Whether a directory with this name is passed over.
pub open spec fn ignored(name: Option<String>) -> bool {
    name matches Some(name) && (name@ == ".git"@ || name@ == "target"@ || name@ == ".arvm"@)
}

fn is_ignored_directory_name(name: &Option<String>) -> (r: bool)
    ensures
        r == ignored(*name),
{
    match name {
        None => false,
        Some(name) => same_text(name.as_str(), ".git") || same_text(name.as_str(), "target")
            || same_text(name.as_str(), ".arvm"),
    }
}

/// The lines that list the first `n` entries.
pub open spec fn listed(root: Seq<char>, entries: Seq<WorkspaceEntry>, n: int) -> Seq<Seq<char>>
    decreases n,
{
    if n <= 0 {
        Seq::empty()
    } else {
        let before = listed(root, entries, n - 1);
        let entry = entries[n - 1];
        if entry.is_symlink || ignored(entry.name) {
            before
        } else {
            before.push(
                (if entry.is_dir {
                    "dir "@
                } else {
                    "file "@
                }) + relative_path(root, entry.path@),
            )
        }
    }
}

/// Whether `shown` gives the lines in order, one below the other.
pub open spec fn shows(shown: Seq<char>, lines: Seq<Seq<char>>) -> bool {
    exists|ordered: Seq<Seq<char>>|
        in_text_order(ordered) && ordered.to_multiset() == lines.to_multiset() && shown
            == #[trigger] joined(ordered, "\n"@)
}

/// What a search does with an entry.
#[derive(Debug, Clone, Copy, PartialEq, Eq)]
pub enum SearchStep {
    Skip,
    Descend,
    Read,
}

/// What a search does with an entry.
pub open spec fn step_for(entry: WorkspaceEntry) -> SearchStep {
    if entry.is_symlink {
        SearchStep::Skip
    } else if entry.is_dir {
        if ignored(entry.name) {
            SearchStep::Skip
        } else {
            SearchStep::Descend
        }
    } else if entry.is_file && (entry.size matches Some(size) && size <= MAX_FILE_BYTES) {
        SearchStep::Read
    } else {
        SearchStep::Skip
    }
}

/// What a search does with an entry.
pub fn search_step(entry: &WorkspaceEntry) -> (r: SearchStep)
    ensures
        r == step_for(*entry),
{
    if entry.is_symlink {
        return SearchStep::Skip;
    }
    if entry.is_dir {
        if is_ignored_directory_name(&entry.name) {
            return SearchStep::Skip;
        }
        return SearchStep::Descend;
    }
    match entry.size {
        Some(size) => if entry.is_file && size <= MAX_FILE_BYTES as u64 {
            SearchStep::Read
        } else {
            SearchStep::Skip
        },
        None => SearchStep::Skip,
    }
}

/// The matches with those in the first `n` lines of a file.
pub open spec fn matched(
    found: Seq<Seq<char>>,
    place: Seq<char>,
    lines: Seq<Seq<char>>,
    pattern: Seq<char>,
    n: int,
) -> Seq<Seq<char>>
    decreases n,
{
    if n <= 0 {
        found
    } else {
        let before = matched(found, place, lines, pattern, n - 1);
        let line = lines[n - 1];
        if before.len() < MAX_SEARCH_RESULTS && holds_text(line, pattern) {
            before.push(place + ":"@ + decimal(n as nat) + ":"@ + line)
        } else {
            before
        }
    }
}

/// The answer to a search.
pub open spec fn search_answer(found: Seq<Seq<char>>) -> Seq<char> {
    if found.len() == 0 {
        "(no matches)"@
    } else {
        joined(found, "\n"@)
    }
}

/// The answer to a search.
pub fn search_text(found: &Vec<String>) -> (r: String)
    ensures
        r@ == search_answer(texts(found@)),
{
    if found.len() == 0 {
        "(no matches)".to_owned()
    } else {
        join(found, "\n")
    }
}

impl Workspace {
    /// The entries of a directory, one in each line.
    pub fn list_text(&self, entries: &Vec<WorkspaceEntry>) -> (r: String)
        ensures
            ({
                let lines = listed(self@, entries@, entries@.len() as int);
                if lines.len() == 0 {
                    r@ == "(empty)"@
                } else {
                    shows(r@, lines)
                }
            }),
    {
        let ghost all = entries@;
        let mut lines: Vec<String> = Vec::new();
        let mut n: usize = 0;
        assert(texts(lines@) =~= listed(self@, all, 0));
        while n < entries.len()
            invariant
                n <= entries@.len(),
                all == entries@,
                texts(lines@) == listed(self@, all, n as int),
            decreases entries@.len() - n,
        {
            let entry = &entries[n];
            if !entry.is_symlink && !is_ignored_directory_name(&entry.name) {
                let mut line = if entry.is_dir {
                    "dir ".to_owned()
                } else {
                    "file ".to_owned()
                };
                line.push_str(self.relative(entry.path.as_str()).as_str());
                let ghost before = lines@;
                lines.push(line);
                assert(texts(lines@) =~= texts(before).push(line@));
            }
            n += 1;
        }
        assert(texts(lines@).len() == lines@.len());
        if lines.len() == 0 {
            return "(empty)".to_owned();
        }
        let ordered = sort_texts(lines);
        let r = join(&ordered, "\n");
        assert(r@ == joined(texts(ordered@), "\n"@));
        r
    }

    /// Adds the matches in a file, as far as there is room for them.
    pub fn search_file(&self, path: &str, contents: &str, pattern: &str, found: &mut Vec<String>)
        ensures
            ({
                let lines = lines_of(contents@);
                texts(final(found)@) == matched(
                    texts(old(found)@),
                    relative_path(self@, path@),
                    lines,
                    pattern@,
                    lines.len() as int,
                )
            }),
    {
        let place = self.relative(path);
        let all = lines(contents);
        let ghost lines = lines_of(contents@);
        let ghost before = texts(found@);
        let mut n: usize = 0;
        while n < all.len()
            invariant
                n <= all@.len(),
                lines == texts(all@),
                lines == lines_of(contents@),
                before == texts(old(found)@),
                place@ == relative_path(self@, path@),
                texts(found@) == matched(before, place@, lines, pattern@, n as int),
            decreases all@.len() - n,
        {
            assert(lines[n as int] == all@[n as int]@);
            assert(texts(found@).len() == found@.len());
            if found.len() < MAX_SEARCH_RESULTS && contains_text(all[n].as_str(), pattern) {
                let mut line = place.clone();
                line.push_str(":");
                line.push_str(size_text(n + 1).as_str());
                line.push_str(":");
                line.push_str(all[n].as_str());
                let ghost sofar = found@;
                found.push(line);
                assert(texts(found@) =~= texts(sofar).push(line@));
            }
            n += 1;
        }
        assert(texts(all@).len() == all@.len());
    }
}

/// A search never finds more than its bound, and keeps what it has found.
pub proof fn law_searches_are_bounded(
    found: Seq<Seq<char>>,
    place: Seq<char>,
    lines: Seq<Seq<char>>,
    pattern: Seq<char>,
    n: int,
)
    requires
        found.len() <= MAX_SEARCH_RESULTS,
    ensures
        matched(found, place, lines, pattern, n).len() <= MAX_SEARCH_RESULTS,
        matched(found, place, lines, pattern, n).len() >= found.len(),
        matched(found, place, lines, pattern, n).take(found.len() as int) == found,
    decreases n,
{
    if n > 0 {
        law_searches_are_bounded(found, place, lines, pattern, n - 1);
        let before = matched(found, place, lines, pattern, n - 1);
        let after = matched(found, place, lines, pattern, n);
        assert(after.take(found.len() as int) =~= before.take(found.len() as int));
    } else {
        assert(found.take(found.len() as int) =~= found);
    }
}

/// Checks that something that was asked for is a directory.
pub fn check_directory(requested: &str, is_dir: bool) -> (r: Result<(), ToolError>)
    ensures
        match r {
            Ok(_) => is_dir,
            Err(error) => !is_dir && error@ == "not a directory: "@ + requested@,
        },
{
    if is_dir {
        Ok(())
    } else {
        Err(ToolError::new(labelled("not a directory: ", requested).as_str()))
    }
}

/// Why a file is not read.
pub open spec fn read_trouble(requested: Seq<char>, is_file: bool, size: int) -> Option<
    Seq<char>,
> {
    if !is_file {
        Some("not a file: "@ + requested)
    } else if size > MAX_FILE_BYTES {
        Some("file exceeds the "@ + decimal(MAX_FILE_BYTES as nat) + " byte limit: "@ + requested)
    } else {
        None
    }
}

/// Checks that something that was asked for is a file of a bounded size.
pub fn check_file(requested: &str, is_file: bool, size: u64) -> (r: Result<(), ToolError>)
    ensures
        match r {
            Ok(_) => read_trouble(requested@, is_file, size as int) is None,
            Err(error) => read_trouble(requested@, is_file, size as int) == Some(error@),
        },
{
    if !is_file {
        return Err(ToolError::new(labelled("not a file: ", requested).as_str()));
    }
    if size > MAX_FILE_BYTES as u64 {
        let mut text = "file exceeds the ".to_owned();
        text.push_str(size_text(MAX_FILE_BYTES).as_str());
        text.push_str(" byte limit: ");
        text.push_str(requested);
        return Err(ToolError::new(text.as_str()));
    }
    Ok(())
}

/// The text of a file.
pub fn file_text(requested: &str, bytes: &[u8]) -> (r: Result<String, ToolError>)
    ensures
        match r {
            Ok(text) => valid_utf8(bytes@) && text@ == decode_utf8(bytes@),
            Err(error) => !valid_utf8(bytes@) && error@ == "file is not valid UTF-8: "@
                + requested@,
        },
{
    match utf8_text(bytes) {
        Some(text) => Ok(text),
        None => Err(ToolError::new(labelled("file is not valid UTF-8: ", requested).as_str())),
    }
}

/// What is said of a file that was written.
pub open spec fn written_text(requested: Seq<char>, content: Seq<char>) -> Seq<char> {
    "wrote "@ + decimal(byte_len(content)) + " bytes to "@ + requested
}

/// Whether a file can be written at a path, and what is said once it has been.
pub fn write_answer(requested: &str, content: &str, is_dir: bool) -> (r: Result<String, ToolError>)
    ensures
        match r {
            Ok(text) => !is_dir && text@ == written_text(requested@, content@),
            Err(error) => is_dir && error@ == "cannot write a directory: "@ + requested@,
        },
{
    if is_dir {
        return Err(ToolError::new(labelled("cannot write a directory: ", requested).as_str()));
    }
    let mut text = "wrote ".to_owned();
    text.push_str(size_text(byte_count(content)).as_str());
    text.push_str(" bytes to ");
    text.push_str(requested);
    Ok(text)
}

// ---------------------------------------------------------------------------
// Commands
// ---------------------------------------------------------------------------

/// A command with its separators as spaces.
pub open spec fn parted(command: Seq<char>) -> Seq<char> {
    Seq::new(
        command.len(),
        |i: int|
            if command[i] == ';' || command[i] == '&' || command[i] == '|' {
                ' '
            } else {
                command[i]
            },
    )
}

/// The words of a command, in lower case.
pub open spec fn command_words(command: Seq<char>) -> Seq<Seq<char>> {
    words_of(parted(lower_text(command)))
}

/// What stands behind the last slash of a word.
pub open spec fn last_name(word: Seq<char>) -> Seq<char> {
    match find_last(word, '/') {
        Some(i) => word.skip(i + 1),
        None => word,
    }
}

/// Whether a word names a program that stops the machine or formats a disk.
pub open spec fn names_stopper(word: Seq<char>) -> bool {
    let name = last_name(word);
    name == "shutdown"@ || name == "reboot"@ || name == "halt"@ || name == "poweroff"@ || name
        == "mkfs"@
}

/// Whether a word is a bundle of flags that removes recursively.
pub open spec fn removes_recursively(word: Seq<char>) -> bool {
    &&& word.len() > 0
    &&& word[0] == '-'
    &&& word.contains('r')
    &&& forall|i: int| 1 <= i < word.len() ==> "rfRxivfp"@.contains(#[trigger] word[i])
}

/// Whether a word stands for the root or the home directory.
pub open spec fn names_root(word: Seq<char>) -> bool {
    word == "/"@ || word == "/*"@ || word == "/."@ || word == "~"@ || word == "~/*"@ || word
        == "$home"@ || word == "$home/*"@
}

/// Whether a command is refused: a fork bomb, a program that stops the machine or formats a disk,
/// a raw write to a device, or the recursive removal of the root or the home directory.
pub open spec fn dangerous(command: Seq<char>) -> bool {
    let all = command_words(command);
    ||| holds_text(joined(words_of(lower_text(command)), ""@), ":(){:|:&};:"@)
    ||| exists|i: int| 0 <= i < all.len() && names_stopper(#[trigger] all[i])
    ||| all.contains("dd"@) && exists|i: int|
        0 <= i < all.len() && begins(#[trigger] all[i], "of=/dev/"@)
    ||| all.contains("rm"@) && (exists|i: int|
        0 <= i < all.len() && removes_recursively(#[trigger] all[i])) && exists|i: int|
        0 <= i < all.len() && names_root(#[trigger] all[i])
}

fn part(command: &str) -> (r: String)
    ensures
        r@ == parted(command@),
{
    let chars = chars_of(command);
    let mut r = String::new();
    let mut i: usize = 0;
    while i < chars.len()
        invariant
            i <= chars@.len(),
            chars@ == command@,
            r@ == parted(command@).take(i as int),
        decreases chars@.len() - i,
    {
        let c = if chars[i] == ';' || chars[i] == '&' || chars[i] == '|' {
            ' '
        } else {
            chars[i]
        };
        r.push(c);
        assert(parted(command@).take(i + 1) =~= parted(command@).take(i as int).push(c));
        i += 1;
    }
    assert(parted(command@).take(i as int) =~= parted(command@));
    r
}

fn is_stopper(word: &str) -> (r: bool)
    ensures
        r == names_stopper(word@),
{
    let name = match after_last(word, '/') {
        Some(name) => name,
        None => word.to_owned(),
    };
    same_text(name.as_str(), "shutdown") || same_text(name.as_str(), "reboot") || same_text(
        name.as_str(),
        "halt",
    ) || same_text(name.as_str(), "poweroff") || same_text(name.as_str(), "mkfs")
}

fn is_recursive_removal(word: &str) -> (r: bool)
    ensures
        r == removes_recursively(word@),
{
    let chars = chars_of(word);
    if chars.len() == 0 || chars[0] != '-' || !contains_char(word, 'r') {
        return false;
    }
    let flags = chars_of("rfRxivfp");
    let mut i: usize = 1;
    while i < chars.len()
        invariant
            1 <= i <= chars@.len(),
            chars@ == word@,
            flags@ == "rfRxivfp"@,
            forall|j: int| 1 <= j < i ==> "rfRxivfp"@.contains(#[trigger] word@[j]),
        decreases chars@.len() - i,
    {
        let mut known = false;
        let mut k: usize = 0;
        while k < flags.len()
            invariant
                k <= flags@.len(),
                i < chars@.len(),
                known == exists|x: int| 0 <= x < k && #[trigger] flags@[x] == chars@[i as int],
            decreases flags@.len() - k,
        {
            if flags[k] == chars[i] {
                known = true;
            }
            k += 1;
        }
        assert(known == flags@.contains(chars@[i as int]));
        if !known {
            assert(!"rfRxivfp"@.contains(word@[i as int]));
            return false;
        }
        i += 1;
    }
    true
}

fn is_root(word: &str) -> (r: bool)
    ensures
        r == names_root(word@),
{
    same_text(word, "/") || same_text(word, "/*") || same_text(word, "/.") || same_text(word, "~")
        || same_text(word, "~/*") || same_text(word, "$home") || same_text(word, "$home/*")
}

/// Refuses a command that is dangerous.
pub fn reject_dangerous_command(command: &str) -> (r: Result<(), ToolError>)
    ensures
        match r {
            Ok(_) => !dangerous(command@),
            Err(error) => dangerous(command@) && error@ == "refusing dangerous command '"@
                + command@ + "'"@,
        },
{
    let lower = ascii_lower(command);
    let squeezed = join(&words(lower.as_str()), "");
    if contains_text(squeezed.as_str(), ":(){:|:&};:") {
        return Err(tell("refusing dangerous command '", command, "'"));
    }
    let all = words(part(lower.as_str()).as_str());
    let ghost named = command_words(command@);
    assert(texts(all@) == named);
    let mut stopper = false;
    let mut copies = false;
    let mut device = false;
    let mut removes = false;
    let mut recursive = false;
    let mut root = false;
    let mut i: usize = 0;
    while i < all.len()
        invariant
            i <= all@.len(),
            named == texts(all@),
            stopper == exists|j: int| 0 <= j < i && names_stopper(#[trigger] named[j]),
            copies == exists|j: int| 0 <= j < i && #[trigger] named[j] == "dd"@,
            device == exists|j: int| 0 <= j < i && begins(#[trigger] named[j], "of=/dev/"@),
            removes == exists|j: int| 0 <= j < i && #[trigger] named[j] == "rm"@,
            recursive == exists|j: int| 0 <= j < i && removes_recursively(#[trigger] named[j]),
            root == exists|j: int| 0 <= j < i && names_root(#[trigger] named[j]),
        decreases all@.len() - i,
    {
        let word = all[i].as_str();
        assert(named[i as int] == word@);
        if is_stopper(word) {
            stopper = true;
        }
        if same_text(word, "dd") {
            copies = true;
        }
        if starts_with(word, "of=/dev/") {
            device = true;
        }
        if same_text(word, "rm") {
            removes = true;
        }
        if is_recursive_removal(word) {
            recursive = true;
        }
        if is_root(word) {
            root = true;
        }
        i += 1;
    }
    assert(named.len() == all@.len());
    assert(copies == named.contains("dd"@));
    assert(removes == named.contains("rm"@));
    if stopper || (copies && device) || (removes && recursive && root) {
        return Err(tell("refusing dangerous command '", command, "'"));
    }
    Ok(())
}

/// What a stream of a command says, as far as it is kept.
pub open spec fn kept_output(bytes: Seq<u8>) -> Seq<char> {
    if bytes.len() > MAX_COMMAND_OUTPUT_BYTES {
        lossy(bytes.take(MAX_COMMAND_OUTPUT_BYTES as int)) + "\n[output truncated]"@
    } else {
        lossy(bytes)
    }
}

fn bounded_text(bytes: &[u8]) -> (r: String)
    ensures
        r@ == kept_output(bytes@),
{
    if bytes.len() > MAX_COMMAND_OUTPUT_BYTES {
        let kept = slice_subrange(bytes, 0, MAX_COMMAND_OUTPUT_BYTES);
        assert(kept@ =~= bytes@.take(MAX_COMMAND_OUTPUT_BYTES as int));
        let mut text = lossy_text(kept);
        text.push_str("\n[output truncated]");
        text
    } else {
        lossy_text(bytes)
    }
}

/// What a command said and how it ended, given what is kept of its two streams.
pub open spec fn output_text(
    stdout: Option<Seq<char>>,
    stderr: Option<Seq<char>>,
    code: Option<i32>,
) -> Seq<char> {
    let said = match (stdout, stderr) {
        (None, None) => "(no output)\n"@,
        (Some(stdout), None) => "stdout:\n"@ + stdout,
        (None, Some(stderr)) => "stderr:\n"@ + stderr,
        (Some(stdout), Some(stderr)) => "stdout:\n"@ + stdout + "\n"@ + "stderr:\n"@ + stderr,
    };
    said + "exit_code="@ + signed_decimal(
        match code {
            Some(code) => code as int,
            None => -1,
        },
    )
}

/// What is kept of a stream, where it says anything.
pub open spec fn stream(bytes: Seq<u8>) -> Option<Seq<char>> {
    if bytes.len() == 0 {
        None
    } else {
        Some(kept_output(bytes))
    }
}

/// What a command said and how it ended, given what is kept of its two streams.
pub fn describe_output(stdout: Option<String>, stderr: Option<String>, code: Option<i32>) -> (r:
    String)
    ensures
        r@ == output_text(
            match stdout {
                Some(text) => Some(text@),
                None => None,
            },
            match stderr {
                Some(text) => Some(text@),
                None => None,
            },
            code,
        ),
{
    let mut content = match (stdout, stderr) {
        (None, None) => "(no output)\n".to_owned(),
        (Some(stdout), None) => labelled("stdout:\n", stdout.as_str()),
        (None, Some(stderr)) => labelled("stderr:\n", stderr.as_str()),
        (Some(stdout), Some(stderr)) => {
            let mut content = labelled("stdout:\n", stdout.as_str());
            content.push_str("\n");
            content.push_str("stderr:\n");
            content.push_str(stderr.as_str());
            content
        },
    };
    content.push_str("exit_code=");
    let number: i64 = match code {
        Some(code) => code as i64,
        None => -1,
    };
    content.push_str(signed_text(number).as_str());
    content
}

/// What a command said and how it ended.
pub fn format_command_output(stdout: &[u8], stderr: &[u8], code: Option<i32>) -> (r: String)
    ensures
        r@ == output_text(stream(stdout@), stream(stderr@), code),
{
    let out = if stdout.len() == 0 {
        None
    } else {
        Some(bounded_text(stdout))
    };
    let err = if stderr.len() == 0 {
        None
    } else {
        Some(bounded_text(stderr))
    };
    describe_output(out, err, code)
}

// ---------------------------------------------------------------------------
// Tools
// ---------------------------------------------------------------------------

/// What a call of a workspace tool asks for.
#[derive(Debug, PartialEq, Eq)]
pub enum WorkspaceAction {
    List { path: String },
    Read { path: String },
    Search { pattern: String, path: String },
    Write { path: String, content: String },
    Run { command: String },
}

/// What a [`WorkspaceAction`] says.
#[verifier::ext_equal]
pub enum ActionModel {
    List { path: Seq<char> },
    Read { path: Seq<char> },
    Search { pattern: Seq<char>, path: Seq<char> },
    Write { path: Seq<char>, content: Seq<char> },
    Run { command: Seq<char> },
}

impl View for WorkspaceAction {
    type V = ActionModel;

    open spec fn view(&self) -> ActionModel {
        match self {
            WorkspaceAction::List { path } => ActionModel::List { path: path@ },
            WorkspaceAction::Read { path } => ActionModel::Read { path: path@ },
            WorkspaceAction::Search { pattern, path } => ActionModel::Search {
                pattern: pattern@,
                path: path@,
            },
            WorkspaceAction::Write { path, content } => ActionModel::Write {
                path: path@,
                content: content@,
            },
            WorkspaceAction::Run { command } => ActionModel::Run { command: command@ },
        }
    }
}

/// A text argument, or what stands for it where it is not given.
pub open spec fn text_or(arguments: Arguments, name: Seq<char>, other: Seq<char>) -> Seq<char> {
    match maybe_text(arguments, name) {
        Some(text) => text,
        None => other,
    }
}

fn optional_text_or(arguments: &ToolArguments, name: &str, other: &str) -> (r: String)
    ensures
        r@ == text_or(arguments_model(arguments@), name@, other@),
{
    match optional_text(arguments, name) {
        Some(text) => text,
        None => other.to_owned(),
    }
}

pub open spec fn list_plan(arguments: Arguments) -> Result<ActionModel, Seq<char>> {
    match names_trouble(arguments, seq!["path"@]) {
        Some(message) => Err(message),
        None => Ok(ActionModel::List { path: text_or(arguments, "path"@, "."@) }),
    }
}

pub open spec fn read_plan(arguments: Arguments) -> Result<ActionModel, Seq<char>> {
    match names_trouble(arguments, seq!["path"@]) {
        Some(message) => Err(message),
        None => match text_argument(arguments, "path"@) {
            Err(message) => Err(message),
            Ok(path) => Ok(ActionModel::Read { path }),
        },
    }
}

pub open spec fn search_plan(arguments: Arguments) -> Result<ActionModel, Seq<char>> {
    match names_trouble(arguments, seq!["pattern"@, "path"@]) {
        Some(message) => Err(message),
        None => match text_argument(arguments, "pattern"@) {
            Err(message) => Err(message),
            Ok(pattern) => Ok(
                ActionModel::Search { pattern, path: text_or(arguments, "path"@, "."@) },
            ),
        },
    }
}

pub open spec fn write_plan(arguments: Arguments) -> Result<ActionModel, Seq<char>> {
    match names_trouble(arguments, seq!["path"@, "content"@]) {
        Some(message) => Err(message),
        None => match text_argument(arguments, "path"@) {
            Err(message) => Err(message),
            Ok(path) => match any_text_argument(arguments, "content"@) {
                Err(message) => Err(message),
                Ok(content) => if byte_len(content) > MAX_FILE_BYTES {
                    Err("content exceeds the "@ + decimal(MAX_FILE_BYTES as nat) + " byte limit"@)
                } else {
                    Ok(ActionModel::Write { path, content })
                },
            },
        },
    }
}

pub open spec fn run_plan(arguments: Arguments) -> Result<ActionModel, Seq<char>> {
    match names_trouble(arguments, seq!["command"@]) {
        Some(message) => Err(message),
        None => match text_argument(arguments, "command"@) {
            Err(message) => Err(message),
            Ok(command) => if dangerous(command) {
                Err("refusing dangerous command '"@ + command + "'"@)
            } else {
                Ok(ActionModel::Run { command })
            },
        },
    }
}

/// What a call of a workspace tool asks for.
pub open spec fn planned(name: Seq<char>, arguments: Arguments) -> Result<ActionModel, Seq<char>> {
    if name == "list_files"@ {
        list_plan(arguments)
    } else if name == "read_file"@ {
        read_plan(arguments)
    } else if name == "search_files"@ {
        search_plan(arguments)
    } else if name == "write_file"@ {
        write_plan(arguments)
    } else if name == "run_command"@ {
        run_plan(arguments)
    } else {
        Err("unknown tool: "@ + name)
    }
}

/// What a plan says.
pub open spec fn plan_seen(r: Result<WorkspaceAction, ToolError>) -> Result<
    ActionModel,
    Seq<char>,
> {
    match r {
        Ok(action) => Ok(action@),
        Err(error) => Err(error@),
    }
}

fn plan_list(arguments: &ToolArguments) -> (r: Result<WorkspaceAction, ToolError>)
    ensures
        plan_seen(r) == list_plan(arguments_model(arguments@)),
{
    let allowed = vec!["path"];
    assert(names_in(allowed@) =~= seq!["path"@]);
    match ensure_arguments(arguments, allowed) {
        Err(error) => return Err(error),
        Ok(_) => {},
    }
    Ok(WorkspaceAction::List { path: optional_text_or(arguments, "path", ".") })
}

fn plan_read(arguments: &ToolArguments) -> (r: Result<WorkspaceAction, ToolError>)
    ensures
        plan_seen(r) == read_plan(arguments_model(arguments@)),
{
    let allowed = vec!["path"];
    assert(names_in(allowed@) =~= seq!["path"@]);
    match ensure_arguments(arguments, allowed) {
        Err(error) => return Err(error),
        Ok(_) => {},
    }
    match required_text(arguments, "path") {
        Err(error) => Err(error),
        Ok(path) => Ok(WorkspaceAction::Read { path }),
    }
}

fn plan_search(arguments: &ToolArguments) -> (r: Result<WorkspaceAction, ToolError>)
    ensures
        plan_seen(r) == search_plan(arguments_model(arguments@)),
{
    let allowed = vec!["pattern", "path"];
    assert(names_in(allowed@) =~= seq!["pattern"@, "path"@]);
    match ensure_arguments(arguments, allowed) {
        Err(error) => return Err(error),
        Ok(_) => {},
    }
    match required_text(arguments, "pattern") {
        Err(error) => Err(error),
        Ok(pattern) => Ok(
            WorkspaceAction::Search { pattern, path: optional_text_or(arguments, "path", ".") },
        ),
    }
}

fn plan_write(arguments: &ToolArguments) -> (r: Result<WorkspaceAction, ToolError>)
    ensures
        plan_seen(r) == write_plan(arguments_model(arguments@)),
{
    let allowed = vec!["path", "content"];
    assert(names_in(allowed@) =~= seq!["path"@, "content"@]);
    match ensure_arguments(arguments, allowed) {
        Err(error) => return Err(error),
        Ok(_) => {},
    }
    let path = match required_text(arguments, "path") {
        Err(error) => return Err(error),
        Ok(path) => path,
    };
    let content = match required_text_allow_empty(arguments, "content") {
        Err(error) => return Err(error),
        Ok(content) => content,
    };
    if byte_count(content.as_str()) > MAX_FILE_BYTES {
        return Err(
            tell("content exceeds the ", size_text(MAX_FILE_BYTES).as_str(), " byte limit"),
        );
    }
    Ok(WorkspaceAction::Write { path, content })
}

fn plan_run(arguments: &ToolArguments) -> (r: Result<WorkspaceAction, ToolError>)
    ensures
        plan_seen(r) == run_plan(arguments_model(arguments@)),
{
    let allowed = vec!["command"];
    assert(names_in(allowed@) =~= seq!["command"@]);
    match ensure_arguments(arguments, allowed) {
        Err(error) => return Err(error),
        Ok(_) => {},
    }
    let command = match required_text(arguments, "command") {
        Err(error) => return Err(error),
        Ok(command) => command,
    };
    match reject_dangerous_command(command.as_str()) {
        Err(error) => Err(error),
        Ok(_) => Ok(WorkspaceAction::Run { command }),
    }
}

/// What a call of a workspace tool asks for.
pub fn plan(name: &str, arguments: &ToolArguments) -> (r: Result<WorkspaceAction, ToolError>)
    ensures
        plan_seen(r) == planned(name@, arguments_model(arguments@)),
{
    if same_text(name, "list_files") {
        plan_list(arguments)
    } else if same_text(name, "read_file") {
        plan_read(arguments)
    } else if same_text(name, "search_files") {
        plan_search(arguments)
    } else if same_text(name, "write_file") {
        plan_write(arguments)
    } else if same_text(name, "run_command") {
        plan_run(arguments)
    } else {
        Err(ToolError::new(labelled("unknown tool: ", name).as_str()))
    }
}

/// The permission that a call of a workspace tool needs.
pub open spec fn needed_permission(name: Seq<char>, arguments: Arguments) -> Option<
    RequestedModel,
> {
    if name == "write_file"@ {
        let path = text_or(arguments, "path"@, "<invalid path>"@);
        Some(
            RequestedModel {
                id: "write_file:"@ + path,
                tool: "write_file"@,
                description: "write workspace file '"@ + path + "'"@,
            },
        )
    } else if name == "run_command"@ {
        let command = text_or(arguments, "command"@, "<invalid command>"@);
        Some(
            RequestedModel {
                id: "run_command:"@ + command,
                tool: "run_command"@,
                description: "run command in workspace: "@ + command,
            },
        )
    } else {
        None
    }
}

/// The permission that a call of a workspace tool needs.
pub fn workspace_permission(name: &str, arguments: &ToolArguments) -> (r: Option<
    PermissionRequest,
>)
    ensures
        asked_for(r) == needed_permission(name@, arguments_model(arguments@)),
{
    if same_text(name, "write_file") {
        let path = optional_text_or(arguments, "path", "<invalid path>");
        let mut description = "write workspace file '".to_owned();
        description.push_str(path.as_str());
        description.push_str("'");
        Some(
            PermissionRequest {
                id: labelled("write_file:", path.as_str()),
                tool: "write_file".to_owned(),
                description,
            },
        )
    } else if same_text(name, "run_command") {
        let command = optional_text_or(arguments, "command", "<invalid command>");
        Some(
            PermissionRequest {
                id: labelled("run_command:", command.as_str()),
                tool: "run_command".to_owned(),
                description: labelled("run command in workspace: ", command.as_str()),
            },
        )
    } else {
        None
    }
}

/// A planned write or command always needs a permission, and nothing else does.
pub proof fn law_changes_need_a_permission(name: Seq<char>, arguments: Arguments)
    requires
        planned(name, arguments) is Ok,
    ensures
        needed_permission(name, arguments) is Some <==> (planned(name, arguments)->Ok_0 is Write
            || planned(name, arguments)->Ok_0 is Run),
{
    reveal_strlit("list_files");
    reveal_strlit("read_file");
    reveal_strlit("search_files");
    reveal_strlit("write_file");
    reveal_strlit("run_command");
    assert("list_files"@[0] != "write_file"@[0]);
    assert("list_files"@.len() != "run_command"@.len());
    assert("read_file"@.len() != "write_file"@.len());
    assert("read_file"@.len() != "run_command"@.len());
    assert("search_files"@.len() != "write_file"@.len());
    assert("search_files"@.len() != "run_command"@.len());
}

/// A dangerous command is never planned, whatever stands around it in the call.
pub proof fn law_dangerous_commands_are_not_planned(name: Seq<char>, arguments: Arguments)
    ensures
        planned(name, arguments) matches Ok(ActionModel::Run { command }) ==> !dangerous(command),
{
}

/// The descriptions of the workspace tools.
pub open spec fn workspace_tool_models() -> Seq<SpecModel> {
    seq![
        SpecModel {
            name: "list_files"@,
            description: "List entries in a workspace directory."@,
            input_schema: "{\"type\":\"object\",\"properties\":{\"path\":{\"type\":\"string\"}}}"@,
        },
        SpecModel {
            name: "read_file"@,
            description: "Read a bounded text file from the workspace."@,
            input_schema: "{\"type\":\"object\",\"properties\":{\"path\":{\"type\":\"string\"}},\"required\":[\"path\"]}"@,
        },
        SpecModel {
            name: "search_files"@,
            description: "Search text files below a workspace path."@,
            input_schema: "{\"type\":\"object\",\"properties\":{\"pattern\":{\"type\":\"string\"},\"path\":{\"type\":\"string\"}},\"required\":[\"pattern\"]}"@,
        },
        SpecModel {
            name: "write_file"@,
            description: "Create or replace a UTF-8 text file in the workspace."@,
            input_schema: "{\"type\":\"object\",\"properties\":{\"path\":{\"type\":\"string\"},\"content\":{\"type\":\"string\"}},\"required\":[\"path\",\"content\"]}"@,
        },
        SpecModel {
            name: "run_command"@,
            description: "Run a shell command with the workspace as its working directory."@,
            input_schema: "{\"type\":\"object\",\"properties\":{\"command\":{\"type\":\"string\"}},\"required\":[\"command\"]}"@,
        },
    ]
}

/// The descriptions of the workspace tools.
pub fn workspace_tool_specs() -> (r: Vec<ToolSpec>)
    ensures
        spec_models(r@) == workspace_tool_models(),
{
    let r = vec![
        ToolSpec::new(
            "list_files",
            "List entries in a workspace directory.",
            "{\"type\":\"object\",\"properties\":{\"path\":{\"type\":\"string\"}}}",
        ),
        ToolSpec::new(
            "read_file",
            "Read a bounded text file from the workspace.",
            "{\"type\":\"object\",\"properties\":{\"path\":{\"type\":\"string\"}},\"required\":[\"path\"]}",
        ),
        ToolSpec::new(
            "search_files",
            "Search text files below a workspace path.",
            "{\"type\":\"object\",\"properties\":{\"pattern\":{\"type\":\"string\"},\"path\":{\"type\":\"string\"}},\"required\":[\"pattern\"]}",
        ),
        ToolSpec::new(
            "write_file",
            "Create or replace a UTF-8 text file in the workspace.",
            "{\"type\":\"object\",\"properties\":{\"path\":{\"type\":\"string\"},\"content\":{\"type\":\"string\"}},\"required\":[\"path\",\"content\"]}",
        ),
        ToolSpec::new(
            "run_command",
            "Run a shell command with the workspace as its working directory.",
            "{\"type\":\"object\",\"properties\":{\"command\":{\"type\":\"string\"}},\"required\":[\"command\"]}",
        ),
    ];
    assert(spec_models(r@) =~= workspace_tool_models());
    r
}

proof fn lemma_workspace_tool_names()
    ensures
        forall|i: int, j: int|
            0 <= i < j < workspace_tool_models().len() ==> (
            #[trigger] workspace_tool_models()[i]).name != (
            #[trigger] workspace_tool_models()[j]).name,
{
    reveal_strlit("list_files");
    reveal_strlit("read_file");
    reveal_strlit("search_files");
    reveal_strlit("write_file");
    reveal_strlit("run_command");
    let names = workspace_tool_models();
    assert(names[0].name.len() == 10);
    assert(names[1].name.len() == 9);
    assert(names[2].name.len() == 12);
    assert(names[3].name.len() == 10);
    assert(names[4].name.len() == 11);
    assert(names[0].name[0] == 'l');
    assert(names[1].name[0] == 'r');
    assert(names[2].name[0] == 's');
    assert(names[3].name[0] == 'w');
    assert(names[4].name[0] == 'r');
}

/// Register the safe read, write, search, and command tools for a workspace, carried out by
/// `workspace`.
pub fn workspace_tool_registry<T: Toolbox + 'static>(workspace: T) -> (r: Result<
    ToolRegistry,
    ToolError,
>)
    ensures
        r matches Ok(registry) && {
            &&& registry@ == with_tools(Seq::empty(), workspace_tool_models(), 5)
            &&& kept_at(registry, workspace_tool_models(), 0)
            &&& one_more(Seq::empty(), registry.held(), Box::new(workspace))
        },
{
    proof {
        lemma_workspace_tool_names();
        law_new_names_are_registered(Seq::empty(), workspace_tool_models(), 0);
    }
    let mut registry = ToolRegistry::new();
    let specs = workspace_tool_specs();
    let ghost described = specs@;
    match registry.register_all(specs, workspace) {
        Err(error) => Err(error),
        Ok(_) => {
            proof {
                lemma_kept_at(registry, described, 0);
            }
            Ok(registry)
        },
    }
}

/// Register both VM and workspace tools for the coding agent.
pub fn coding_tool_registry<T: Toolbox + 'static>(workspace: T) -> (r: Result<
    ToolRegistry,
    ToolError,
>)
    ensures
        ({
            let ours = with_tools(Seq::empty(), vm_tool_models(), 7);
            let others = with_tools(Seq::empty(), workspace_tool_models(), 5);
            r matches Ok(registry) && {
                &&& registry@ == merged(ours, others, others.len() as int)
                &&& kept_at(registry, vm_tool_models(), 0)
                &&& kept_at(registry, workspace_tool_models(), 1)
                &&& exists|own: VmTools|
                    just_two(registry.held(), Box::new(own), Box::new(workspace))
                        && #[trigger] own@ == idle_tools()
            }
        }),
{
    proof {
        lemma_coding_registries_are_apart();
    }
    let mut registry = match vm_tool_registry() {
        Err(error) => return Err(error),
        Ok(registry) => registry,
    };
    let others = match workspace_tool_registry(workspace) {
        Err(error) => return Err(error),
        Ok(others) => others,
    };
    let ghost ours = registry;
    let ghost theirs = others;
    match registry.merge(others) {
        Err(error) => Err(error),
        Ok(_) => {
            proof {
                lemma_kept_in_merges(registry, ours, vm_tool_models(), 0, 0);
                lemma_kept_in_merges(registry, theirs, workspace_tool_models(), 0, 1);
            }
            Ok(registry)
        },
    }
}

proof fn lemma_coding_registries_are_apart()
    ensures
        first_shared(
            with_tools(Seq::empty(), vm_tool_models(), 7),
            with_tools(Seq::empty(), workspace_tool_models(), 5),
            0,
        ) is None,
{
    let ours = with_tools(Seq::empty(), vm_tool_models(), 7);
    let others = with_tools(Seq::empty(), workspace_tool_models(), 5);
    reveal_strlit("list_files");
    reveal_strlit("read_file");
    reveal_strlit("search_files");
    reveal_strlit("write_file");
    reveal_strlit("run_command");
    reveal_strlit("compile_program");
    reveal_strlit("trace_program");
    reveal_strlit("run_program");
    reveal_strlit("step_vm");
    reveal_strlit("inspect_vm");
    reveal_strlit("disassemble_program");
    reveal_strlit("reset_vm");
    let names = workspace_tool_models();
    assert(names[0].name.len() == 10);
    assert(names[1].name.len() == 9);
    assert(names[2].name.len() == 12);
    assert(names[3].name.len() == 10);
    assert(names[4].name.len() == 11);
    assert(names[0].name[0] == 'l');
    assert(names[1].name[0] == 'r');
    assert(names[2].name[0] == 's');
    assert(names[3].name[0] == 'w');
    assert(names[4].name[0] == 'r');
    lemma_with_tools(Seq::empty(), workspace_tool_models(), 5, Seq::empty());
    assert forall|name: Seq<char>| registered(others, name) implies !#[trigger] registered(
        ours,
        name,
    ) by {
        lemma_with_tools(Seq::empty(), workspace_tool_models(), 5, name);
        lemma_with_tools(Seq::empty(), vm_tool_models(), 7, name);
        let k = choose|k: int| 0 <= k < 5 && (#[trigger] workspace_tool_models()[k]).name == name;
        let vm = vm_tool_models();
        assert(vm[0].name.len() == 15);
        assert(vm[1].name.len() == 13);
        assert(vm[2].name[4] == 'p');
        assert(names[4].name[4] == 'c');
        assert(vm[3].name.len() == 7);
        assert(vm[4].name[0] == 'i');
        assert(vm[5].name.len() == 19);
        assert(vm[6].name.len() == 8);
    }
    law_tools_with_other_names_can_be_merged(ours, others, 0);
}

// ---------------------------------------------------------------------------
// What the tools do
// ---------------------------------------------------------------------------

/// Whether `at` lists the indices below `n` for which `holds` is true, in their order.
pub open spec fn picks(at: Seq<int>, n: int, holds: spec_fn(int) -> bool) -> bool {
    &&& forall|j: int| 0 <= j < at.len() ==> 0 <= #[trigger] at[j] < n && holds(at[j])
    &&& forall|j: int, k: int| 0 <= j < k < at.len() ==> #[trigger] at[j] < #[trigger] at[k]
    &&& forall|i: int| 0 <= i < n && #[trigger] holds(i) ==> at.contains(i)
}

proof fn lemma_picks_last(at: Seq<int>, n: int, holds: spec_fn(int) -> bool)
    requires
        0 < n,
        picks(at, n, holds),
    ensures
        holds(n - 1) ==> at.len() > 0 && at.last() == n - 1 && picks(at.drop_last(), n - 1, holds),
        !holds(n - 1) ==> picks(at, n - 1, holds),
{
    if holds(n - 1) {
        let j = choose|j: int| 0 <= j < at.len() && at[j] == n - 1;
        assert(at[j] == n - 1);
        if j < at.len() - 1 {
            assert(at[j] < at[at.len() - 1]);
        }
        let front = at.drop_last();
        assert forall|i: int| 0 <= i < n - 1 && #[trigger] holds(i) implies front.contains(i) by {
            let k = choose|k: int| 0 <= k < at.len() && at[k] == i;
            assert(at[k] == i);
            assert(front[k] == i);
        }
        assert forall|k: int| 0 <= k < front.len() implies 0 <= #[trigger] front[k] < n - 1
            && holds(front[k]) by {
            assert(front[k] == at[k]);
            assert(at[k] < at[at.len() - 1]);
        }
    } else {
        assert forall|k: int| 0 <= k < at.len() implies 0 <= #[trigger] at[k] < n - 1 && holds(
            at[k],
        ) by {}
        assert forall|i: int| 0 <= i < n - 1 && #[trigger] holds(i) implies at.contains(i) by {}
    }
}

/// A search reports the lines that hold the pattern anywhere, at their beginning, in their middle or
/// at their end: each with the place of the file, the number of the line and the line itself, in
/// their order and as many as there is room for.
pub proof fn law_searches_report_the_lines_that_hold_the_pattern(
    found: Seq<Seq<char>>,
    place: Seq<char>,
    lines: Seq<Seq<char>>,
    pattern: Seq<char>,
    n: int,
    at: Seq<int>,
)
    requires
        0 <= n <= lines.len(),
        found.len() <= 100,
        picks(
            at,
            n,
            |i: int|
                exists|a: Seq<char>, b: Seq<char>| lines[i] == #[trigger] (a + pattern + b),
        ),
    ensures
        ({
            let room = 100 - found.len();
            let told = if at.len() <= room {
                at.len()
            } else {
                room as nat
            };
            matched(found, place, lines, pattern, n) == found + Seq::new(
                told,
                |j: int| place + ":"@ + decimal((at[j] + 1) as nat) + ":"@ + lines[at[j]],
            )
        }),
    decreases n,
{
    let holds = |i: int|
        exists|a: Seq<char>, b: Seq<char>| lines[i] == #[trigger] (a + pattern + b);
    let after = matched(found, place, lines, pattern, n);
    if n == 0 {
        if at.len() > 0 {
            assert(0 <= at[0] < n);
        }
        assert(after =~= found + Seq::<Seq<char>>::empty());
        assert(Seq::new(
            0,
            |j: int| place + ":"@ + decimal((at[j] + 1) as nat) + ":"@ + lines[at[j]],
        ) =~= Seq::<Seq<char>>::empty());
    } else {
        lemma_picks_last(at, n, holds);
        law_texts_hold_their_parts(lines[n - 1], pattern);
        assert(holds(n - 1) == holds_text(lines[n - 1], pattern));
        let before = matched(found, place, lines, pattern, n - 1);
        let front = if holds(n - 1) {
            at.drop_last()
        } else {
            at
        };
        law_searches_report_the_lines_that_hold_the_pattern(
            found,
            place,
            lines,
            pattern,
            n - 1,
            front,
        );
        let room = 100 - found.len();
        let told = if at.len() <= room {
            at.len()
        } else {
            room as nat
        };
        assert(after =~= found + Seq::new(
            told,
            |j: int| place + ":"@ + decimal((at[j] + 1) as nat) + ":"@ + lines[at[j]],
        ));
    }
}

/// The same, of the call itself: searching a file adds its lines that hold the pattern to those that
/// were found before.
pub proof fn law_files_are_searched_line_by_line()
    ensures
        forall|workspace: Workspace, path: &str, contents: &str, pattern: &str, found: &mut Vec<String>|
            #[trigger]
            call_ensures(
                Workspace::search_file,
                (&workspace, path, contents, pattern, found),
                (),
            ) ==> texts((*final(found))@) == matched(
                texts((*found)@),
                relative_path(workspace@, path@),
                lines_of(contents@),
                pattern@,
                lines_of(contents@).len() as int,
            ),
{
}

/// A directory lists its entries but for links and for the directories of tools: each as a directory
/// or a file with its path in the workspace.
pub proof fn law_listings_show_the_entries(
    root: Seq<char>,
    entries: Seq<WorkspaceEntry>,
    n: int,
    at: Seq<int>,
)
    requires
        0 <= n <= entries.len(),
        picks(
            at,
            n,
            |i: int|
                !entries[i].is_symlink && (entries[i].name matches Some(name) ==> name@ != ".git"@
                    && name@ != "target"@ && name@ != ".arvm"@),
        ),
    ensures
        listed(root, entries, n) == Seq::new(
            at.len(),
            |j: int|
                (if entries[at[j]].is_dir {
                    "dir "@
                } else {
                    "file "@
                }) + relative_path(root, entries[at[j]].path@),
        ),
    decreases n,
{
    let holds = |i: int|
        !entries[i].is_symlink && (entries[i].name matches Some(name) ==> name@ != ".git"@ && name@
            != "target"@ && name@ != ".arvm"@);
    let lines = Seq::new(
        at.len(),
        |j: int|
            (if entries[at[j]].is_dir {
                "dir "@
            } else {
                "file "@
            }) + relative_path(root, entries[at[j]].path@),
    );
    if n == 0 {
        if at.len() > 0 {
            assert(0 <= at[0] < n);
        }
        assert(listed(root, entries, n) =~= lines);
    } else {
        lemma_picks_last(at, n, holds);
        let front = if holds(n - 1) {
            at.drop_last()
        } else {
            at
        };
        law_listings_show_the_entries(root, entries, n - 1, front);
        assert(holds(n - 1) <==> !(entries[n - 1].is_symlink || ignored(entries[n - 1].name)));
        assert(listed(root, entries, n) =~= lines);
    }
}

/// A path below the root is shown as what stands behind the root and a slash.
pub proof fn law_paths_are_shown_from_the_root(root: Seq<char>, rest: Seq<char>)
    requires
        root.len() > 0,
        root.last() != '/',
    ensures
        relative_path(root, root + "/"@ + rest) == rest,
        relative_path(root, root) == Seq::<char>::empty(),
{
    reveal_strlit("/");
    let path = root + "/"@ + rest;
    let front = below(root, Seq::empty());
    assert(front =~= root + "/"@);
    assert(path.take(front.len() as int) =~= front);
    assert(path.skip(front.len() as int) =~= rest);
    assert(path.len() != root.len());
}

/// A path that is absolute or goes up is refused, wherever in the path it does. What is resolved is
/// what stands there, and lies in the workspace: it is the root, or the root, a slash and more.
pub proof fn law_paths_that_lead_out_are_refused(
    root: Seq<char>,
    requested: Seq<char>,
    found: PathFound,
    allow_missing: bool,
    before: Seq<char>,
    after: Seq<char>,
)
    requires
        root.len() > 0,
        root.last() != '/',
    ensures
        requested.len() > 0 && requested[0] == '/' ==> resolved(
            root,
            requested,
            found,
            allow_missing,
        ) is Err,
        requested == before + ".."@ + after && (before.len() == 0 || before.last() == '/') && (
        after.len() == 0 || after[0] == '/') ==> resolved(
            root,
            requested,
            found,
            allow_missing,
        ) is Err,
        resolved(root, requested, found, allow_missing) matches Ok(path) ==> {
            &&& path == root || exists|rest: Seq<char>| path == #[trigger] (root + "/"@ + rest)
            &&& found matches PathFound::Present(found) ==> (found matches Ok(there) && there@ == path)
            &&& found is Missing ==> allow_missing
        },
{
    reveal_strlit("/");
    reveal_strlit("..");
    if requested == before + ".."@ + after && (before.len() == 0 || before.last() == '/') && (
    after.len() == 0 || after[0] == '/') {
        lemma_goes_up(before, after);
    }
    if let Ok(path) = resolved(root, requested, found, allow_missing) {
        let front = below(root, Seq::empty());
        assert(front =~= root + "/"@);
        if path != root {
            assert(path =~= root + "/"@ + path.skip(front.len() as int));
        }
    }
}

proof fn lemma_goes_up(before: Seq<char>, after: Seq<char>)
    requires
        before.len() == 0 || before.last() == '/',
        after.len() == 0 || after[0] == '/',
    ensures
        split_on(before + ".."@ + after, '/').contains(".."@),
    decreases before.len(),
{
    reveal_strlit("..");
    let whole = before + ".."@ + after;
    if before.len() == 0 {
        assert(whole =~= ".."@ + after);
        lemma_find_char_is(whole, '/', 2);
        assert(whole.take(2) =~= ".."@);
        if after.len() == 0 {
            assert(whole =~= ".."@);
            assert(split_on(whole, '/')[0] == ".."@);
        } else {
            assert(split_on(whole, '/')[0] == ".."@);
        }
    } else {
        lemma_find_char(before, '/');
        let i = find_char(before, '/');
        assert(i < before.len()) by {
            if i == before.len() {
                assert(before[before.len() - 1] != '/');
            }
        }
        assert forall|j: int| 0 <= j < i implies whole[j] != '/' by {
            assert(whole[j] == before[j]);
        }
        lemma_find_char_is(whole, '/', i);
        let rest = before.skip(i + 1);
        assert(whole.skip(i + 1) =~= rest + ".."@ + after);
        if rest.len() > 0 {
            assert(rest.last() == before.last());
        }
        lemma_goes_up(rest, after);
        let k = choose|k: int|
            0 <= k < split_on(rest + ".."@ + after, '/').len() && split_on(
                rest + ".."@ + after,
                '/',
            )[k] == ".."@;
        assert(split_on(whole, '/')[k + 1] == ".."@);
    }
}

/// A search goes down into directories and reads files of up to 131072 bytes; it passes over links,
/// larger files and the directories of tools.
pub proof fn law_searches_read_small_files(entry: WorkspaceEntry, r: SearchStep)
    requires
        call_ensures(search_step, (&entry,), r),
    ensures
        r == SearchStep::Read <==> !entry.is_symlink && !entry.is_dir && entry.is_file && (
        entry.size matches Some(size) && size <= 131072),
        r == SearchStep::Descend <==> !entry.is_symlink && entry.is_dir && (
        entry.name matches Some(name) ==> name@ != ".git"@ && name@ != "target"@ && name@
            != ".arvm"@),
{
}

/// Files are read up to 131072 bytes and not beyond, and nothing but a file is read.
pub proof fn law_files_are_read_within_their_limit(
    requested: &str,
    is_file: bool,
    size: u64,
    r: Result<(), ToolError>,
)
    requires
        call_ensures(check_file, (requested, is_file, size), r),
    ensures
        r is Ok <==> is_file && size <= 131072,
{
}

/// What a call of a workspace tool comes to is what its arguments say: the text of the file, the
/// pattern or the command as it was given, and `.` for a path that is left out.
pub proof fn law_calls_are_carried_out_as_given(name: Seq<char>, arguments: Arguments)
    ensures
        planned(name, arguments) matches Ok(action) ==> match action {
            ActionModel::List { path } => name == "list_files"@ && (argument(arguments, "path"@)
                == Some(ToolModel::Text(path)) || path == "."@),
            ActionModel::Read { path } => name == "read_file"@ && argument(arguments, "path"@)
                == Some(ToolModel::Text(path)),
            ActionModel::Search { pattern, path } => name == "search_files"@ && argument(
                arguments,
                "pattern"@,
            ) == Some(ToolModel::Text(pattern)) && (argument(arguments, "path"@) == Some(
                ToolModel::Text(path),
            ) || path == "."@),
            ActionModel::Write { path, content } => name == "write_file"@ && argument(
                arguments,
                "path"@,
            ) == Some(ToolModel::Text(path)) && argument(arguments, "content"@) == Some(
                ToolModel::Text(content),
            ) && byte_len(content) <= 131072,
            ActionModel::Run { command } => name == "run_command"@ && argument(
                arguments,
                "command"@,
            ) == Some(ToolModel::Text(command)),
        },
{
}

/// The permission that a call needs names the tool, and says in full what would be written or run.
pub proof fn law_permissions_say_what_they_are_for(
    name: Seq<char>,
    arguments: Arguments,
    text: Seq<char>,
)
    requires
        !all_white(text),
    ensures
        name == "write_file"@ && argument(arguments, "path"@) == Some(ToolModel::Text(text)) ==> (
        needed_permission(name, arguments) matches Some(asked) && asked.tool == name && ends(
            asked.id,
            text,
        ) && holds_text(asked.description, text)),
        name == "run_command"@ && argument(arguments, "command"@) == Some(ToolModel::Text(text)) ==> (
        needed_permission(name, arguments) matches Some(asked) && asked.tool == name && ends(
            asked.id,
            text,
        ) && ends(asked.description, text)),
        name == "list_files"@ || name == "read_file"@ || name == "search_files"@
            ==> needed_permission(name, arguments) is None,
{
    reveal_strlit("list_files");
    reveal_strlit("read_file");
    reveal_strlit("search_files");
    reveal_strlit("write_file");
    reveal_strlit("run_command");
    assert("list_files"@[0] != "write_file"@[0]);
    assert("list_files"@.len() != "run_command"@.len());
    assert("read_file"@.len() != "write_file"@.len());
    assert("read_file"@.len() != "run_command"@.len());
    assert("search_files"@.len() != "write_file"@.len());
    assert("search_files"@.len() != "run_command"@.len());
    law_blank_texts_are_white(text, ' ');
    assert("write_file"@.len() != "run_command"@.len());
    let id = "write_file:"@ + text;
    let ran = "run_command:"@ + text;
    let wrote = "write workspace file '"@ + text + "'"@;
    let said = "run command in workspace: "@ + text;
    law_texts_hold_their_parts(id, text);
    law_texts_hold_their_parts(ran, text);
    law_texts_hold_their_parts(wrote, text);
    law_texts_hold_their_parts(said, text);
}

/// Commands that stop the machine are refused, and so is removing the root or the home directory
/// with all that is in it. Here the command is in small letters and without separators.
pub proof fn law_destructive_commands_are_refused(command: Seq<char>, i: int, j: int, k: int)
    requires
        forall|c: int|
            0 <= c < command.len() ==> !('A' <= #[trigger] command[c] <= 'Z') && command[c] != ';'
                && command[c] != '&' && command[c] != '|',
        0 <= i < words_of(command).len(),
        0 <= j < words_of(command).len(),
        0 <= k < words_of(command).len(),
    ensures
        ({
            let words = words_of(command);
            &&& words[i] == "shutdown"@ || words[i] == "reboot"@ || words[i] == "halt"@ || words[i]
                == "poweroff"@ || words[i] == "mkfs"@ ==> dangerous(command)
            &&& words[i] == "rm"@ && (words[j] == "-rf"@ || words[j] == "-r"@ || words[j] == "-fr"@)
                && (words[k] == "/"@ || words[k] == "/*"@ || words[k] == "~"@) ==> dangerous(
                command,
            )
            &&& words[i] == "dd"@ && (exists|rest: Seq<char>|
                words[j] == #[trigger] ("of=/dev/"@ + rest)) ==> dangerous(command)
        }),
{
    assert(lower_text(command) =~= command);
    assert(parted(command) =~= command);
    let words = words_of(command);
    assert(command_words(command) == words);
    reveal_strlit("shutdown");
    reveal_strlit("reboot");
    reveal_strlit("halt");
    reveal_strlit("poweroff");
    reveal_strlit("mkfs");
    reveal_strlit("-rf");
    reveal_strlit("-r");
    reveal_strlit("-fr");
    reveal_strlit("rfRxivfp");
    assert("rfRxivfp"@[0] == 'r');
    assert("rfRxivfp"@[1] == 'f');
    lemma_last_name_alone("shutdown"@);
    lemma_last_name_alone("reboot"@);
    lemma_last_name_alone("halt"@);
    lemma_last_name_alone("poweroff"@);
    lemma_last_name_alone("mkfs"@);
    if words[i] == "shutdown"@ || words[i] == "reboot"@ || words[i] == "halt"@ || words[i]
        == "poweroff"@ || words[i] == "mkfs"@ {
        assert(names_stopper(words[i]));
    }
    if words[j] == "-rf"@ || words[j] == "-r"@ || words[j] == "-fr"@ {
        assert(words[j][1] == 'r' || words[j][2] == 'r');
        assert(removes_recursively(words[j]));
    }
    if words[k] == "/"@ || words[k] == "/*"@ || words[k] == "~"@ {
        assert(names_root(words[k]));
    }
    if exists|rest: Seq<char>| words[j] == #[trigger] ("of=/dev/"@ + rest) {
        law_texts_hold_their_parts(words[j], "of=/dev/"@);
        assert(begins(words[j], "of=/dev/"@));
    }
}

proof fn lemma_last_name_alone(word: Seq<char>)
    requires
        lacks(word, '/'),
    ensures
        last_name(word) == word,
{
    law_last_places(word, '/');
    if let Some(i) = find_last(word, '/') {
        assert(word[i] == '/');
    }
}

/// The answer to a search has one line for each match, in their order, and says so where there is
/// none.
pub proof fn law_answers_have_a_line_for_each_match(found: Seq<Seq<char>>)
    requires
        forall|i: int|
            0 <= i < found.len() ==> (#[trigger] found[i]).len() > 0 && lacks(found[i], '\n')
                && lacks(found[i], '\r'),
    ensures
        found.len() > 0 ==> lines_of(search_answer(found)) == found,
        found.len() == 0 ==> search_answer(found) == "(no matches)"@,
{
    reveal_strlit("\n");
    assert("\n"@ =~= seq!['\n']);
    if found.len() > 0 {
        law_lines_undo_join(found);
    }
}

/// What a command printed is shown stream by stream, up to sixteen thousand bytes of each, and ends
/// with the code that the command left with, or -1 where it left none.
pub proof fn law_command_output_is_shown(out: Seq<u8>, err: Seq<u8>, code: Option<i32>)
    ensures
        ({
            let shown = output_text(stream(out), stream(err), code);
            &&& out.len() > 0 ==> begins(shown, "stdout:\n"@ + kept_output(out))
            &&& err.len() > 0 ==> holds_text(shown, "stderr:\n"@ + kept_output(err))
            &&& out.len() == 0 && err.len() == 0 ==> begins(shown, "(no output)"@)
            &&& code matches Some(c) ==> ends(shown, "exit_code="@ + signed_decimal(c as int))
            &&& code is None ==> ends(shown, "exit_code="@ + signed_decimal(-1))
        }),
        out.len() <= 16_384 ==> kept_output(out) == lossy(out),
        out.len() > 16_384 ==> begins(kept_output(out), lossy(out.take(16_384))) && ends(
            kept_output(out),
            "[output truncated]"@,
        ),
{
    let shown = output_text(stream(out), stream(err), code);
    let number = signed_decimal(
        match code {
            Some(c) => c as int,
            None => -1,
        },
    );
    let tail = "exit_code="@ + number;
    let said = shown.take(shown.len() - tail.len());
    reveal_strlit("(no output)\n");
    reveal_strlit("(no output)");
    reveal_strlit("\n[output truncated]");
    reveal_strlit("[output truncated]");
    assert(shown.skip(shown.len() - tail.len()) =~= tail);
    if out.len() > 0 {
        let first = "stdout:\n"@ + kept_output(out);
        assert(shown.take(first.len() as int) =~= first);
    }
    if err.len() > 0 {
        let second = "stderr:\n"@ + kept_output(err);
        let before = if out.len() > 0 {
            "stdout:\n"@ + kept_output(out) + "\n"@
        } else {
            Seq::empty()
        };
        assert(shown =~= before + second + tail);
        law_texts_hold_their_parts(shown, second);
    }
    if out.len() == 0 && err.len() == 0 {
        assert(shown.take(11) =~= "(no output)"@);
    }
    if out.len() > 16_384 {
        let kept = kept_output(out);
        assert(kept.take(lossy(out.take(16_384)).len() as int) =~= lossy(out.take(16_384)));
        assert(kept.skip(kept.len() - 18) =~= "[output truncated]"@);
    }
}

/// A write is answered with the number of its bytes and the path as it was asked for.
pub proof fn law_writes_are_answered(requested: Seq<char>, content: Seq<char>)
    ensures
        begins(written_text(requested, content), "wrote "@ + decimal(byte_len(content)) + " "@),
        ends(written_text(requested, content), " "@ + requested),
{
    reveal_strlit(" bytes to ");
    reveal_strlit(" ");
    let whole = written_text(requested, content);
    let first = "wrote "@ + decimal(byte_len(content)) + " "@;
    assert(whole.take(first.len() as int) =~= first);
    let last = " "@ + requested;
    assert(whole.skip(whole.len() - last.len()) =~= last);
}

} // verus!
