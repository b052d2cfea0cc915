//! A filesystem that exists entirely inside one guest VM.

use vstd::prelude::*;
#[allow(unused_imports)]
use vstd::utf8::{decode_utf8, valid_utf8};

use crate::ordered::OrderedMap;
#[allow(unused_imports)]
use crate::ordered::{
    OrderedKey, law_put_then_get, lemma_found, lemma_not_found, lemma_position, lemma_same_keys,
    lemma_with_entry_sorted, lookup, names_before, position, present, sorted, with_entry,
};
use crate::runtime_error::{ResourceLimits, RuntimeError};
#[allow(unused_imports)]
use crate::runtime_error::Trouble;
#[allow(unused_imports)]
use crate::text::{
    find_char, joined, lacks, law_split_undoes_join, lemma_find_char, lemma_find_char_append,
    lemma_find_char_is, lemma_join_lacks, lemma_split_append, lemma_split_pieces, split_on, texts,
};
use crate::text::{chars_of, find_from, join, same_text, split, utf8_text};

verus! {

// ---------------------------------------------------------------------------
// Paths
// ---------------------------------------------------------------------------

/// A guest path: the names on the way from the root.
pub type Names = Seq<Seq<char>>;

/// Follows `parts` from `base`: empty parts and `.` stay, `..` goes up, any other part goes down.
/// `None` when a part goes up from the root.
pub open spec fn follow(parts: Names, base: Names) -> Option<Names>
    decreases parts.len(),
{
    if parts.len() == 0 {
        Some(base)
    } else {
        let part = parts[0];
        let rest = parts.skip(1);
        if part == ""@ || part == "."@ {
            follow(rest, base)
        } else if part == ".."@ {
            if base.len() == 0 {
                None
            } else {
                follow(rest, base.drop_last())
            }
        } else {
            follow(rest, base.push(part))
        }
    }
}

/// `path` seen from `cwd`, as text.
pub open spec fn combined_path(path: Seq<char>, cwd: Seq<char>) -> Seq<char> {
    if path.len() > 0 && path[0] == '/' {
        path
    } else {
        cwd + "/"@ + path
    }
}

/// The names of `path`, seen from `cwd`.
pub open spec fn normalize(path: Seq<char>, cwd: Seq<char>) -> Result<Names, Trouble> {
    if path.len() == 0 || !lacks(path, '\0') {
        Err(Trouble::InvalidPath { path, reason: "path is empty or contains NUL"@ })
    } else {
        match follow(split_on(combined_path(path, cwd), '/'), Seq::empty()) {
            Some(names) => Ok(names),
            None => Err(Trouble::InvalidPath { path, reason: "path escapes the guest root"@ }),
        }
    }
}

/// A path as text.
pub open spec fn display(names: Names) -> Seq<char> {
    if names.len() == 0 {
        "/"@
    } else {
        "/"@ + joined(names, "/"@)
    }
}

/// A name that can stand in a path.
pub open spec fn proper_name(name: Seq<char>) -> bool {
    &&& name != ""@
    &&& name != "."@
    &&& name != ".."@
    &&& lacks(name, '/')
    &&& lacks(name, '\0')
}

pub open spec fn proper(names: Names) -> bool {
    forall|i: int| 0 <= i < names.len() ==> proper_name(#[trigger] names[i])
}

proof fn lemma_follow_proper(parts: Names, base: Names)
    requires
        proper(base),
        forall|i: int|
            0 <= i < parts.len() ==> lacks(#[trigger] parts[i], '/') && lacks(parts[i], '\0'),
    ensures
        follow(parts, base) matches Some(names) ==> proper(names),
    decreases parts.len(),
{
    if parts.len() > 0 {
        let rest = parts.skip(1);
        assert forall|i: int| 0 <= i < rest.len() implies lacks(#[trigger] rest[i], '/') && lacks(
            rest[i],
            '\0',
        ) by {
            assert(rest[i] == parts[i + 1]);
        }
        assert(lacks(parts[0], '/'));
        lemma_follow_proper(rest, base);
        if base.len() > 0 {
            assert(proper(base.drop_last()));
            lemma_follow_proper(rest, base.drop_last());
        }
        if proper_name(parts[0]) {
            assert(proper(base.push(parts[0])));
            lemma_follow_proper(rest, base.push(parts[0]));
        }
    }
}

/// A path names only proper names, so it never leads outside the guest root.
pub proof fn law_normalized_paths_are_proper(path: Seq<char>, cwd: Seq<char>)
    requires
        lacks(cwd, '\0'),
    ensures
        normalize(path, cwd) matches Ok(names) ==> proper(names),
{
    if path.len() > 0 && lacks(path, '\0') {
        let text = combined_path(path, cwd);
        reveal_strlit("/");
        assert forall|i: int| 0 <= i < text.len() implies #[trigger] text[i] != '\0' by {
            if !(path.len() > 0 && path[0] == '/') {
                if i < cwd.len() {
                    assert(text[i] == cwd[i]);
                } else if i == cwd.len() {
                    assert(text[i] == '/');
                } else {
                    assert(text[i] == path[i - cwd.len() - 1]);
                }
            }
        }
        lemma_split_pieces(text, '/');
        let parts = split_on(text, '/');
        assert forall|i: int| 0 <= i < parts.len() implies lacks(#[trigger] parts[i], '/') && lacks(
            parts[i],
            '\0',
        ) by {
            assert(lacks(split_on(text, '/')[i], '/'));
            assert(lacks(split_on(text, '/')[i], '\0'));
        }
        lemma_follow_proper(parts, Seq::empty());
    }
}

proof fn lemma_follow_names(parts: Names, base: Names)
    requires
        proper(parts),
    ensures
        follow(parts, base) == Some(base + parts),
    decreases parts.len(),
{
    if parts.len() == 0 {
        assert(base + parts =~= base);
    } else {
        let rest = parts.skip(1);
        assert(proper_name(parts[0]));
        assert(proper(rest)) by {
            assert forall|i: int| 0 <= i < rest.len() implies proper_name(#[trigger] rest[i]) by {
                assert(rest[i] == parts[i + 1]);
            }
        }
        lemma_follow_names(rest, base.push(parts[0]));
        assert(base.push(parts[0]) + rest =~= base + parts);
    }
}

/// The text of a path leads back to the path, whatever the working directory.
pub proof fn law_normalize_undoes_display(names: Names, cwd: Seq<char>)
    requires
        proper(names),
    ensures
        normalize(display(names), cwd) == Ok::<Names, Trouble>(names),
{
    reveal_strlit("/");
    reveal_strlit("");
    let text = display(names);
    let slash = seq!['/'];
    assert("/"@ =~= slash);
    assert(""@ =~= Seq::<char>::empty());
    assert(text[0] == '/');
    assert(combined_path(text, cwd) == text);
    let nothing = Seq::<char>::empty();
    if names.len() == 0 {
        assert(text =~= nothing + slash + nothing);
        lemma_split_append(nothing, nothing, '/');
        assert(split_on(nothing, '/') == seq![nothing]);
        let parts = split_on(text, '/');
        assert(parts =~= seq![nothing, nothing]);
        assert(parts.skip(1) =~= seq![nothing]);
        assert(seq![nothing].skip(1) =~= Seq::<Seq<char>>::empty());
        assert(follow(parts.skip(1).skip(1), Seq::empty()) == Some(Seq::<Seq<char>>::empty()));
        assert(follow(parts.skip(1), Seq::empty()) == Some(Seq::<Seq<char>>::empty()));
        assert(follow(parts, Seq::empty()) == Some(Seq::<Seq<char>>::empty()));
        assert(names =~= Seq::<Seq<char>>::empty());
        assert(lacks(text, '\0'));
    } else {
        let tail = joined(names, slash);
        assert(text =~= nothing + slash + tail);
        lemma_split_append(nothing, tail, '/');
        assert(split_on(nothing, '/') == seq![nothing]);
        assert forall|i: int| 0 <= i < names.len() implies lacks(#[trigger] names[i], '/') by {
            assert(proper_name(names[i]));
        }
        law_split_undoes_join(names, '/');
        let parts = split_on(text, '/');
        assert(parts =~= seq![nothing] + names);
        assert(parts.skip(1) =~= names);
        lemma_follow_names(names, Seq::empty());
        assert(Seq::<Seq<char>>::empty() + names =~= names);
        assert forall|i: int| 0 <= i < names.len() implies lacks(#[trigger] names[i], '\0') by {
            assert(proper_name(names[i]));
        }
        lemma_join_lacks(names, seq!['/'], '\0');
        assert forall|i: int| 0 <= i < text.len() implies #[trigger] text[i] != '\0' by {
            if i > 0 {
                assert(text[i] == tail[i - 1]);
            }
        }
    }
}

/// Resolves `path` from `cwd`.
pub fn normalize_path(path: &str, cwd: &str) -> (r: Result<Vec<String>, RuntimeError>)
    ensures
        match r {
            Ok(names) => normalize(path@, cwd@) == Ok::<Names, Trouble>(texts(names@)),
            Err(error) => normalize(path@, cwd@) == Err::<Names, Trouble>(error@),
        },
{
    let chars = chars_of(path);
    let nul = find_from(&chars, '\0', 0);
    proof {
        assert(chars@.skip(0) =~= path@);
        lemma_find_char(path@, '\0');
        if nul < chars@.len() {
            assert(path@[nul as int] == '\0');
            assert(!lacks(path@, '\0'));
        }
    }
    if chars.len() == 0 || nul < chars.len() {
        return Err(
            RuntimeError::InvalidPath {
                path: path.to_owned(),
                reason: "path is empty or contains NUL".to_owned(),
            },
        );
    }
    let combined = if chars[0] == '/' {
        path.to_owned()
    } else {
        let mut r = cwd.to_owned();
        r.push_str("/");
        r.push_str(path);
        r
    };
    let parts = split(combined.as_str(), '/');
    let ghost all = texts(parts@);
    let mut names: Vec<String> = Vec::new();
    let mut i: usize = 0;
    assert(texts(names@) =~= Seq::<Seq<char>>::empty());
    assert(all.skip(0) =~= all);
    while i < parts.len()
        invariant
            i <= parts@.len(),
            all == texts(parts@),
            path@.len() > 0,
            lacks(path@, '\0'),
            all == split_on(combined_path(path@, cwd@), '/'),
            follow(all, Seq::empty()) == follow(all.skip(i as int), texts(names@)),
        decreases parts@.len() - i,
    {
        let ghost before = texts(names@);
        assert(all.skip(i as int)[0] == parts@[i as int]@);
        assert(all.skip(i as int).skip(1) =~= all.skip(i + 1));
        let part = parts[i].as_str();
        if same_text(part, "") || same_text(part, ".") {
        } else if same_text(part, "..") {
            if names.len() == 0 {
                return Err(
                    RuntimeError::InvalidPath {
                        path: path.to_owned(),
                        reason: "path escapes the guest root".to_owned(),
                    },
                );
            }
            let _ = names.pop();
            assert(texts(names@) =~= before.drop_last());
        } else {
            names.push(part.to_owned());
            assert(texts(names@) =~= before.push(part@));
        }
        i += 1;
    }
    assert(all.skip(i as int) =~= Seq::<Seq<char>>::empty());
    Ok(names)
}

/// The text of a path.
pub fn display_path(names: &Vec<String>) -> (r: String)
    ensures
        r@ == display(texts(names@)),
{
    if names.len() == 0 {
        "/".to_owned()
    } else {
        let mut r = "/".to_owned();
        r.push_str(join(names, "/").as_str());
        r
    }
}

/// The first `n` names of a path.
pub fn first_names(names: &Vec<String>, n: usize) -> (r: Vec<String>)
    requires
        n <= names@.len(),
    ensures
        texts(r@) == texts(names@).take(n as int),
{
    let mut r: Vec<String> = Vec::new();
    let mut i: usize = 0;
    while i < n
        invariant
            i <= n <= names@.len(),
            texts(r@) == texts(names@).take(i as int),
        decreases n - i,
    {
        let ghost before = r@;
        r.push(names[i].clone());
        assert(texts(r@) =~= texts(before).push(names@[i as int]@));
        assert(texts(names@).take(i + 1) =~= texts(names@).take(i as int).push(names@[i as int]@));
        i += 1;
    }
    r
}

// ---------------------------------------------------------------------------
// Nodes
// ---------------------------------------------------------------------------

#[derive(Debug, PartialEq, Eq)]
pub enum Node {
    Directory,
    File(Vec<u8>),
}

/// What stands at a path.
#[verifier::ext_equal]
pub enum FsNode {
    Directory,
    File(Seq<u8>),
}

impl View for Node {
    type V = FsNode;

    open spec fn view(&self) -> FsNode {
        match self {
            Node::Directory => FsNode::Directory,
            Node::File(content) => FsNode::File(content@),
        }
    }
}

/// The paths of a filesystem and what stands at them, in path order.
pub type Entries = Seq<(Names, FsNode)>;

/// The contents and the limits of a filesystem.
#[verifier::ext_equal]
pub struct FsState {
    pub entries: Entries,
    pub limits: ResourceLimits,
}

/// What stands at `names`.
pub open spec fn node_at(entries: Entries, names: Names) -> Option<FsNode> {
    lookup::<Vec<String>, FsNode>(entries, names)
}

/// `entries` with `node` at `names`.
pub open spec fn put_node(entries: Entries, names: Names, node: FsNode) -> Entries {
    with_entry::<Vec<String>, FsNode>(entries, names, node)
}

pub open spec fn node_size(node: FsNode) -> nat {
    match node {
        FsNode::Directory => 0,
        FsNode::File(content) => content.len(),
    }
}

/// The bytes of all files.
pub open spec fn total_bytes(entries: Entries) -> nat
    decreases entries.len(),
{
    if entries.len() == 0 {
        0
    } else {
        total_bytes(entries.drop_last()) + node_size(entries.last().1)
    }
}

/// Every path but the root has a directory as its parent, and proper names only.
pub open spec fn tree(entries: Entries) -> bool {
    &&& sorted::<Vec<String>, FsNode>(entries)
    &&& node_at(entries, Seq::empty()) == Some(FsNode::Directory)
    &&& forall|i: int|
        0 <= i < entries.len() && (#[trigger] entries[i]).0.len() > 0 ==> {
            &&& proper(entries[i].0)
            &&& node_at(entries, entries[i].0.drop_last()) == Some(FsNode::Directory)
        }
}

pub open spec fn workspace_names() -> Names {
    seq!["workspace"@]
}

pub open spec fn tmp_names() -> Names {
    seq!["tmp"@]
}

pub open spec fn home_names() -> Names {
    seq!["home"@]
}

/// A filesystem in order: a tree with the default directories, within its limits.
pub open spec fn sound_fs(f: FsState) -> bool {
    &&& tree(f.entries)
    &&& f.entries.len() <= f.limits.max_inodes
    &&& total_bytes(f.entries) <= f.limits.max_bytes
    &&& node_at(f.entries, workspace_names()) == Some(FsNode::Directory)
    &&& node_at(f.entries, tmp_names()) == Some(FsNode::Directory)
    &&& node_at(f.entries, home_names()) == Some(FsNode::Directory)
}

proof fn lemma_total_update(entries: Entries, p: int, entry: (Names, FsNode))
    requires
        0 <= p < entries.len(),
    ensures
        total_bytes(entries.update(p, entry)) == total_bytes(entries) - node_size(entries[p].1)
            + node_size(entry.1),
    decreases entries.len(),
{
    let next = entries.update(p, entry);
    if p == entries.len() - 1 {
        assert(next.drop_last() =~= entries.drop_last());
    } else {
        lemma_total_update(entries.drop_last(), p, entry);
        assert(next.drop_last() =~= entries.drop_last().update(p, entry));
    }
}

proof fn lemma_total_insert(entries: Entries, p: int, entry: (Names, FsNode))
    requires
        0 <= p <= entries.len(),
    ensures
        total_bytes(entries.insert(p, entry)) == total_bytes(entries) + node_size(entry.1),
    decreases entries.len(),
{
    let next = entries.insert(p, entry);
    if p == entries.len() {
        assert(next.drop_last() =~= entries);
    } else {
        lemma_total_insert(entries.drop_last(), p, entry);
        assert(next.drop_last() =~= entries.drop_last().insert(p, entry));
        assert(next.last() == entries.last());
    }
}

/// Putting a node replaces the bytes of what stood there by its own.
pub proof fn lemma_total_put(entries: Entries, names: Names, node: FsNode)
    ensures
        total_bytes(put_node(entries, names, node)) == total_bytes(entries) - match node_at(
            entries,
            names,
        ) {
            Some(existing) => node_size(existing),
            None => 0,
        } + node_size(node),
        put_node(entries, names, node).len() == entries.len() + if node_at(entries, names) is None {
            1int
        } else {
            0int
        },
{
    lemma_position::<Vec<String>, FsNode>(entries, names);
    let p = position::<Vec<String>, FsNode>(entries, names);
    if present::<Vec<String>, FsNode>(entries, names) {
        lemma_total_update(entries, p, (names, node));
    } else {
        lemma_total_insert(entries, p, (names, node));
    }
}

/// Putting a node below a directory keeps the tree, when it does not turn a directory into a file.
pub proof fn lemma_put_keeps_tree(entries: Entries, names: Names, node: FsNode)
    requires
        tree(entries),
        names.len() > 0,
        proper(names),
        node_at(entries, names.drop_last()) == Some(FsNode::Directory),
        node_at(entries, names) == Some(FsNode::Directory) ==> node is Directory,
    ensures
        tree(put_node(entries, names, node)),
{
    let next = put_node(entries, names, node);
    lemma_with_entry_sorted::<Vec<String>, FsNode>(entries, names, node);
    lemma_position::<Vec<String>, FsNode>(entries, names);
    let p = position::<Vec<String>, FsNode>(entries, names);
    law_put_then_get::<Vec<String>, FsNode>(entries, names, node, Seq::empty());
    assert forall|i: int| 0 <= i < next.len() && (#[trigger] next[i]).0.len() > 0 implies {
        &&& proper(next[i].0)
        &&& node_at(next, next[i].0.drop_last()) == Some(FsNode::Directory)
    } by {
        let path = next[i].0;
        law_put_then_get::<Vec<String>, FsNode>(entries, names, node, path.drop_last());
        if i == p {
            assert(path == names);
        } else {
            let j = if present::<Vec<String>, FsNode>(entries, names) || i < p {
                i
            } else {
                i - 1
            };
            assert(next[i] == entries[j]);
        }
    }
}

// ---------------------------------------------------------------------------
// Operations
// ---------------------------------------------------------------------------

/// The bytes of the file at `path`.
pub open spec fn file_at(f: FsState, path: Seq<char>) -> Result<Seq<u8>, Trouble> {
    match normalize(path, "/"@) {
        Err(trouble) => Err(trouble),
        Ok(names) => match node_at(f.entries, names) {
            Some(FsNode::File(content)) => Ok(content),
            Some(FsNode::Directory) => Err(Trouble::IsDirectory { path: display(names) }),
            None => Err(Trouble::NotFound { path: display(names) }),
        },
    }
}

/// The text of the file at `path`.
pub open spec fn text_at(f: FsState, path: Seq<char>) -> Result<Seq<char>, Trouble> {
    match file_at(f, path) {
        Err(trouble) => Err(trouble),
        Ok(content) => if valid_utf8(content) {
            Ok(decode_utf8(content))
        } else {
            Err(Trouble::InvalidUtf8 { path })
        },
    }
}

/// The bytes of all files once the file at `names` holds `size` bytes.
pub open spec fn bytes_after(f: FsState, names: Names, size: nat) -> int {
    total_bytes(f.entries) - match node_at(f.entries, names) {
        Some(node) => node_size(node),
        None => 0,
    } + size
}

/// Why `size` bytes cannot be written at `names`, if they cannot.
pub open spec fn write_trouble(f: FsState, names: Names, size: nat) -> Option<Trouble> {
    if names.len() == 0 {
        Some(Trouble::IsDirectory { path: "/"@ })
    } else if node_at(f.entries, names) == Some(FsNode::Directory) {
        Some(Trouble::IsDirectory { path: display(names) })
    } else if bytes_after(f, names, size) > f.limits.max_bytes {
        Some(Trouble::QuotaExceeded { resource: "file bytes", limit: f.limits.max_bytes })
    } else if node_at(f.entries, names) is None && f.entries.len() >= f.limits.max_inodes {
        Some(Trouble::QuotaExceeded { resource: "inodes", limit: f.limits.max_inodes })
    } else {
        match node_at(f.entries, names.drop_last()) {
            None => Some(Trouble::ParentMissing { path: display(names.drop_last()) }),
            Some(FsNode::File(_)) => Some(
                Trouble::NotDirectory { path: display(names.drop_last()) },
            ),
            Some(FsNode::Directory) => None,
        }
    }
}

/// Writing `content` to the file at `path`: the filesystem left and the outcome.
pub open spec fn write_at(f: FsState, path: Seq<char>, content: Seq<u8>) -> (
    FsState,
    Result<(), Trouble>,
) {
    match normalize(path, "/"@) {
        Err(trouble) => (f, Err(trouble)),
        Ok(names) => match write_trouble(f, names, content.len()) {
            Some(trouble) => (f, Err(trouble)),
            None => (
                FsState {
                    entries: put_node(f.entries, names, FsNode::File(content)),
                    limits: f.limits,
                },
                Ok(()),
            ),
        },
    }
}

/// Walks down `names` from depth `index`: the depth of the first name that is missing, `None` when
/// all are there, or the depth of a file on the way.
pub open spec fn first_missing(entries: Entries, names: Names, index: int) -> Result<
    Option<int>,
    int,
>
    decreases names.len() - index,
{
    if !(0 <= index < names.len()) {
        Ok(None)
    } else if node_at(entries, names.take(index)) matches Some(FsNode::File(_)) {
        Err(index)
    } else if node_at(entries, names.take(index + 1)) is None {
        Ok(Some(index))
    } else {
        first_missing(entries, names, index + 1)
    }
}

/// `entries` with directories at the prefixes of `names` that are longer than `from`.
pub open spec fn put_directories(entries: Entries, names: Names, from: int) -> Entries
    decreases names.len() - from,
{
    if !(0 <= from < names.len()) {
        entries
    } else {
        put_directories(
            put_node(entries, names.take(from + 1), FsNode::Directory),
            names,
            from + 1,
        )
    }
}

/// Making the directory at `names`.
pub open spec fn mkdir_names(f: FsState, names: Names, recursive: bool) -> (
    FsState,
    Result<(), Trouble>,
) {
    match first_missing(f.entries, names, 0) {
        Err(index) => (f, Err(Trouble::NotDirectory { path: display(names.take(index)) })),
        Ok(None) => if names.len() == 0 || node_at(f.entries, names) == Some(FsNode::Directory) {
            (f, Ok(()))
        } else {
            (f, Err(Trouble::AlreadyExists { path: display(names) }))
        },
        Ok(Some(missing)) => if !recursive && missing + 1 != names.len() {
            (f, Err(Trouble::ParentMissing { path: display(names) }))
        } else if f.entries.len() + (names.len() - missing) > f.limits.max_inodes {
            (
                f,
                Err(Trouble::QuotaExceeded { resource: "inodes", limit: f.limits.max_inodes }),
            )
        } else {
            (
                FsState {
                    entries: put_directories(f.entries, names, missing),
                    limits: f.limits,
                },
                Ok(()),
            )
        },
    }
}

/// Making the directory at `path`, with its parents when `recursive`.
pub open spec fn mkdir_at(f: FsState, path: Seq<char>, recursive: bool) -> (
    FsState,
    Result<(), Trouble>,
) {
    match normalize(path, "/"@) {
        Err(trouble) => (f, Err(trouble)),
        Ok(names) => mkdir_names(f, names, recursive),
    }
}

/// The kind of a guest filesystem entry.
#[derive(Debug, Clone, Copy, PartialEq, Eq, Structural)]
pub enum EntryKind {
    Directory,
    File,
}

/// Metadata returned when listing a guest directory.
#[derive(Debug, PartialEq, Eq)]
pub struct DirectoryEntry {
    pub name: String,
    pub kind: EntryKind,
    pub size: usize,
}

/// What a [`DirectoryEntry`] says.
#[verifier::ext_equal]
pub struct Listed {
    pub name: Seq<char>,
    pub kind: EntryKind,
    pub size: nat,
}

impl View for DirectoryEntry {
    type V = Listed;

    open spec fn view(&self) -> Listed {
        Listed { name: self.name@, kind: self.kind, size: self.size as nat }
    }
}

pub open spec fn listed_entries(entries: Seq<DirectoryEntry>) -> Seq<Listed> {
    Seq::new(entries.len(), |i: int| entries[i]@)
}

pub open spec fn listed(name: Seq<char>, node: FsNode) -> Listed {
    Listed {
        name,
        kind: match node {
            FsNode::Directory => EntryKind::Directory,
            FsNode::File(_) => EntryKind::File,
        },
        size: node_size(node),
    }
}

/// Whether `names` is directly below `directory`.
pub open spec fn child_of(names: Names, directory: Names) -> bool {
    names.len() == directory.len() + 1 && names.drop_last() == directory
}

/// What stands directly below `directory` among the entries from `index` on, in name order.
pub open spec fn children(entries: Entries, directory: Names, index: int) -> Seq<Listed>
    decreases entries.len() - index,
{
    if !(0 <= index < entries.len()) {
        Seq::empty()
    } else if child_of(entries[index].0, directory) {
        seq![listed(entries[index].0.last(), entries[index].1)] + children(
            entries,
            directory,
            index + 1,
        )
    } else {
        children(entries, directory, index + 1)
    }
}

/// The listing of the directory at `path`.
pub open spec fn list_at(f: FsState, path: Seq<char>) -> Result<Seq<Listed>, Trouble> {
    match normalize(path, "/"@) {
        Err(trouble) => Err(trouble),
        Ok(names) => match node_at(f.entries, names) {
            None => Err(Trouble::NotFound { path: display(names) }),
            Some(FsNode::File(_)) => Err(Trouble::NotDirectory { path: display(names) }),
            Some(FsNode::Directory) => Ok(children(f.entries, names, 0)),
        },
    }
}

/// An empty filesystem: a root and nothing below it.
pub open spec fn bare_entries() -> Entries {
    seq![(Seq::<Seq<char>>::empty(), FsNode::Directory)]
}

/// A new filesystem: the root and the default directories.
pub open spec fn fresh_fs(limits: ResourceLimits) -> FsState {
    FsState {
        entries: put_node(
            put_node(
                put_node(bare_entries(), workspace_names(), FsNode::Directory),
                tmp_names(),
                FsNode::Directory,
            ),
            home_names(),
            FsNode::Directory,
        ),
        limits,
    }
}


// ---------------------------------------------------------------------------
// The filesystem
// ---------------------------------------------------------------------------

/// A filesystem that exists entirely inside one guest VM.
#[derive(Debug)]
pub struct VirtualFileSystem {
    entries: OrderedMap<Vec<String>, Node>,
    limits: ResourceLimits,
}

spec fn node_models(entries: Seq<(Names, Node)>) -> Entries {
    Seq::new(entries.len(), |i: int| (entries[i].0, entries[i].1@))
}

proof fn lemma_models_lookup(entries: Seq<(Names, Node)>, names: Names)
    ensures
        node_at(node_models(entries), names) == match lookup::<Vec<String>, Node>(entries, names) {
            Some(node) => Some(node@),
            None => None,
        },
{
    lemma_same_keys::<Vec<String>, Node, FsNode>(entries, node_models(entries), names);
    lemma_position::<Vec<String>, Node>(entries, names);
}

proof fn lemma_models_put(entries: Seq<(Names, Node)>, names: Names, node: Node)
    ensures
        node_models(with_entry::<Vec<String>, Node>(entries, names, node)) == put_node(
            node_models(entries),
            names,
            node@,
        ),
{
    lemma_same_keys::<Vec<String>, Node, FsNode>(entries, node_models(entries), names);
    lemma_position::<Vec<String>, Node>(entries, names);
    assert(node_models(with_entry::<Vec<String>, Node>(entries, names, node)) =~= put_node(
        node_models(entries),
        names,
        node@,
    ));
}

impl View for VirtualFileSystem {
    type V = FsState;

    closed spec fn view(&self) -> FsState {
        FsState { entries: node_models(self.entries@), limits: self.limits }
    }
}

/// A result with its error as a [`Trouble`].
pub open spec fn seen<T>(r: Result<T, RuntimeError>) -> Result<T, Trouble> {
    match r {
        Ok(value) => Ok(value),
        Err(error) => Err(error@),
    }
}

/// A copy of `bytes`.
pub fn copy_bytes(bytes: &[u8]) -> (r: Vec<u8>)
    ensures
        r@ == bytes@,
{
    let mut r: Vec<u8> = Vec::new();
    let mut i: usize = 0;
    while i < bytes.len()
        invariant
            i <= bytes@.len(),
            r@ == bytes@.take(i as int),
        decreases bytes@.len() - i,
    {
        r.push(bytes[i]);
        assert(bytes@.take(i + 1) =~= bytes@.take(i as int).push(bytes@[i as int]));
        i += 1;
    }
    assert(bytes@.take(bytes@.len() as int) =~= bytes@);
    r
}

fn one_name(name: &str) -> (r: Vec<String>)
    ensures
        texts(r@) == seq![name@],
{
    let mut r: Vec<String> = Vec::new();
    r.push(name.to_owned());
    assert(texts(r@) =~= seq![name@]);
    r
}

proof fn lemma_default_names()
    ensures
        proper(workspace_names()),
        proper(tmp_names()),
        proper(home_names()),
        workspace_names() != tmp_names(),
        workspace_names() != home_names(),
        tmp_names() != home_names(),
{
    reveal_strlit("workspace");
    reveal_strlit("tmp");
    reveal_strlit("home");
    reveal_strlit("");
    reveal_strlit(".");
    reveal_strlit("..");
    assert(workspace_names()[0].len() == 9);
    assert(tmp_names()[0].len() == 3);
    assert(home_names()[0].len() == 4);
}

/// A new filesystem is in order when its limits leave room for the default directories.
pub proof fn law_fresh_filesystems_are_sound(limits: ResourceLimits)
    requires
        limits.max_inodes >= 4,
    ensures
        sound_fs(fresh_fs(limits)),
        fresh_fs(limits).entries.len() == 4,
        total_bytes(fresh_fs(limits).entries) == 0,
{
    lemma_default_names();
    let root = Seq::<Seq<char>>::empty();
    let e0 = bare_entries();
    let e1 = put_node(e0, workspace_names(), FsNode::Directory);
    let e2 = put_node(e1, tmp_names(), FsNode::Directory);
    let e3 = put_node(e2, home_names(), FsNode::Directory);
    assert(e0[0] == (root, FsNode::Directory));
    assert(sorted::<Vec<String>, FsNode>(e0));
    lemma_found::<Vec<String>, FsNode>(e0, 0);
    assert(tree(e0));
    assert(total_bytes(e0.drop_last()) == 0);
    assert(total_bytes(e0) == 0);
    assert(workspace_names().drop_last() =~= root);
    assert(tmp_names().drop_last() =~= root);
    assert(home_names().drop_last() =~= root);
    lemma_not_found::<Vec<String>, FsNode>(e0, workspace_names());
    lemma_put_keeps_tree(e0, workspace_names(), FsNode::Directory);
    lemma_total_put(e0, workspace_names(), FsNode::Directory);
    law_put_then_get::<Vec<String>, FsNode>(e0, workspace_names(), FsNode::Directory, root);
    law_put_then_get::<Vec<String>, FsNode>(
        e0,
        workspace_names(),
        FsNode::Directory,
        workspace_names(),
    );
    lemma_not_found::<Vec<String>, FsNode>(e0, tmp_names());
    law_put_then_get::<Vec<String>, FsNode>(e0, workspace_names(), FsNode::Directory, tmp_names());
    lemma_not_found::<Vec<String>, FsNode>(e0, home_names());
    law_put_then_get::<Vec<String>, FsNode>(e0, workspace_names(), FsNode::Directory, home_names());
    lemma_put_keeps_tree(e1, tmp_names(), FsNode::Directory);
    lemma_total_put(e1, tmp_names(), FsNode::Directory);
    law_put_then_get::<Vec<String>, FsNode>(e1, tmp_names(), FsNode::Directory, root);
    law_put_then_get::<Vec<String>, FsNode>(e1, tmp_names(), FsNode::Directory, workspace_names());
    law_put_then_get::<Vec<String>, FsNode>(e1, tmp_names(), FsNode::Directory, tmp_names());
    law_put_then_get::<Vec<String>, FsNode>(e1, tmp_names(), FsNode::Directory, home_names());
    lemma_put_keeps_tree(e2, home_names(), FsNode::Directory);
    lemma_total_put(e2, home_names(), FsNode::Directory);
    law_put_then_get::<Vec<String>, FsNode>(e2, home_names(), FsNode::Directory, workspace_names());
    law_put_then_get::<Vec<String>, FsNode>(e2, home_names(), FsNode::Directory, tmp_names());
    law_put_then_get::<Vec<String>, FsNode>(e2, home_names(), FsNode::Directory, home_names());
}

/// Putting a node where it keeps the tree and the limits keeps the filesystem in order.
proof fn lemma_put_keeps_sound(f: FsState, names: Names, node: FsNode)
    requires
        sound_fs(f),
        names.len() > 0,
        proper(names),
        node_at(f.entries, names.drop_last()) == Some(FsNode::Directory),
        node_at(f.entries, names) == Some(FsNode::Directory) ==> node is Directory,
        node_at(f.entries, names) is None ==> f.entries.len() < f.limits.max_inodes,
        bytes_after(f, names, node_size(node)) <= f.limits.max_bytes,
    ensures
        sound_fs(FsState { entries: put_node(f.entries, names, node), limits: f.limits }),
{
    lemma_put_keeps_tree(f.entries, names, node);
    lemma_total_put(f.entries, names, node);
    law_put_then_get::<Vec<String>, FsNode>(f.entries, names, node, workspace_names());
    law_put_then_get::<Vec<String>, FsNode>(f.entries, names, node, tmp_names());
    law_put_then_get::<Vec<String>, FsNode>(f.entries, names, node, home_names());
}

impl VirtualFileSystem {
    #[verifier::type_invariant]
    closed spec fn inv(self) -> bool {
        sound_fs(self@)
    }

    /// A new filesystem with the default directories.
    pub fn new(limits: ResourceLimits) -> (r: Result<Self, RuntimeError>)
        ensures
            match r {
                Ok(filesystem) => limits.max_inodes >= 4 && filesystem@ == fresh_fs(limits),
                Err(error) => limits.max_inodes < 4 && error@ == (Trouble::InvalidLimits {
                    resource: "inodes",
                    minimum: 4,
                    actual: limits.max_inodes,
                }),
            },
    {
        if limits.max_inodes < 4 {
            return Err(
                RuntimeError::InvalidLimits {
                    resource: "inodes",
                    minimum: 4,
                    actual: limits.max_inodes,
                },
            );
        }
        let mut entries: OrderedMap<Vec<String>, Node> = OrderedMap::new();
        let ghost e = entries@;
        let root: Vec<String> = Vec::new();
        let workspace = one_name("workspace");
        let tmp = one_name("tmp");
        let home = one_name("home");
        entries.insert(root, Node::Directory);
        proof {
            assert(texts(root@) =~= Seq::<Seq<char>>::empty());
            assert(entries@ =~= seq![(Seq::<Seq<char>>::empty(), Node::Directory)]);
            assert(node_models(entries@) =~= bare_entries());
            lemma_models_put(entries@, workspace_names(), Node::Directory);
        }
        entries.insert(workspace, Node::Directory);
        proof {
            lemma_models_put(entries@, tmp_names(), Node::Directory);
        }
        entries.insert(tmp, Node::Directory);
        proof {
            lemma_models_put(entries@, home_names(), Node::Directory);
        }
        entries.insert(home, Node::Directory);
        proof {
            law_fresh_filesystems_are_sound(limits);
        }
        Ok(VirtualFileSystem { entries, limits })
    }

    /// Some filesystem, to stand in for one whose entries are being changed.
    fn vacant() -> Self {
        VirtualFileSystem::new(ResourceLimits::default()).unwrap()
    }

    /// The filesystem is in order.
    pub fn in_order(&self)
        ensures
            sound_fs(self@),
    {
        proof {
            use_type_invariant(self);
        }
    }

    pub fn inode_count(&self) -> (r: usize)
        ensures
            r == self@.entries.len(),
            r <= self@.limits.max_inodes,
    {
        proof {
            use_type_invariant(self);
        }
        self.entries.len()
    }

    pub fn byte_count(&self) -> (r: usize)
        ensures
            r == total_bytes(self@.entries),
            r <= self@.limits.max_bytes,
    {
        proof {
            use_type_invariant(self);
        }
        let mut total: usize = 0;
        let mut i: usize = 0;
        let ghost all = self@.entries;
        assert(all.take(0) =~= Seq::empty());
        while i < self.entries.len()
            invariant
                i <= self.entries@.len(),
                all == node_models(self.entries@),
                total == total_bytes(all.take(i as int)),
                total_bytes(all) <= usize::MAX,
            decreases self.entries@.len() - i,
        {
            proof {
                assert(all.take(i + 1).drop_last() =~= all.take(i as int));
                assert(all.take(i + 1).last() == all[i as int]);
                lemma_total_prefix(all, i + 1);
            }
            if let Node::File(content) = self.entries.value(i) {
                total = total + content.len();
            }
            i += 1;
        }
        assert(all.take(all.len() as int) =~= all);
        total
    }

    pub fn limits(&self) -> (r: ResourceLimits)
        ensures
            r == self@.limits,
    {
        self.limits
    }

    fn node(&self, names: &Vec<String>) -> (r: Option<&Node>)
        ensures
            match r {
                Some(node) => node_at(self@.entries, texts(names@)) == Some(node@),
                None => node_at(self@.entries, texts(names@)) is None,
            },
    {
        proof {
            lemma_models_lookup(self.entries@, texts(names@));
        }
        self.entries.get(names)
    }

    /// The bytes of the file at `path`.
    pub fn read_file(&self, path: &str) -> (r: Result<Vec<u8>, RuntimeError>)
        ensures
            match r {
                Ok(content) => file_at(self@, path@) == Ok::<Seq<u8>, Trouble>(content@),
                Err(error) => file_at(self@, path@) == Err::<Seq<u8>, Trouble>(error@),
            },
    {
        let names = match normalize_path(path, "/") {
            Ok(names) => names,
            Err(error) => {
                return Err(error);
            },
        };
        match self.node(&names) {
            Some(Node::File(content)) => Ok(copy_bytes(content.as_slice())),
            Some(Node::Directory) => Err(RuntimeError::IsDirectory { path: display_path(&names) }),
            None => Err(RuntimeError::NotFound { path: display_path(&names) }),
        }
    }

    /// The text of the file at `path`.
    pub fn read_text(&self, path: &str) -> (r: Result<String, RuntimeError>)
        ensures
            match r {
                Ok(text) => text_at(self@, path@) == Ok::<Seq<char>, Trouble>(text@),
                Err(error) => text_at(self@, path@) == Err::<Seq<char>, Trouble>(error@),
            },
    {
        let content = match self.read_file(path) {
            Ok(content) => content,
            Err(error) => {
                return Err(error);
            },
        };
        match utf8_text(content.as_slice()) {
            Some(text) => Ok(text),
            None => Err(RuntimeError::InvalidUtf8 { path: path.to_owned() }),
        }
    }

    /// Writes `content` to the file at `path`, in place of what it held.
    pub fn write_file(&mut self, path: &str, content: &[u8]) -> (r: Result<(), RuntimeError>)
        ensures
            (final(self)@, seen(r)) == write_at(old(self)@, path@, content@),
    {
        proof {
            use_type_invariant(&*self);
        }
        let names = match normalize_path(path, "/") {
            Ok(names) => names,
            Err(error) => {
                return Err(error);
            },
        };
        let n: usize = names.len();
        if n == 0 {
            return Err(RuntimeError::IsDirectory { path: "/".to_owned() });
        }
        let ghost f = self@;
        let ghost target = texts(names@);
        let old_size: Option<usize> = match self.node(&names) {
            Some(Node::File(existing)) => Some(existing.len()),
            Some(Node::Directory) => {
                return Err(RuntimeError::IsDirectory { path: display_path(&names) });
            },
            None => None,
        };
        proof {
            lemma_total_bound(f.entries, target);
        }
        let kept: usize = self.byte_count() - match old_size {
            Some(size) => size,
            None => 0,
        };
        if content.len() > self.limits.max_bytes || kept > self.limits.max_bytes - content.len() {
            return Err(
                RuntimeError::QuotaExceeded {
                    resource: "file bytes",
                    limit: self.limits.max_bytes,
                },
            );
        }
        if old_size.is_none() && self.entries.len() >= self.limits.max_inodes {
            return Err(
                RuntimeError::QuotaExceeded { resource: "inodes", limit: self.limits.max_inodes },
            );
        }
        let parent = first_names(&names, n - 1);
        assert(target.take(n - 1) =~= target.drop_last());
        match self.node(&parent) {
            None => {
                return Err(RuntimeError::ParentMissing { path: display_path(&parent) });
            },
            Some(Node::File(_)) => {
                return Err(RuntimeError::NotDirectory { path: display_path(&parent) });
            },
            Some(Node::Directory) => {},
        }
        let node = Node::File(copy_bytes(content));
        proof {
            reveal_strlit("/");
            law_normalized_paths_are_proper(path@, "/"@);
            lemma_models_put(self.entries@, target, node);
            lemma_put_keeps_sound(f, target, node@);
            assert(node@ == FsNode::File(content@));
        }
        let mut taken = VirtualFileSystem::vacant();
        std::mem::swap(&mut taken, self);
        let VirtualFileSystem { mut entries, limits } = taken;
        entries.insert(names, node);
        *self = VirtualFileSystem { entries, limits };
        Ok(())
    }

    /// Makes the directory at `path`, with its parents when `recursive`.
    pub fn mkdir(&mut self, path: &str, recursive: bool) -> (r: Result<(), RuntimeError>)
        ensures
            (final(self)@, seen(r)) == mkdir_at(old(self)@, path@, recursive),
    {
        proof {
            use_type_invariant(&*self);
        }
        let names = match normalize_path(path, "/") {
            Ok(names) => names,
            Err(error) => {
                return Err(error);
            },
        };
        let n: usize = names.len();
        let ghost f = self@;
        let ghost target = texts(names@);
        proof {
            reveal_strlit("/");
            law_normalized_paths_are_proper(path@, "/"@);
            assert(target.take(0) =~= Seq::<Seq<char>>::empty());
        }
        let mut missing: usize = 0;
        let mut found_missing = false;
        while missing < n && !found_missing
            invariant
                missing <= n,
                n == target.len(),
                target == texts(names@),
                f == self@,
                *self == *old(self),
                normalize(path@, "/"@) == Ok::<Names, Trouble>(target),
                node_at(f.entries, target.take(missing as int)) is Some,
                found_missing ==> missing < n && first_missing(f.entries, target, 0) == Ok::<
                    Option<int>,
                    int,
                >(Some(missing as int)) && node_at(f.entries, target.take(missing as int)) == Some(
                    FsNode::Directory,
                ),
                !found_missing ==> first_missing(f.entries, target, 0) == first_missing(
                    f.entries,
                    target,
                    missing as int,
                ),
            decreases n - missing, if found_missing { 0int } else { 1int },
        {
            let here = first_names(&names, missing);
            if let Some(Node::File(_)) = self.node(&here) {
                return Err(RuntimeError::NotDirectory { path: display_path(&here) });
            }
            let below = first_names(&names, missing + 1);
            if self.node(&below).is_none() {
                found_missing = true;
            } else {
                missing = missing + 1;
            }
        }
        if !found_missing {
            assert(target.take(n as int) =~= target);
            if n == 0 {
                return Ok(());
            }
            return match self.node(&names) {
                Some(Node::Directory) => Ok(()),
                _ => Err(RuntimeError::AlreadyExists { path: display_path(&names) }),
            };
        }
        if !recursive && missing + 1 != n {
            return Err(RuntimeError::ParentMissing { path: display_path(&names) });
        }
        if n - missing > self.limits.max_inodes - self.entries.len() {
            return Err(
                RuntimeError::QuotaExceeded { resource: "inodes", limit: self.limits.max_inodes },
            );
        }
        let mut taken = VirtualFileSystem::vacant();
        std::mem::swap(&mut taken, self);
        let VirtualFileSystem { mut entries, limits } = taken;
        let mut depth: usize = missing;
        while depth < n
            invariant
                missing <= depth <= n,
                n == target.len(),
                target == texts(names@),
                proper(target),
                limits == f.limits,
                sound_fs(FsState { entries: node_models(entries@), limits }),
                entries@.len() <= f.entries.len() + (depth - missing),
                f.entries.len() + (n - missing) <= f.limits.max_inodes,
                node_at(node_models(entries@), target.take(depth as int)) == Some(
                    FsNode::Directory,
                ),
                put_directories(node_models(entries@), target, depth as int) == put_directories(
                    f.entries,
                    target,
                    missing as int,
                ),
            decreases n - depth,
        {
            proof {
                let now = FsState { entries: node_models(entries@), limits };
                let names_here = target.take(depth + 1);
                assert(names_here.drop_last() =~= target.take(depth as int));
                assert(proper(names_here)) by {
                    assert forall|i: int| 0 <= i < names_here.len() implies proper_name(
                        #[trigger] names_here[i],
                    ) by {
                        assert(names_here[i] == target[i]);
                    }
                }
                lemma_models_put(entries@, names_here, Node::Directory);
                lemma_total_bound(now.entries, names_here);
                lemma_total_put(now.entries, names_here, FsNode::Directory);
                lemma_put_keeps_sound(now, names_here, FsNode::Directory);
                law_put_then_get::<Vec<String>, FsNode>(
                    now.entries,
                    names_here,
                    FsNode::Directory,
                    names_here,
                );
            }
            let here = first_names(&names, depth + 1);
            entries.insert(here, Node::Directory);
            depth += 1;
        }
        *self = VirtualFileSystem { entries, limits };
        Ok(())
    }

    /// What stands directly below the directory at `path`, in name order.
    pub fn list_dir(&self, path: &str) -> (r: Result<Vec<DirectoryEntry>, RuntimeError>)
        ensures
            match r {
                Ok(entries) => list_at(self@, path@) == Ok::<Seq<Listed>, Trouble>(
                    listed_entries(entries@),
                ),
                Err(error) => list_at(self@, path@) == Err::<Seq<Listed>, Trouble>(error@),
            },
    {
        let names = match normalize_path(path, "/") {
            Ok(names) => names,
            Err(error) => {
                return Err(error);
            },
        };
        match self.node(&names) {
            None => {
                return Err(RuntimeError::NotFound { path: display_path(&names) });
            },
            Some(Node::File(_)) => {
                return Err(RuntimeError::NotDirectory { path: display_path(&names) });
            },
            Some(Node::Directory) => {},
        }
        let ghost all = self@.entries;
        let ghost directory = texts(names@);
        let mut r: Vec<DirectoryEntry> = Vec::new();
        let mut i: usize = 0;
        assert(listed_entries(r@) + children(all, directory, 0) =~= children(all, directory, 0));
        while i < self.entries.len()
            invariant
                i <= self.entries@.len(),
                all == node_models(self.entries@),
                directory == texts(names@),
                listed_entries(r@) + children(all, directory, i as int) == children(
                    all,
                    directory,
                    0,
                ),
            decreases self.entries@.len() - i,
        {
            let key = self.entries.key(i);
            let ghost before = r@;
            if is_child(key, &names) {
                let name = key[key.len() - 1].clone();
                let entry = match self.entries.value(i) {
                    Node::Directory => DirectoryEntry { name, kind: EntryKind::Directory, size: 0 },
                    Node::File(content) => DirectoryEntry {
                        name,
                        kind: EntryKind::File,
                        size: content.len(),
                    },
                };
                r.push(entry);
                assert(entry@ == listed(all[i as int].0.last(), all[i as int].1));
                assert(listed_entries(r@) =~= listed_entries(before).push(entry@));
                assert(listed_entries(r@) + children(all, directory, i + 1) =~= listed_entries(
                    before,
                ) + (seq![entry@] + children(all, directory, i + 1)));
            }
            i += 1;
        }
        assert(listed_entries(r@) + Seq::<Listed>::empty() =~= listed_entries(r@));
        Ok(r)
    }

    /// The entries from the first below the root on, in path order.
    pub fn entry_count(&self) -> (r: usize)
        ensures
            r == self@.entries.len(),
    {
        self.entries.len()
    }

    /// The path and the contents of the entry at `i`; a directory has none.
    pub fn entry(&self, i: usize) -> (r: (&Vec<String>, Option<&Vec<u8>>))
        requires
            i < self@.entries.len(),
        ensures
            texts(r.0@) == self@.entries[i as int].0,
            match r.1 {
                Some(content) => self@.entries[i as int].1 == FsNode::File(content@),
                None => self@.entries[i as int].1 == FsNode::Directory,
            },
    {
        let names = self.entries.key(i);
        match self.entries.value(i) {
            Node::Directory => (names, None),
            Node::File(content) => (names, Some(content)),
        }
    }
}

proof fn lemma_total_prefix(entries: Entries, i: int)
    requires
        0 <= i <= entries.len(),
    ensures
        total_bytes(entries.take(i)) <= total_bytes(entries),
    decreases entries.len(),
{
    if i == entries.len() {
        assert(entries.take(i) =~= entries);
    } else {
        lemma_total_prefix(entries.drop_last(), i);
        assert(entries.drop_last().take(i) =~= entries.take(i));
    }
}

/// One file holds at most the bytes of all files.
proof fn lemma_total_bound(entries: Entries, names: Names)
    ensures
        node_at(entries, names) matches Some(node) ==> node_size(node) <= total_bytes(entries),
{
    lemma_position::<Vec<String>, FsNode>(entries, names);
    if present::<Vec<String>, FsNode>(entries, names) {
        let p = position::<Vec<String>, FsNode>(entries, names);
        lemma_total_prefix(entries, p + 1);
        assert(entries.take(p + 1).last() == entries[p]);
    }
}

fn is_child(names: &Vec<String>, directory: &Vec<String>) -> (r: bool)
    ensures
        r == child_of(texts(names@), texts(directory@)),
{
    let n: usize = directory.len();
    if names.len() == 0 || names.len() - 1 != n {
        return false;
    }
    let mut i: usize = 0;
    let ghost a = texts(names@).drop_last();
    let ghost b = texts(directory@);
    while i < n
        invariant
            i <= n,
            n == directory@.len(),
            names@.len() == n + 1,
            a == texts(names@).drop_last(),
            b == texts(directory@),
            forall|j: int| 0 <= j < i ==> a[j] == b[j],
        decreases n - i,
    {
        if !same_text(names[i].as_str(), directory[i].as_str()) {
            assert(a[i as int] != b[i as int]);
            return false;
        }
        i += 1;
    }
    assert(a =~= b);
    true
}


// ---------------------------------------------------------------------------
// What the operations guarantee
// ---------------------------------------------------------------------------

/// A file that was written reads back as what was written, every other path keeps what it held,
/// and a write that fails changes nothing.
pub proof fn law_write_then_read(f: FsState, path: Seq<char>, content: Seq<u8>, other: Seq<char>)
    requires
        sound_fs(f),
    ensures
        ({
            let (g, outcome) = write_at(f, path, content);
            &&& sound_fs(g)
            &&& outcome is Ok ==> file_at(g, path) == Ok::<Seq<u8>, Trouble>(content)
            &&& outcome is Err ==> g == f
            &&& normalize(other, "/"@) != normalize(path, "/"@) ==> file_at(g, other) == file_at(
                f,
                other,
            )
        }),
{
    reveal_strlit("/");
    law_normalized_paths_are_proper(path, "/"@);
    if let Ok(names) = normalize(path, "/"@) {
        if write_trouble(f, names, content.len()) is None {
            lemma_put_keeps_sound(f, names, FsNode::File(content));
            law_put_then_get::<Vec<String>, FsNode>(
                f.entries,
                names,
                FsNode::File(content),
                names,
            );
            if let Ok(others) = normalize(other, "/"@) {
                law_put_then_get::<Vec<String>, FsNode>(
                    f.entries,
                    names,
                    FsNode::File(content),
                    others,
                );
            }
        }
    }
}

proof fn lemma_node_in_tree(entries: Entries, names: Names)
    requires
        tree(entries),
        names.len() > 0,
        node_at(entries, names) is Some,
    ensures
        proper(names),
        node_at(entries, names.drop_last()) == Some(FsNode::Directory),
{
    let p = position::<Vec<String>, FsNode>(entries, names);
    assert(entries[p].0 == names);
}

proof fn lemma_nothing_below(entries: Entries, names: Names, missing: int, k: int)
    requires
        tree(entries),
        0 <= missing < k <= names.len(),
        node_at(entries, names.take(missing + 1)) is None,
    ensures
        node_at(entries, names.take(k)) is None,
    decreases k,
{
    if node_at(entries, names.take(k)) is Some && k > missing + 1 {
        lemma_node_in_tree(entries, names.take(k));
        assert(names.take(k).drop_last() =~= names.take(k - 1));
        lemma_nothing_below(entries, names, missing, k - 1);
    }
}

proof fn lemma_first_missing(entries: Entries, names: Names, index: int)
    requires
        tree(entries),
        0 <= index <= names.len(),
        node_at(entries, names.take(index)) is Some,
    ensures
        match first_missing(entries, names, index) {
            Ok(Some(missing)) => {
                &&& index <= missing < names.len()
                &&& node_at(entries, names.take(missing)) == Some(FsNode::Directory)
                &&& node_at(entries, names.take(missing + 1)) is None
            },
            Ok(None) => node_at(entries, names) is Some,
            Err(at) => node_at(entries, names) is None && index <= at < names.len(),
        },
    decreases names.len() - index,
{
    if index == names.len() {
        assert(names.take(index) =~= names);
    } else if node_at(entries, names.take(index)) matches Some(FsNode::File(_)) {
        if node_at(entries, names.take(index + 1)) is Some {
            lemma_node_in_tree(entries, names.take(index + 1));
            assert(names.take(index + 1).drop_last() =~= names.take(index));
        }
        lemma_nothing_below(entries, names, index, names.len() as int);
        assert(names.take(names.len() as int) =~= names);
    } else if node_at(entries, names.take(index + 1)) is Some {
        lemma_first_missing(entries, names, index + 1);
    }
}

/// Whether `q` is a prefix of `names` that is longer than `from`.
pub open spec fn made(q: Names, names: Names, from: int) -> bool {
    from < q.len() <= names.len() && q == names.take(q.len() as int)
}

proof fn lemma_put_directories(f: FsState, names: Names, from: int, q: Names)
    requires
        sound_fs(f),
        proper(names),
        0 <= from <= names.len(),
        node_at(f.entries, names.take(from)) == Some(FsNode::Directory),
        f.entries.len() + (names.len() - from) <= f.limits.max_inodes,
    ensures
        ({
            let next = put_directories(f.entries, names, from);
            &&& sound_fs(FsState { entries: next, limits: f.limits })
            &&& node_at(next, q) == if made(q, names, from) {
                Some(FsNode::Directory)
            } else {
                node_at(f.entries, q)
            }
            &&& next.len() <= f.entries.len() + (names.len() - from)
        }),
    decreases names.len() - from,
{
    if from < names.len() {
        let here = names.take(from + 1);
        assert(here.drop_last() =~= names.take(from));
        assert(proper(here)) by {
            assert forall|i: int| 0 <= i < here.len() implies proper_name(#[trigger] here[i]) by {
                assert(here[i] == names[i]);
            }
        }
        lemma_total_bound(f.entries, here);
        lemma_total_put(f.entries, here, FsNode::Directory);
        lemma_put_keeps_sound(f, here, FsNode::Directory);
        law_put_then_get::<Vec<String>, FsNode>(f.entries, here, FsNode::Directory, here);
        law_put_then_get::<Vec<String>, FsNode>(f.entries, here, FsNode::Directory, q);
        let g = FsState { entries: put_node(f.entries, here, FsNode::Directory), limits: f.limits };
        lemma_put_directories(g, names, from + 1, q);
        if made(q, names, from) && q.len() == from + 1 {
            assert(q == here);
        }
    }
}

/// A directory that is there already is left as it is.
pub proof fn law_directories_can_be_made_again(f: FsState, names: Names, recursive: bool)
    requires
        sound_fs(f),
        node_at(f.entries, names) == Some(FsNode::Directory),
    ensures
        mkdir_names(f, names, recursive) == (f, Ok::<(), Trouble>(())),
{
    assert(names.take(0) =~= Seq::<Seq<char>>::empty());
    lemma_first_missing(f.entries, names, 0);
    if let Ok(Some(missing)) = first_missing(f.entries, names, 0) {
        lemma_nothing_below(f.entries, names, missing, names.len() as int);
        assert(names.take(names.len() as int) =~= names);
    }
}

/// A directory that was made is there, every other path keeps what it held, no file is touched,
/// and a failure changes nothing.
pub proof fn law_mkdir_makes_a_directory(
    f: FsState,
    names: Names,
    recursive: bool,
    other: Names,
)
    requires
        sound_fs(f),
        proper(names),
    ensures
        ({
            let (g, outcome) = mkdir_names(f, names, recursive);
            &&& sound_fs(g)
            &&& g.limits == f.limits
            &&& outcome is Ok ==> node_at(g.entries, names) == Some(FsNode::Directory)
            &&& outcome is Err ==> g == f
            &&& node_at(f.entries, other) is Some ==> node_at(g.entries, other) == node_at(
                f.entries,
                other,
            )
            &&& node_at(g.entries, other) != node_at(f.entries, other) ==> node_at(
                g.entries,
                other,
            ) == Some(FsNode::Directory) && made(other, names, 0)
        }),
{
    assert(names.take(0) =~= Seq::<Seq<char>>::empty());
    lemma_first_missing(f.entries, names, 0);
    if names.len() == 0 {
        assert(names =~= Seq::<Seq<char>>::empty());
    }
    if let Ok(Some(missing)) = first_missing(f.entries, names, 0) {
        if f.entries.len() + (names.len() - missing) <= f.limits.max_inodes {
            lemma_put_directories(f, names, missing, other);
            lemma_put_directories(f, names, missing, names);
            assert(names.take(names.len() as int) =~= names);
            if made(other, names, missing) {
                lemma_nothing_below(f.entries, names, missing, other.len() as int);
            }
        }
    }
}

/// On the way to something that is there, nothing is missing.
proof fn lemma_nothing_missing(entries: Entries, names: Names)
    requires
        tree(entries),
        node_at(entries, Seq::<Seq<char>>::empty()) is Some,
        node_at(entries, names) is Some,
    ensures
        first_missing(entries, names, 0) == Ok::<Option<int>, int>(None),
{
    assert(names.take(0) =~= Seq::<Seq<char>>::empty());
    lemma_first_missing(entries, names, 0);
    if let Ok(Some(missing)) = first_missing(entries, names, 0) {
        lemma_nothing_below(entries, names, missing, names.len() as int);
        assert(names.take(names.len() as int) =~= names);
    }
}

/// Making a directory that is already there succeeds and changes nothing.
#[verifier::rlimit(30)]
pub proof fn law_mkdir_accepts_existing_directories(f: FsState, names: Names, recursive: bool)
    requires
        sound_fs(f),
        node_at(f.entries, names) == Some(FsNode::Directory),
    ensures
        mkdir_names(f, names, recursive) == (f, Ok::<(), Trouble>(())),
{
    lemma_nothing_missing(f.entries, names);
}

// ---------------------------------------------------------------------------
// What paths and listings mean
// ---------------------------------------------------------------------------

proof fn lemma_follow_on(parts: Names, more: Names, base: Names)
    ensures
        follow(parts + more, base) == (match follow(parts, base) {
            Some(names) => follow(more, names),
            None => None,
        }),
    decreases parts.len(),
{
    if parts.len() == 0 {
        assert(parts + more =~= more);
    } else {
        let rest = parts.skip(1);
        assert((parts + more).skip(1) =~= rest + more);
        assert((parts + more)[0] == parts[0]);
        lemma_follow_on(rest, more, base);
        if base.len() > 0 {
            lemma_follow_on(rest, more, base.drop_last());
        }
        lemma_follow_on(rest, more, base.push(parts[0]));
    }
}

proof fn lemma_follow_one(name: Seq<char>, base: Names)
    ensures
        follow(seq![name], base) == (if name == ""@ || name == "."@ {
            Some(base)
        } else if name == ".."@ {
            if base.len() == 0 {
                None
            } else {
                Some(base.drop_last())
            }
        } else {
            Some(base.push(name))
        }),
{
    assert(seq![name].skip(1) =~= Seq::<Seq<char>>::empty());
    reveal_with_fuel(follow, 2);
}

/// A path with a name behind a slash leads one step on: down to that name, up for `..` unless it is
/// at the root already, and nowhere for `.` or nothing. Absolute paths do not depend on where one is.
pub proof fn law_paths_lead_step_by_step(path: Seq<char>, name: Seq<char>, cwd: Seq<char>)
    requires
        path.len() > 0,
        path[0] == '/',
        lacks(path, '\0'),
        lacks(name, '/'),
        lacks(name, '\0'),
    ensures
        ({
            let next = normalize(path + "/"@ + name, cwd);
            match normalize(path, cwd) {
                Err(_) => next is Err,
                Ok(names) => if name == ".."@ {
                    if names.len() == 0 {
                        next is Err
                    } else {
                        next == Ok::<Names, Trouble>(names.drop_last())
                    }
                } else if name == "."@ || name == ""@ {
                    next == Ok::<Names, Trouble>(names)
                } else {
                    next == Ok::<Names, Trouble>(names.push(name))
                },
            }
        }),
        normalize(path, cwd) == normalize(path, "/"@),
        normalize("/"@, cwd) == Ok::<Names, Trouble>(Seq::empty()),
{
    reveal_strlit("/");
    reveal_strlit("");
    reveal_strlit(".");
    reveal_strlit("..");
    let whole = path + "/"@ + name;
    assert(whole =~= path + seq!['/'] + name);
    assert(whole[0] == '/');
    assert forall|i: int| 0 <= i < whole.len() implies #[trigger] whole[i] != '\0' by {
        if i < path.len() {
            assert(whole[i] == path[i]);
        } else if i > path.len() {
            assert(whole[i] == name[i - path.len() - 1]);
        }
    }
    lemma_split_append(path, name, '/');
    lemma_find_char_is(name, '/', name.len() as int);
    assert(split_on(name, '/') =~= seq![name]);
    let none = Seq::<Seq<char>>::empty();
    lemma_follow_on(split_on(path, '/'), seq![name], none);
    if let Some(names) = follow(split_on(path, '/'), none) {
        lemma_follow_one(name, names);
    }
    assert("."@.len() != ".."@.len());
    let root = "/"@;
    assert(lacks(root, '\0'));
    let empty = Seq::<char>::empty();
    lemma_find_char_is(empty, '/', 0);
    lemma_find_char_is(root, '/', 0);
    assert(root.take(0) =~= empty);
    assert(root.skip(1) =~= empty);
    assert(split_on(empty, '/') =~= seq![empty]);
    assert(split_on(root, '/') =~= seq![empty] + seq![empty]);
    assert(""@ =~= empty);
    lemma_follow_on(seq![empty], seq![empty], none);
    lemma_follow_one(empty, none);
}

/// A path that is not absolute is seen from the directory one is in.
pub proof fn law_relative_paths_are_seen_from_the_directory(path: Seq<char>, cwd: Seq<char>)
    requires
        path.len() > 0,
        path[0] != '/',
        cwd.len() > 0,
        cwd[0] == '/',
        lacks(cwd, '\0'),
    ensures
        match normalize(cwd + "/"@ + path, "/"@) {
            Ok(names) => normalize(path, cwd) == Ok::<Names, Trouble>(names),
            Err(_) => normalize(path, cwd) is Err,
        },
{
    reveal_strlit("/");
    let whole = cwd + "/"@ + path;
    assert(whole[0] == '/');
    if lacks(path, '\0') {
        assert forall|i: int| 0 <= i < whole.len() implies #[trigger] whole[i] != '\0' by {
            if i < cwd.len() {
                assert(whole[i] == cwd[i]);
            } else if i > cwd.len() {
                assert(whole[i] == path[i - cwd.len() - 1]);
            }
        }
    } else {
        let i = choose|i: int| 0 <= i < path.len() && path[i] == '\0';
        assert(whole[cwd.len() + 1 + i] == '\0');
    }
}

/// A listing shows what stands directly in the directory, and nothing else: each entry by its own
/// name, as a directory or as a file with its size, and in the order of names.
pub proof fn law_listings_show_the_directory(f: FsState, path: Seq<char>, names: Names, name: Seq<char>, i: int)
    requires
        sound_fs(f),
        normalize(path, "/"@) == Ok::<Names, Trouble>(names),
        node_at(f.entries, names) == Some(FsNode::Directory),
    ensures
        list_at(f, path) matches Ok(list) && {
            &&& 0 <= i < list.len() ==> match node_at(f.entries, names.push(list[i].name)) {
                Some(FsNode::File(content)) => list[i].kind == EntryKind::File && list[i].size
                    == content.len(),
                Some(FsNode::Directory) => list[i].kind == EntryKind::Directory && list[i].size == 0,
                None => false,
            }
            &&& node_at(f.entries, names.push(name)) is Some ==> exists|k: int|
                0 <= k < list.len() && (#[trigger] list[k]).name == name
        },
{
    lemma_children(f.entries, names, 0, name, i);
    if node_at(f.entries, names.push(name)) is Some {
        let at = position::<Vec<String>, FsNode>(f.entries, names.push(name));
        assert(f.entries[at].0 == names.push(name));
        assert(names.push(name).drop_last() =~= names);
    }
}

proof fn lemma_children(entries: Entries, directory: Names, index: int, name: Seq<char>, i: int)
    requires
        sorted::<Vec<String>, FsNode>(entries),
        0 <= index <= entries.len(),
    ensures
        ({
            let list = children(entries, directory, index);
            &&& 0 <= i < list.len() ==> (node_at(
                entries,
                directory.push(list[i].name),
            ) matches Some(node) && list[i] == listed(list[i].name, node))
            &&& (exists|k: int|
                index <= k < entries.len() && (#[trigger] entries[k]).0 == directory.push(name))
                ==> exists|k: int| 0 <= k < list.len() && (#[trigger] list[k]).name == name
        }),
    decreases entries.len() - index,
{
    if index < entries.len() {
        let list = children(entries, directory, index);
        let rest = children(entries, directory, index + 1);
        let own = child_of(entries[index].0, directory);
        lemma_children(
            entries,
            directory,
            index + 1,
            name,
            if own {
                i - 1
            } else {
                i
            },
        );
        if own {
            let last = entries[index].0.last();
            assert(directory.push(last) =~= entries[index].0);
            lemma_found::<Vec<String>, FsNode>(entries, index);
            if 0 < i < list.len() {
                assert(list[i] == rest[i - 1]);
            }
            if i == 0 {
                assert(list[0] == listed(last, entries[index].1));
            }
        }
        if exists|k: int| index <= k < entries.len() && (#[trigger] entries[k]).0 == directory.push(
            name,
        ) {
            let k = choose|k: int|
                index <= k < entries.len() && (#[trigger] entries[k]).0 == directory.push(name);
            if k == index {
                assert(directory.push(name).drop_last() =~= directory);
                assert(own);
                assert(list[0].name == name);
            } else {
                assert(entries[k].0 == directory.push(name));
                let j = choose|j: int| 0 <= j < rest.len() && (#[trigger] rest[j]).name == name;
                if own {
                    assert(list[j + 1] == rest[j]);
                    assert(list[j + 1].name == name);
                } else {
                    assert(list[j].name == name);
                }
            }
        }
    }
}

/// A file is written exactly where its directory is there, no directory is in its place, and both
/// quotas allow it. The bytes of all files then change by what the file gained or lost.
pub proof fn law_writes_keep_to_their_quotas(f: FsState, path: Seq<char>, names: Names, content: Seq<u8>)
    requires
        sound_fs(f),
        normalize(path, "/"@) == Ok::<Names, Trouble>(names),
    ensures
        ({
            let (g, outcome) = write_at(f, path, content);
            let held = match node_at(f.entries, names) {
                Some(FsNode::File(before)) => before.len() as int,
                _ => 0,
            };
            let fresh = node_at(f.entries, names) is None;
            &&& outcome is Ok <==> {
                &&& names.len() > 0
                &&& node_at(f.entries, names) != Some(FsNode::Directory)
                &&& node_at(f.entries, names.drop_last()) == Some(FsNode::Directory)
                &&& total_bytes(f.entries) - held + content.len() <= f.limits.max_bytes
                &&& fresh ==> f.entries.len() < f.limits.max_inodes
            }
            &&& outcome is Ok ==> {
                &&& total_bytes(g.entries) == total_bytes(f.entries) - held + content.len()
                &&& g.entries.len() == f.entries.len() + (if fresh {
                    1int
                } else {
                    0int
                })
                &&& g.limits == f.limits
            }
        }),
{
    if write_at(f, path, content).1 is Ok {
        lemma_total_put(f.entries, names, FsNode::File(content));
    }
}

/// A directory is made below one that is there. Without being told to make all that is missing, it is
/// refused where its own directory is missing; nothing is made where a file stands.
pub proof fn law_directories_are_made_below_directories(f: FsState, names: Names, name: Seq<char>)
    requires
        sound_fs(f),
        proper(names.push(name)),
    ensures
        ({
            let whole = names.push(name);
            let (g, outcome) = mkdir_names(f, whole, false);
            &&& node_at(f.entries, names) is None ==> outcome is Err && g == f
            &&& node_at(f.entries, whole) matches Some(FsNode::File(_)) ==> outcome is Err && g == f
                && mkdir_names(f, whole, true).1 is Err
            &&& node_at(f.entries, names) == Some(FsNode::Directory) && node_at(f.entries, whole)
                is None && f.entries.len() < f.limits.max_inodes ==> outcome is Ok && node_at(
                g.entries,
                whole,
            ) == Some(FsNode::Directory)
        }),
{
    let whole = names.push(name);
    let n = names.len() as int;
    assert(whole.take(0) =~= Seq::<Seq<char>>::empty());
    assert(whole.take(n) =~= names);
    assert(whole.take(n + 1) =~= whole);
    lemma_first_missing(f.entries, whole, 0);
    law_mkdir_makes_a_directory(f, whole, false, whole);
    law_mkdir_makes_a_directory(f, whole, true, whole);
    if let Ok(Some(missing)) = first_missing(f.entries, whole, 0) {
        if missing < n {
            lemma_nothing_below(f.entries, whole, missing, n);
        }
    }
    if node_at(f.entries, names) is None {
        if node_at(f.entries, whole) is Some {
            lemma_node_in_tree(f.entries, whole);
            assert(whole.drop_last() =~= names);
        }
    }
    if first_missing(f.entries, whole, 0) is Err && node_at(f.entries, names)
        == Some(FsNode::Directory) {
        lemma_missing_below(f.entries, names, name, 0);
    }
}

proof fn lemma_missing_below(entries: Entries, names: Names, name: Seq<char>, index: int)
    requires
        tree(entries),
        0 <= index <= names.len(),
        node_at(entries, names) == Some(FsNode::Directory),
    ensures
        first_missing(entries, names.push(name), index) is Ok,
    decreases names.len() - index,
{
    let whole = names.push(name);
    assert(whole.take(index) =~= names.take(index));
    lemma_directories_above(entries, names, index);
    if index < names.len() {
        lemma_missing_below(entries, names, name, index + 1);
    } else {
        assert(names.take(index) =~= names);
        assert(first_missing(entries, whole, index + 1) == Ok::<Option<int>, int>(None));
    }
}

proof fn lemma_directories_above(entries: Entries, names: Names, k: int)
    requires
        tree(entries),
        0 <= k <= names.len(),
        node_at(entries, names) == Some(FsNode::Directory),
    ensures
        node_at(entries, names.take(k)) == Some(FsNode::Directory),
    decreases names.len() - k,
{
    if k == names.len() {
        assert(names.take(k) =~= names);
    } else {
        lemma_directories_above(entries, names, k + 1);
        lemma_node_in_tree(entries, names.take(k + 1));
        assert(names.take(k + 1).drop_last() =~= names.take(k));
    }
}

} // verus!
