//! Durable images of guest environments.

use vstd::prelude::*;
#[allow(unused_imports)]
use vstd::utf8::encode_utf8;

#[allow(unused_imports)]
use crate::filesystem::{
    Entries, FsNode, FsState, Names, display, law_fresh_filesystems_are_sound, home_names,
    law_mkdir_accepts_existing_directories, law_mkdir_makes_a_directory,
    law_normalize_undoes_display, law_write_then_read, bytes_after, fresh_fs, made, mkdir_at,
    mkdir_names, node_at, node_size, normalize, proper, put_node, sound_fs, tmp_names, total_bytes,
    tree, workspace_names, write_at, write_trouble, bare_entries,
};
use crate::filesystem::{copy_bytes, first_names};
use crate::ordered::OrderedMap;
#[allow(unused_imports)]
use crate::ordered::{
    OrderedKey, law_put_then_get, law_sorted_entries_are_determined, lemma_found, lemma_not_found,
    lemma_position, lemma_position_is, lemma_with_entry_sorted, lookup, names_before, position,
    present, sorted, text_before, with_entry,
};
use crate::runtime::{Pid, ResourceLimits, RuntimeError, VmInstance, display_path, normalize_path};
#[allow(unused_imports)]
use crate::runtime::{InstanceState, fresh_instance, with_fs};
#[allow(unused_imports)]
use crate::runtime_error::Trouble;
use crate::runtime_error::labelled;
#[allow(unused_imports)]
use crate::text::{ascii_alphanumeric, decimal, texts};
use crate::text::{chars_of, decimal_text, is_ascii_alphanumeric, size_text};

verus! {

pub const MAX_SNAPSHOT_ENTRIES: usize = 4_096;

pub const MAX_SNAPSHOT_ENTRY_PATH_BYTES: usize = 4_096;

pub const MAX_SNAPSHOT_PATH_COMPONENTS: usize = 128;

pub const MAX_SNAPSHOT_BYTES: usize = 64 * 1024 * 1024;

pub const MAX_SNAPSHOT_INODES: usize = 32_768;

pub const MAX_SNAPSHOT_PROCESSES: usize = 512;

pub const MAX_SNAPSHOT_STEPS: usize = 10_000_000;

pub const VM_SNAPSHOT_SCHEMA_VERSION: u32 = 1;

#[derive(Debug, Clone, Copy, PartialEq, Eq, Structural)]
pub enum SnapshotEntryKind {
    Directory,
    File,
}

#[derive(Debug, PartialEq, Eq)]
pub struct SnapshotEntry {
    pub path: String,
    pub kind: SnapshotEntryKind,
    pub bytes: Vec<u8>,
}

#[derive(Debug, PartialEq, Eq)]
pub struct VmSnapshot {
    pub schema_version: u32,
    pub id: String,
    pub limits: ResourceLimits,
    pub entries: Vec<SnapshotEntry>,
}

/// What a [`SnapshotEntry`] says.
#[verifier::ext_equal]
pub struct EntryModel {
    pub path: Seq<char>,
    pub kind: SnapshotEntryKind,
    pub bytes: Seq<u8>,
}

/// What a [`VmSnapshot`] says.
#[verifier::ext_equal]
pub struct SnapshotModel {
    pub schema_version: u32,
    pub id: Seq<char>,
    pub limits: ResourceLimits,
    pub entries: Seq<EntryModel>,
}

impl View for SnapshotEntry {
    type V = EntryModel;

    open spec fn view(&self) -> EntryModel {
        EntryModel { path: self.path@, kind: self.kind, bytes: self.bytes@ }
    }
}

pub open spec fn entry_models(entries: Seq<SnapshotEntry>) -> Seq<EntryModel> {
    Seq::new(entries.len(), |i: int| entries[i]@)
}

impl View for VmSnapshot {
    type V = SnapshotModel;

    open spec fn view(&self) -> SnapshotModel {
        SnapshotModel {
            schema_version: self.schema_version,
            id: self.id@,
            limits: self.limits,
            entries: entry_models(self.entries@),
        }
    }
}

impl Clone for SnapshotEntry {
    fn clone(&self) -> (r: Self)
        ensures
            r@ == self@,
    {
        SnapshotEntry {
            path: self.path.clone(),
            kind: self.kind,
            bytes: copy_bytes(self.bytes.as_slice()),
        }
    }
}

impl Clone for VmSnapshot {
    fn clone(&self) -> (r: Self)
        ensures
            r@ == self@,
    {
        let mut entries: Vec<SnapshotEntry> = Vec::new();
        let mut i: usize = 0;
        while i < self.entries.len()
            invariant
                i <= self.entries@.len(),
                entry_models(entries@) == entry_models(self.entries@).take(i as int),
            decreases self.entries@.len() - i,
        {
            let ghost before = entries@;
            entries.push(self.entries[i].clone());
            assert(entry_models(entries@) =~= entry_models(before).push(self.entries@[i as int]@));
            assert(entry_models(self.entries@).take(i + 1) =~= entry_models(self.entries@).take(
                i as int,
            ).push(self.entries@[i as int]@));
            i += 1;
        }
        assert(entry_models(self.entries@).take(self.entries@.len() as int) =~= entry_models(
            self.entries@,
        ));
        VmSnapshot {
            schema_version: self.schema_version,
            id: self.id.clone(),
            limits: self.limits,
            entries,
        }
    }
}

// ---------------------------------------------------------------------------
// Capturing
// ---------------------------------------------------------------------------

pub open spec fn entry_of(names: Names, node: FsNode) -> EntryModel {
    match node {
        FsNode::Directory => EntryModel {
            path: display(names),
            kind: SnapshotEntryKind::Directory,
            bytes: Seq::empty(),
        },
        FsNode::File(content) => EntryModel {
            path: display(names),
            kind: SnapshotEntryKind::File,
            bytes: content,
        },
    }
}

/// Every path below the root, parents first.
pub open spec fn captured(entries: Entries) -> Seq<EntryModel> {
    Seq::new(
        (entries.len() - 1) as nat,
        |i: int| entry_of(entries[i + 1].0, entries[i + 1].1),
    )
}

/// The image of a guest environment: its files and its limits, without its processes.
pub open spec fn snapshot_of(s: InstanceState) -> SnapshotModel {
    SnapshotModel {
        schema_version: VM_SNAPSHOT_SCHEMA_VERSION,
        id: s.id,
        limits: s.fs.limits,
        entries: captured(s.fs.entries),
    }
}

proof fn lemma_root_first(entries: Entries)
    requires
        tree(entries),
    ensures
        entries.len() > 0,
        entries[0].0 == Seq::<Seq<char>>::empty(),
        entries[0].1 == FsNode::Directory,
        forall|i: int| 0 < i < entries.len() ==> (#[trigger] entries[i]).0.len() > 0,
{
    let root = Seq::<Seq<char>>::empty();
    lemma_position::<Vec<String>, FsNode>(entries, root);
    let p = position::<Vec<String>, FsNode>(entries, root);
    if p > 0 {
        assert(<Vec<String> as OrderedKey>::before(entries[0].0, root));
    }
    assert forall|i: int| 0 < i < entries.len() implies (#[trigger] entries[i]).0.len() > 0 by {
        assert(<Vec<String> as OrderedKey>::before(entries[0].0, entries[i].0));
    }
}

// ---------------------------------------------------------------------------
// Bounds
// ---------------------------------------------------------------------------

pub open spec fn id_char(c: char) -> bool {
    ascii_alphanumeric(c) || c == '.' || c == '_' || c == ':' || c == '@' || c == '-'
}

/// An identifier of at most 128 letters, digits and marks.
pub open spec fn valid_vm_id(id: Seq<char>) -> bool {
    1 <= id.len() <= 128 && forall|i: int| 0 <= i < id.len() ==> id_char(#[trigger] id[i])
}

pub open spec fn invalid(reason: Seq<char>) -> Trouble {
    Trouble::InvalidSnapshot { reason }
}

/// What is wrong with the size of the entries from `index` on, after `total` bytes before them.
pub open spec fn entries_trouble(m: SnapshotModel, index: int, total: int) -> Option<Trouble>
    decreases m.entries.len() - index,
{
    if !(0 <= index < m.entries.len()) {
        None
    } else {
        let entry = m.entries[index];
        let next = total + entry.bytes.len();
        if encode_utf8(entry.path).len() > MAX_SNAPSHOT_ENTRY_PATH_BYTES {
            Some(
                invalid(
                    "snapshot path exceeds "@ + decimal(MAX_SNAPSHOT_ENTRY_PATH_BYTES as nat)
                        + " bytes"@,
                ),
            )
        } else {
            match normalize(entry.path, "/"@) {
                Err(trouble) => Some(trouble),
                Ok(names) => if names.len() > MAX_SNAPSHOT_PATH_COMPONENTS {
                    Some(
                        invalid(
                            "snapshot path exceeds "@ + decimal(MAX_SNAPSHOT_PATH_COMPONENTS as nat)
                                + " components"@,
                        ),
                    )
                } else if next > usize::MAX {
                    Some(invalid("snapshot byte count overflowed"@))
                } else if next > MAX_SNAPSHOT_BYTES || next > m.limits.max_bytes {
                    Some(invalid("snapshot file bytes exceed the configured quota"@))
                } else {
                    entries_trouble(m, index + 1, next)
                },
            }
        }
    }
}

/// What is wrong with a snapshot before any of it is restored.
pub open spec fn bounds_trouble(m: SnapshotModel) -> Option<Trouble> {
    if m.schema_version != VM_SNAPSHOT_SCHEMA_VERSION {
        Some(
            invalid(
                "unsupported VM snapshot schema: expected "@ + decimal(
                    VM_SNAPSHOT_SCHEMA_VERSION as nat,
                ) + " got "@ + decimal(m.schema_version as nat),
            ),
        )
    } else if !valid_vm_id(m.id) {
        Some(invalid("VM id is invalid"@))
    } else if m.entries.len() > MAX_SNAPSHOT_ENTRIES {
        Some(
            invalid(
                "too many filesystem entries: maximum is "@ + decimal(MAX_SNAPSHOT_ENTRIES as nat),
            ),
        )
    } else if m.limits.max_inodes > MAX_SNAPSHOT_INODES {
        Some(
            invalid(
                "inode limit exceeds snapshot maximum: maximum is "@ + decimal(
                    MAX_SNAPSHOT_INODES as nat,
                ),
            ),
        )
    } else if m.limits.max_bytes > MAX_SNAPSHOT_BYTES {
        Some(
            invalid(
                "byte limit exceeds snapshot maximum: maximum is "@ + decimal(
                    MAX_SNAPSHOT_BYTES as nat,
                ),
            ),
        )
    } else if m.limits.max_processes > MAX_SNAPSHOT_PROCESSES {
        Some(
            invalid(
                "process limit exceeds snapshot maximum: maximum is "@ + decimal(
                    MAX_SNAPSHOT_PROCESSES as nat,
                ),
            ),
        )
    } else if m.limits.max_steps > MAX_SNAPSHOT_STEPS {
        Some(
            invalid(
                "step limit exceeds snapshot maximum: maximum is "@ + decimal(
                    MAX_SNAPSHOT_STEPS as nat,
                ),
            ),
        )
    } else {
        entries_trouble(m, 0, 0)
    }
}

pub fn valid_id_text(id: &str) -> (r: bool)
    ensures
        r == valid_vm_id(id@),
{
    let chars = chars_of(id);
    if chars.len() == 0 || chars.len() > 128 {
        return false;
    }
    let mut i: usize = 0;
    while i < chars.len()
        invariant
            i <= chars@.len(),
            chars@ == id@,
            forall|j: int| 0 <= j < i ==> id_char(#[trigger] id@[j]),
        decreases chars@.len() - i,
    {
        let c = chars[i];
        if !(is_ascii_alphanumeric(c) || c == '.' || c == '_' || c == ':' || c == '@' || c == '-') {
            assert(!id_char(id@[i as int]));
            return false;
        }
        i += 1;
    }
    true
}

fn reject(reason: String) -> (r: RuntimeError)
    ensures
        r@ == invalid(reason@),
{
    RuntimeError::InvalidSnapshot { reason }
}

/// Checks a snapshot before any of it is restored.
pub fn validate_snapshot_bounds(snapshot: &VmSnapshot) -> (r: Result<(), RuntimeError>)
    ensures
        match r {
            Ok(_) => bounds_trouble(snapshot@) is None,
            Err(error) => bounds_trouble(snapshot@) == Some(error@),
        },
{
    let ghost m = snapshot@;
    if snapshot.schema_version != VM_SNAPSHOT_SCHEMA_VERSION {
        let mut reason = labelled(
            "unsupported VM snapshot schema: expected ",
            decimal_text(VM_SNAPSHOT_SCHEMA_VERSION as u64).as_str(),
        );
        reason.push_str(" got ");
        reason.push_str(decimal_text(snapshot.schema_version as u64).as_str());
        return Err(reject(reason));
    }
    if !valid_id_text(snapshot.id.as_str()) {
        return Err(reject("VM id is invalid".to_owned()));
    }
    if snapshot.entries.len() > MAX_SNAPSHOT_ENTRIES {
        return Err(
            reject(
                labelled(
                    "too many filesystem entries: maximum is ",
                    size_text(MAX_SNAPSHOT_ENTRIES).as_str(),
                ),
            ),
        );
    }
    if snapshot.limits.max_inodes > MAX_SNAPSHOT_INODES {
        return Err(
            reject(
                labelled(
                    "inode limit exceeds snapshot maximum: maximum is ",
                    size_text(MAX_SNAPSHOT_INODES).as_str(),
                ),
            ),
        );
    }
    if snapshot.limits.max_bytes > MAX_SNAPSHOT_BYTES {
        return Err(
            reject(
                labelled(
                    "byte limit exceeds snapshot maximum: maximum is ",
                    size_text(MAX_SNAPSHOT_BYTES).as_str(),
                ),
            ),
        );
    }
    if snapshot.limits.max_processes > MAX_SNAPSHOT_PROCESSES {
        return Err(
            reject(
                labelled(
                    "process limit exceeds snapshot maximum: maximum is ",
                    size_text(MAX_SNAPSHOT_PROCESSES).as_str(),
                ),
            ),
        );
    }
    if snapshot.limits.max_steps > MAX_SNAPSHOT_STEPS {
        return Err(
            reject(
                labelled(
                    "step limit exceeds snapshot maximum: maximum is ",
                    size_text(MAX_SNAPSHOT_STEPS).as_str(),
                ),
            ),
        );
    }
    let mut total: usize = 0;
    let mut i: usize = 0;
    while i < snapshot.entries.len()
        invariant
            i <= snapshot.entries@.len(),
            m == snapshot@,
            bounds_trouble(m) == entries_trouble(m, i as int, total as int),
        decreases snapshot.entries@.len() - i,
    {
        let entry = &snapshot.entries[i];
        assert(m.entries[i as int] == entry@);
        if entry.path.as_str().as_bytes().len() > MAX_SNAPSHOT_ENTRY_PATH_BYTES {
            let mut reason = labelled(
                "snapshot path exceeds ",
                size_text(MAX_SNAPSHOT_ENTRY_PATH_BYTES).as_str(),
            );
            reason.push_str(" bytes");
            return Err(reject(reason));
        }
        let names = match normalize_path(entry.path.as_str(), "/") {
            Ok(names) => names,
            Err(error) => {
                return Err(error);
            },
        };
        if names.len() > MAX_SNAPSHOT_PATH_COMPONENTS {
            let mut reason = labelled(
                "snapshot path exceeds ",
                size_text(MAX_SNAPSHOT_PATH_COMPONENTS).as_str(),
            );
            reason.push_str(" components");
            return Err(reject(reason));
        }
        total = match total.checked_add(entry.bytes.len()) {
            Some(total) => total,
            None => {
                return Err(reject("snapshot byte count overflowed".to_owned()));
            },
        };
        if total > MAX_SNAPSHOT_BYTES || total > snapshot.limits.max_bytes {
            return Err(
                reject("snapshot file bytes exceed the configured quota".to_owned()),
            );
        }
        i += 1;
    }
    Ok(())
}

// ---------------------------------------------------------------------------
// Restoring
// ---------------------------------------------------------------------------

/// The paths that have been restored, in order.
pub type SeenPaths = Seq<(Seq<char>, ())>;

pub open spec fn was_seen(paths: SeenPaths, path: Seq<char>) -> bool {
    present::<String, ()>(paths, path)
}

/// Restoring one entry.
pub open spec fn restore_entry(f: FsState, names: Names, entry: EntryModel) -> Result<
    FsState,
    Trouble,
> {
    match entry.kind {
        SnapshotEntryKind::Directory => if entry.bytes.len() > 0 {
            Err(invalid("directory entry contains bytes: "@ + entry.path))
        } else {
            match mkdir_at(f, entry.path, true) {
                (g, Ok(_)) => Ok(g),
                (_, Err(trouble)) => Err(trouble),
            }
        },
        SnapshotEntryKind::File => match mkdir_at(f, display(names.drop_last()), true) {
            (_, Err(trouble)) => Err(trouble),
            (g, Ok(_)) => match write_at(g, entry.path, entry.bytes) {
                (h, Ok(_)) => Ok(h),
                (_, Err(trouble)) => Err(trouble),
            },
        },
    }
}

/// Restoring the entries from `index` on into `f`, after the paths in `paths`.
pub open spec fn restore_from(
    f: FsState,
    entries: Seq<EntryModel>,
    index: int,
    paths: SeenPaths,
) -> Result<FsState, Trouble>
    decreases entries.len() - index,
{
    if !(0 <= index < entries.len()) {
        Ok(f)
    } else {
        let entry = entries[index];
        match normalize(entry.path, "/"@) {
            Err(trouble) => Err(trouble),
            Ok(names) => if names.len() == 0 || was_seen(paths, display(names)) {
                Err(invalid("duplicate or root snapshot entry: "@ + entry.path))
            } else {
                match restore_entry(f, names, entry) {
                    Err(trouble) => Err(trouble),
                    Ok(g) => restore_from(
                        g,
                        entries,
                        index + 1,
                        with_entry::<String, ()>(paths, display(names), ()),
                    ),
                }
            },
        }
    }
}

/// The environment that a snapshot denotes: its files, and no processes.
pub open spec fn restored(m: SnapshotModel) -> Result<InstanceState, Trouble> {
    match bounds_trouble(m) {
        Some(trouble) => Err(trouble),
        None => if m.limits.max_inodes < 4 {
            Err(
                Trouble::InvalidLimits {
                    resource: "inodes",
                    minimum: 4,
                    actual: m.limits.max_inodes,
                },
            )
        } else {
            match restore_from(fresh_fs(m.limits), m.entries, 0, Seq::empty()) {
                Ok(f) => Ok(with_fs(fresh_instance(m.id, m.limits), f)),
                Err(trouble) => Err(trouble),
            }
        },
    }
}

impl VmInstance {
    /// Capture durable guest state. Live process queues and instruction
    /// counters are intentionally excluded because they cannot be resumed
    /// safely across a service restart.
    pub fn snapshot(&self) -> (r: VmSnapshot)
        ensures
            r@ == snapshot_of(self@),
    {
        let filesystem = self.filesystem();
        filesystem.in_order();
        let ghost all = self@.fs.entries;
        proof {
            lemma_root_first(all);
        }
        let mut entries: Vec<SnapshotEntry> = Vec::new();
        let mut i: usize = 1;
        while i < filesystem.entry_count()
            invariant
                1 <= i <= all.len(),
                all == filesystem@.entries,
                entry_models(entries@) == captured(all).take(i - 1),
            decreases all.len() - i,
        {
            let (names, content) = filesystem.entry(i);
            let path = display_path(names);
            let entry = match content {
                None => SnapshotEntry {
                    path,
                    kind: SnapshotEntryKind::Directory,
                    bytes: Vec::new(),
                },
                Some(bytes) => SnapshotEntry {
                    path,
                    kind: SnapshotEntryKind::File,
                    bytes: copy_bytes(bytes.as_slice()),
                },
            };
            let ghost before = entries@;
            entries.push(entry);
            proof {
                assert(entry@ =~= entry_of(all[i as int].0, all[i as int].1));
                assert(entry_models(entries@) =~= entry_models(before).push(entry@));
                assert(captured(all).take(i as int) =~= captured(all).take(i - 1).push(
                    captured(all)[i - 1],
                ));
            }
            i += 1;
        }
        assert(captured(all).take(all.len() - 1) =~= captured(all));
        VmSnapshot {
            schema_version: VM_SNAPSHOT_SCHEMA_VERSION,
            id: self.id().to_owned(),
            limits: self.limits(),
            entries,
        }
    }

    /// The environment that a snapshot denotes.
    pub fn from_snapshot(snapshot: VmSnapshot) -> (r: Result<Self, RuntimeError>)
        ensures
            match r {
                Ok(vm) => restored(snapshot@) == Ok::<InstanceState, Trouble>(vm@),
                Err(error) => restored(snapshot@) == Err::<InstanceState, Trouble>(error@),
            },
    {
        if let Err(error) = validate_snapshot_bounds(&snapshot) {
            return Err(error);
        }
        let ghost m = snapshot@;
        let mut vm = match VmInstance::with_limits(snapshot.id.as_str(), snapshot.limits) {
            Ok(vm) => vm,
            Err(error) => {
                return Err(error);
            },
        };
        let ghost start = vm@;
        let mut paths: OrderedMap<String, ()> = OrderedMap::new();
        let mut i: usize = 0;
        while i < snapshot.entries.len()
            invariant
                i <= snapshot.entries@.len(),
                m == snapshot@,
                start == fresh_instance(m.id, m.limits),
                vm@ == with_fs(start, vm@.fs),
                bounds_trouble(m) is None,
                m.limits.max_inodes >= 4,
                restore_from(vm@.fs, m.entries, i as int, paths@) == restore_from(
                    fresh_fs(m.limits),
                    m.entries,
                    0,
                    Seq::empty(),
                ),
            decreases snapshot.entries@.len() - i,
        {
            let entry = &snapshot.entries[i];
            assert(m.entries[i as int] == entry@);
            let names = match normalize_path(entry.path.as_str(), "/") {
                Ok(names) => names,
                Err(error) => {
                    return Err(error);
                },
            };
            let path = display_path(&names);
            if names.len() == 0 || paths.contains(&path) {
                return Err(
                    reject(labelled("duplicate or root snapshot entry: ", entry.path.as_str())),
                );
            }
            paths.insert(path, ());
            match entry.kind {
                SnapshotEntryKind::Directory => {
                    if entry.bytes.len() > 0 {
                        return Err(
                            reject(
                                labelled("directory entry contains bytes: ", entry.path.as_str()),
                            ),
                        );
                    }
                    if let Err(error) = vm.mkdir(entry.path.as_str(), true) {
                        return Err(error);
                    }
                },
                SnapshotEntryKind::File => {
                    let parent = first_names(&names, names.len() - 1);
                    assert(texts(names@).take(names@.len() - 1) =~= texts(names@).drop_last());
                    if let Err(error) = vm.mkdir(display_path(&parent).as_str(), true) {
                        return Err(error);
                    }
                    if let Err(error) = vm.write_file(entry.path.as_str(), entry.bytes.as_slice()) {
                        return Err(error);
                    }
                },
            }
            i += 1;
        }
        Ok(vm)
    }
}

// ---------------------------------------------------------------------------
// Snapshots read back
// ---------------------------------------------------------------------------

/// Whether every entry of `a` is also in `b`.
spec fn included(a: Entries, b: Entries) -> bool {
    forall|q: Names| #[trigger] node_at(a, q) is Some ==> node_at(b, q) == node_at(a, q)
}

proof fn lemma_sorted_drop_last(a: Entries)
    requires
        sorted::<Vec<String>, FsNode>(a),
        a.len() > 0,
    ensures
        sorted::<Vec<String>, FsNode>(a.drop_last()),
        forall|q: Names|
            #[trigger] node_at(a.drop_last(), q) == if q == a.last().0 {
                None
            } else {
                node_at(a, q)
            },
{
    let c = a.drop_last();
    assert forall|x: int, y: int| 0 <= x < y < c.len() implies <Vec<String> as OrderedKey>::before(
        (#[trigger] c[x]).0,
        (#[trigger] c[y]).0,
    ) by {
        assert(c[x] == a[x] && c[y] == a[y]);
    }
    assert forall|q: Names| #[trigger] node_at(c, q) == if q == a.last().0 {
        None
    } else {
        node_at(a, q)
    } by {
        if present::<Vec<String>, FsNode>(a, q) && q != a.last().0 {
            let p = position::<Vec<String>, FsNode>(a, q);
            assert(c[p] == a[p]);
            lemma_found::<Vec<String>, FsNode>(c, p);
        } else {
            assert forall|i: int| 0 <= i < c.len() implies (#[trigger] c[i]).0 != q by {
                if c[i].0 == q {
                    assert(a[i] == c[i]);
                    lemma_found::<Vec<String>, FsNode>(a, i);
                    lemma_found::<Vec<String>, FsNode>(a, a.len() - 1);
                }
            }
            lemma_not_found::<Vec<String>, FsNode>(c, q);
        }
    }
}

/// A part is not larger than the whole.
proof fn lemma_included_size(a: Entries, b: Entries)
    requires
        sorted::<Vec<String>, FsNode>(a),
        sorted::<Vec<String>, FsNode>(b),
        included(a, b),
    ensures
        a.len() <= b.len(),
        total_bytes(a) <= total_bytes(b),
    decreases b.len(),
{
    if b.len() == 0 {
        if a.len() > 0 {
            lemma_found::<Vec<String>, FsNode>(a, 0);
            assert(node_at(a, a[0].0) is Some);
        }
    } else {
        let last = b.last();
        lemma_found::<Vec<String>, FsNode>(b, b.len() - 1);
        lemma_sorted_drop_last(b);
        if node_at(a, last.0) is Some {
            let p = position::<Vec<String>, FsNode>(a, last.0);
            if p < a.len() - 1 {
                lemma_found::<Vec<String>, FsNode>(a, a.len() - 1);
                let top = a.last().0;
                assert(node_at(a, top) is Some);
                let q = position::<Vec<String>, FsNode>(b, top);
                assert(b[q].0 == top);
                assert(<Vec<String> as OrderedKey>::before(last.0, top));
                if q < b.len() - 1 {
                    assert(<Vec<String> as OrderedKey>::before(b[q].0, last.0));
                    <Vec<String> as OrderedKey>::lemma_transitive(top, last.0, top);
                }
                <Vec<String> as OrderedKey>::lemma_irreflexive(top);
            }
            assert(a.last() == last);
            lemma_sorted_drop_last(a);
            assert(included(a.drop_last(), b.drop_last())) by {
                assert forall|q: Names| #[trigger]
                    node_at(a.drop_last(), q) is Some implies node_at(b.drop_last(), q) == node_at(
                    a.drop_last(),
                    q,
                ) by {
                    assert(node_at(a, q) is Some);
                    assert(node_at(b.drop_last(), q) == node_at(b, q));
                }
            }
            lemma_included_size(a.drop_last(), b.drop_last());
        } else {
            assert(included(a, b.drop_last())) by {
                assert forall|q: Names| #[trigger] node_at(a, q) is Some implies node_at(
                    b.drop_last(),
                    q,
                ) == node_at(a, q) by {
                    assert(q != last.0);
                    assert(node_at(b.drop_last(), q) == node_at(b, q));
                }
            }
            lemma_included_size(a, b.drop_last());
        }
    }
}

/// A part that lacks a path leaves room for what stands there.
proof fn lemma_included_room(a: Entries, b: Entries, names: Names)
    requires
        sorted::<Vec<String>, FsNode>(a),
        sorted::<Vec<String>, FsNode>(b),
        included(a, b),
        node_at(a, names) is None,
        node_at(b, names) is Some,
    ensures
        a.len() < b.len(),
        total_bytes(a) + node_size(node_at(b, names)->0) <= total_bytes(b),
{
    let node = node_at(b, names)->0;
    let c = put_node(a, names, node);
    crate::filesystem::lemma_total_put(a, names, node);
    crate::ordered::lemma_with_entry_sorted::<Vec<String>, FsNode>(a, names, node);
    assert(included(c, b)) by {
        assert forall|q: Names| #[trigger] node_at(c, q) is Some implies node_at(b, q) == node_at(
            c,
            q,
        ) by {
            law_put_then_get::<Vec<String>, FsNode>(a, names, node, q);
            if q != names {
                assert(node_at(a, q) is Some);
            }
        }
    }
    lemma_included_size(c, b);
}

proof fn lemma_prefix_before(names: Names, n: int)
    requires
        0 <= n < names.len(),
    ensures
        names_before(names.take(n), names),
    decreases n,
{
    if n > 0 {
        assert(names.take(n)[0] == names[0]);
        assert(names.take(n).skip(1) =~= names.skip(1).take(n - 1));
        lemma_prefix_before(names.skip(1), n - 1);
    }
}

proof fn lemma_ancestors(entries: Entries, names: Names, n: int)
    requires
        tree(entries),
        node_at(entries, names) is Some,
        0 <= n < names.len(),
    ensures
        node_at(entries, names.take(n)) == Some(FsNode::Directory),
    decreases names.len(),
{
    let p = position::<Vec<String>, FsNode>(entries, names);
    assert(entries[p].0 == names);
    let parent = names.drop_last();
    assert(node_at(entries, parent) == Some(FsNode::Directory));
    if n < names.len() - 1 {
        lemma_ancestors(entries, parent, n);
        assert(parent.take(n) =~= names.take(n));
    } else {
        assert(names.take(n) =~= parent);
    }
}

/// What has been restored of `all` once the entries before `k` have been: a part of it that holds
/// those entries and the default directories.
spec fn partly_restored(cur: FsState, all: FsState, k: int) -> bool {
    &&& sound_fs(cur)
    &&& cur.limits == all.limits
    &&& included(cur.entries, all.entries)
    &&& forall|j: int|
        0 <= j < k ==> node_at(cur.entries, (#[trigger] all.entries[j]).0) == Some(all.entries[j].1)
}

#[verifier::rlimit(40)]
proof fn lemma_restore_step(cur: FsState, all: FsState, k: int)
    requires
        sound_fs(all),
        1 <= k < all.entries.len(),
        partly_restored(cur, all, k),
    ensures
        ({
            let names = all.entries[k].0;
            let entry = entry_of(names, all.entries[k].1);
            &&& normalize(entry.path, "/"@) == Ok::<Names, Trouble>(names)
            &&& names.len() > 0
            &&& restore_entry(cur, names, entry) matches Ok(g) && partly_restored(g, all, k + 1)
        }),
{
    let e = all.entries;
    let names = e[k].0;
    let node = e[k].1;
    lemma_root_first(e);
    lemma_found::<Vec<String>, FsNode>(e, k);
    law_normalize_undoes_display(names, "/"@);
    let parent = names.drop_last();
    assert(node_at(e, parent) == Some(FsNode::Directory));
    let pp = position::<Vec<String>, FsNode>(e, parent);
    assert(e[pp].0 == parent);
    assert(parent =~= names.take(names.len() - 1));
    lemma_prefix_before(names, names.len() - 1);
    if pp >= k {
        if pp > k {
            <Vec<String> as OrderedKey>::lemma_transitive(names, parent, names);
        }
        <Vec<String> as OrderedKey>::lemma_irreflexive(names);
    }
    assert(node_at(cur.entries, parent) == Some(e[pp].1));
    lemma_found::<Vec<String>, FsNode>(e, pp);
    let entry = entry_of(names, node);
    match node {
        FsNode::Directory => {
            if node_at(cur.entries, names) is Some {
                assert(node_at(cur.entries, names) == node_at(e, names));
                law_mkdir_accepts_existing_directories(cur, names, true);
            } else {
                lemma_included_room(cur.entries, e, names);
                assert(names.take(0) =~= Seq::<Seq<char>>::empty());
                lemma_missing_last(cur, names);
                let (g, outcome) = mkdir_names(cur, names, true);
                assert(outcome is Ok);
                assert forall|q: Names| #[trigger] node_at(g.entries, q) is Some implies node_at(
                    e,
                    q,
                ) == node_at(g.entries, q) by {
                    law_mkdir_makes_a_directory(cur, names, true, q);
                    if node_at(g.entries, q) != node_at(cur.entries, q) {
                        if q.len() < names.len() {
                            lemma_ancestors(e, names, q.len() as int);
                        } else {
                            assert(names.take(names.len() as int) =~= names);
                        }
                    } else {
                        assert(node_at(cur.entries, q) is Some);
                    }
                }
                assert forall|j: int| 0 <= j < k + 1 implies node_at(
                    g.entries,
                    (#[trigger] e[j]).0,
                ) == Some(e[j].1) by {
                    law_mkdir_makes_a_directory(cur, names, true, e[j].0);
                }
                law_mkdir_makes_a_directory(cur, names, true, names);
            }
        },
        FsNode::File(content) => {
            assert(proper(parent));
            law_normalize_undoes_display(parent, "/"@);
            law_mkdir_accepts_existing_directories(cur, parent, true);
            if node_at(cur.entries, names) is Some {
                assert(node_at(cur.entries, names) == node_at(e, names));
            }
            let (g, outcome) = write_at(cur, entry.path, entry.bytes);
            if node_at(cur.entries, names) is None {
                lemma_included_room(cur.entries, e, names);
            }
            assert(write_trouble(cur, names, content.len()) is None);
            law_write_then_read(cur, entry.path, content, entry.path);
            assert(g.entries == put_node(cur.entries, names, node));
            assert forall|q: Names| #[trigger] node_at(g.entries, q) is Some implies node_at(e, q)
                == node_at(g.entries, q) by {
                law_put_then_get::<Vec<String>, FsNode>(cur.entries, names, node, q);
                if q != names {
                    assert(node_at(cur.entries, q) is Some);
                }
            }
            assert forall|j: int| 0 <= j < k + 1 implies node_at(
                g.entries,
                (#[trigger] e[j]).0,
            ) == Some(e[j].1) by {
                law_put_then_get::<Vec<String>, FsNode>(cur.entries, names, node, e[j].0);
                if j < k {
                    lemma_found::<Vec<String>, FsNode>(e, j);
                }
            }
        },
    }
}

/// When the parent of a path is there and the path is not, only its last name is missing.
proof fn lemma_missing_last(f: FsState, names: Names)
    requires
        sound_fs(f),
        names.len() > 0,
        node_at(f.entries, names) is None,
        node_at(f.entries, names.drop_last()) == Some(FsNode::Directory),
    ensures
        crate::filesystem::first_missing(f.entries, names, 0) == Ok::<Option<int>, int>(
            Some(names.len() - 1),
        ),
{
    lemma_missing_from(f, names, 0);
}

proof fn lemma_missing_from(f: FsState, names: Names, index: int)
    requires
        sound_fs(f),
        0 <= index < names.len(),
        node_at(f.entries, names) is None,
        node_at(f.entries, names.drop_last()) == Some(FsNode::Directory),
    ensures
        crate::filesystem::first_missing(f.entries, names, index) == Ok::<Option<int>, int>(
            Some(names.len() - 1),
        ),
    decreases names.len() - index,
{
    let parent = names.drop_last();
    assert(names.take(names.len() as int) =~= names);
    assert(names.take(names.len() - 1) =~= parent);
    if index < names.len() - 1 {
        lemma_ancestors(f.entries, parent, index);
        assert(parent.take(index) =~= names.take(index));
        if index + 1 < parent.len() {
            lemma_ancestors(f.entries, parent, index + 1);
            assert(parent.take(index + 1) =~= names.take(index + 1));
        }
        lemma_missing_from(f, names, index + 1);
    }
}

/// The paths seen once the entries before `k` have been restored.
spec fn seen_before(paths: SeenPaths, all: FsState, k: int) -> bool {
    &&& sorted::<String, ()>(paths)
    &&& forall|path: Seq<char>|
        was_seen(paths, path) ==> exists|j: int|
            1 <= j < k && path == display((#[trigger] all.entries[j]).0)
}

#[verifier::spinoff_prover]
#[verifier::rlimit(40)]
proof fn lemma_restore_all(cur: FsState, all: FsState, k: int, paths: SeenPaths)
    requires
        sound_fs(all),
        1 <= k <= all.entries.len(),
        partly_restored(cur, all, k),
        seen_before(paths, all, k),
    ensures
        restore_from(cur, captured(all.entries), k - 1, paths) == Ok::<FsState, Trouble>(all),
    decreases all.entries.len() - k,
{
    let e = all.entries;
    if k == e.len() {
        assert forall|q: Names| #[trigger]
            lookup::<Vec<String>, FsNode>(cur.entries, q) == lookup::<Vec<String>, FsNode>(e, q) by {
            if node_at(cur.entries, q) is None && node_at(e, q) is Some {
                let p = position::<Vec<String>, FsNode>(e, q);
                assert(e[p].0 == q);
            }
            if node_at(cur.entries, q) is Some {
                assert(node_at(e, q) == node_at(cur.entries, q));
            }
        }
        law_sorted_entries_are_determined::<Vec<String>, FsNode>(cur.entries, e);
        assert(cur =~= all);
    } else {
        lemma_restore_step(cur, all, k);
        lemma_root_first(e);
        let names = e[k].0;
        let entry = entry_of(names, e[k].1);
        assert(captured(e)[k - 1] == entry);
        let path = display(names);
        if was_seen(paths, path) {
            let j = choose|j: int| 1 <= j < k && path == display((#[trigger] e[j]).0);
            law_normalize_undoes_display(names, "/"@);
            law_normalize_undoes_display(e[j].0, "/"@);
            lemma_found::<Vec<String>, FsNode>(e, j);
            lemma_found::<Vec<String>, FsNode>(e, k);
        }
        let g = restore_entry(cur, names, entry)->Ok_0;
        let later = with_entry::<String, ()>(paths, path, ());
        crate::ordered::lemma_with_entry_sorted::<String, ()>(paths, path, ());
        assert forall|other: Seq<char>| was_seen(later, other) implies exists|j: int|
            1 <= j < k + 1 && other == display((#[trigger] e[j]).0) by {
            law_put_then_get::<String, ()>(paths, path, (), other);
            if other == path {
                assert(other == display(e[k].0));
            } else {
                assert(was_seen(paths, other));
                let j = choose|j: int| 1 <= j < k && other == display((#[trigger] e[j]).0);
                assert(other == display(e[j].0));
            }
        }
        lemma_restore_all(g, all, k + 1, later);
    }
}

/// Restoring the snapshot of an environment gives its files, limits and name back, and no
/// processes, provided that the environment keeps to what a snapshot may hold.
pub proof fn law_snapshots_read_back(s: InstanceState)
    requires
        sound_fs(s.fs),
        bounds_trouble(snapshot_of(s)) is None,
    ensures
        restored(snapshot_of(s)) == Ok::<InstanceState, Trouble>(
            InstanceState {
                id: s.id,
                fs: s.fs,
                processes: Seq::empty(),
                runnable: Seq::empty(),
                ticks: 0,
            },
        ),
{
    let all = s.fs;
    let e = all.entries;
    let limits = all.limits;
    lemma_root_first(e);
    lemma_at_least_four(all);
    law_fresh_filesystems_are_sound(limits);
    let cur = fresh_fs(limits);
    lemma_fresh_lookup(limits);
    assert(included(cur.entries, e)) by {
        assert forall|q: Names| #[trigger] node_at(cur.entries, q) is Some implies node_at(e, q)
            == node_at(cur.entries, q) by {}
    }
    lemma_found::<Vec<String>, FsNode>(e, 0);
    assert(partly_restored(cur, all, 1));
    let none: SeenPaths = Seq::empty();
    assert(seen_before(none, all, 1)) by {
        assert forall|path: Seq<char>| was_seen(none, path) implies exists|j: int|
            1 <= j < 1 && path == display((#[trigger] e[j]).0) by {
            lemma_not_found::<String, ()>(none, path);
        }
    }
    lemma_restore_all(cur, all, 1, none);
    assert(snapshot_of(s).entries == captured(e));
}

/// The only paths of a new filesystem are the root and the default directories.
proof fn lemma_fresh_lookup(limits: ResourceLimits)
    ensures
        forall|q: Names|
            #[trigger] node_at(fresh_fs(limits).entries, q) is Some ==> node_at(
                fresh_fs(limits).entries,
                q,
            ) == Some(FsNode::Directory) && (q == Seq::<Seq<char>>::empty() || q
                == workspace_names() || q == tmp_names() || q == home_names()),
{
    let e0 = bare_entries();
    let e1 = put_node(e0, workspace_names(), FsNode::Directory);
    let e2 = put_node(e1, tmp_names(), FsNode::Directory);
    assert(sorted::<Vec<String>, FsNode>(e0));
    crate::ordered::lemma_with_entry_sorted::<Vec<String>, FsNode>(
        e0,
        workspace_names(),
        FsNode::Directory,
    );
    crate::ordered::lemma_with_entry_sorted::<Vec<String>, FsNode>(
        e1,
        tmp_names(),
        FsNode::Directory,
    );
    assert forall|q: Names| #[trigger]
        node_at(fresh_fs(limits).entries, q) is Some implies node_at(fresh_fs(limits).entries, q)
        == Some(FsNode::Directory) && (q == Seq::<Seq<char>>::empty() || q == workspace_names() || q
        == tmp_names() || q == home_names()) by {
        law_put_then_get::<Vec<String>, FsNode>(e0, workspace_names(), FsNode::Directory, q);
        law_put_then_get::<Vec<String>, FsNode>(e1, tmp_names(), FsNode::Directory, q);
        law_put_then_get::<Vec<String>, FsNode>(e2, home_names(), FsNode::Directory, q);
        if q != Seq::<Seq<char>>::empty() {
            lemma_not_found::<Vec<String>, FsNode>(e0, q);
        } else {
            lemma_found::<Vec<String>, FsNode>(e0, 0);
        }
    }
}

/// A filesystem in order holds at least the root and the default directories.
proof fn lemma_at_least_four(f: FsState)
    requires
        sound_fs(f),
    ensures
        f.limits.max_inodes >= 4,
{
    let roomy = ResourceLimits { max_inodes: 4, ..f.limits };
    law_fresh_filesystems_are_sound(roomy);
    lemma_fresh_lookup(roomy);
    let cur = fresh_fs(roomy);
    assert(included(cur.entries, f.entries)) by {
        assert forall|q: Names| #[trigger] node_at(cur.entries, q) is Some implies node_at(
            f.entries,
            q,
        ) == node_at(cur.entries, q) by {}
    }
    lemma_included_size(cur.entries, f.entries);
}

/// The bounds of a snapshot: what is within them all, with no entries, is accepted, and what is
/// beyond one of them is refused.
pub proof fn law_snapshots_are_bounded(m: SnapshotModel, i: int)
    ensures
        bounds_trouble(m) is None ==> {
            &&& m.schema_version == 1
            &&& 1 <= m.id.len() <= 128
            &&& m.entries.len() <= 4_096
            &&& m.limits.max_inodes <= 32_768
            &&& m.limits.max_bytes <= 67_108_864
            &&& m.limits.max_processes <= 512
            &&& m.limits.max_steps <= 10_000_000
        },
        m.schema_version == 1 && 1 <= m.id.len() <= 128 && (forall|k: int|
            0 <= k < m.id.len() ==> 'a' <= #[trigger] m.id[k] <= 'z') && m.limits.max_inodes
            <= 32_768 && m.limits.max_bytes <= 67_108_864 && m.limits.max_processes <= 512
            && m.limits.max_steps <= 10_000_000 && m.entries.len() == 0 ==> bounds_trouble(m)
            is None,
        bounds_trouble(m) is None && 0 <= i < m.id.len() ==> m.id[i] != '/' && m.id[i] != '\\'
            && m.id[i] != ' ' && m.id[i] != '\n',
        bounds_trouble(m) is None && 0 <= i < m.entries.len() ==> encode_utf8(
            m.entries[i].path,
        ).len() <= 4_096 && normalize(m.entries[i].path, "/"@) is Ok
            && m.entries[i].bytes.len() <= m.limits.max_bytes,
{
    if bounds_trouble(m) is None {
        lemma_entries_bounded(m, 0, 0, i);
        if 0 <= i < m.id.len() {
            assert(id_char(m.id[i]));
        }
    }
    if forall|k: int| 0 <= k < m.id.len() ==> 'a' <= #[trigger] m.id[k] <= 'z' {
        assert forall|k: int| 0 <= k < m.id.len() implies id_char(#[trigger] m.id[k]) by {
            assert('a' <= m.id[k] <= 'z');
        }
    }
}

proof fn lemma_entries_bounded(m: SnapshotModel, index: int, total: int, i: int)
    requires
        0 <= index,
        0 <= total,
        entries_trouble(m, index, total) is None,
    ensures
        index <= i < m.entries.len() ==> encode_utf8(m.entries[i].path).len() <= 4_096 && normalize(
            m.entries[i].path,
            "/"@,
        ) is Ok && m.entries[i].bytes.len() <= m.limits.max_bytes,
    decreases m.entries.len() - index,
{
    if index < m.entries.len() {
        lemma_entries_bounded(m, index + 1, total + m.entries[index].bytes.len(), i);
    }
}

proof fn lemma_seen_again(
    f: FsState,
    entries: Seq<EntryModel>,
    index: int,
    paths: SeenPaths,
    names: Names,
    j: int,
)
    requires
        sorted::<String, ()>(paths),
        0 <= index <= j < entries.len(),
        normalize(entries[j].path, "/"@) == Ok::<Names, Trouble>(names),
        was_seen(paths, display(names)) || names.len() == 0 || entries[j].kind
            == SnapshotEntryKind::Directory && entries[j].bytes.len() > 0,
    ensures
        restore_from(f, entries, index, paths) is Err,
    decreases entries.len() - index,
{
    if index < j {
        if let Ok(next) = normalize(entries[index].path, "/"@) {
            if let Ok(g) = restore_entry(f, next, entries[index]) {
                lemma_with_entry_sorted::<String, ()>(paths, display(next), ());
                law_put_then_get::<String, ()>(paths, display(next), (), display(names));
                lemma_seen_again(
                    g,
                    entries,
                    index + 1,
                    with_entry::<String, ()>(paths, display(next), ()),
                    names,
                    j,
                );
            }
        }
    }
}

proof fn lemma_twice(
    f: FsState,
    entries: Seq<EntryModel>,
    index: int,
    paths: SeenPaths,
    names: Names,
    i: int,
    j: int,
)
    requires
        sorted::<String, ()>(paths),
        0 <= index <= i < j < entries.len(),
        normalize(entries[i].path, "/"@) == Ok::<Names, Trouble>(names),
        normalize(entries[j].path, "/"@) == Ok::<Names, Trouble>(names),
    ensures
        restore_from(f, entries, index, paths) is Err,
    decreases entries.len() - index,
{
    if let Ok(next) = normalize(entries[index].path, "/"@) {
        if let Ok(g) = restore_entry(f, next, entries[index]) {
            let more = with_entry::<String, ()>(paths, display(next), ());
            lemma_with_entry_sorted::<String, ()>(paths, display(next), ());
            if index == i {
                law_put_then_get::<String, ()>(paths, display(next), (), display(names));
                lemma_seen_again(g, entries, index + 1, more, names, j);
            } else {
                lemma_twice(g, entries, index + 1, more, names, i, j);
            }
        }
    }
}

/// A snapshot that names a path twice, names the root, or gives bytes to a directory is not
/// restored, and neither is one whose limits leave no room for the directories of a guest.
pub proof fn law_spoilt_snapshots_are_refused(m: SnapshotModel, names: Names, i: int, j: int)
    requires
        0 <= i <= j < m.entries.len(),
        normalize(m.entries[i].path, "/"@) == Ok::<Names, Trouble>(names),
        normalize(m.entries[j].path, "/"@) == Ok::<Names, Trouble>(names),
    ensures
        i < j ==> restored(m) is Err,
        names.len() == 0 ==> restored(m) is Err,
        m.entries[i].kind == SnapshotEntryKind::Directory && m.entries[i].bytes.len() > 0
            ==> restored(m) is Err,
        m.limits.max_inodes < 4 ==> restored(m) is Err,
{
    let none = Seq::<(Seq<char>, ())>::empty();
    if i < j {
        lemma_twice(fresh_fs(m.limits), m.entries, 0, none, names, i, j);
    }
    if names.len() == 0 || m.entries[i].kind == SnapshotEntryKind::Directory
        && m.entries[i].bytes.len() > 0 {
        lemma_seen_again(fresh_fs(m.limits), m.entries, 0, none, names, i);
    }
}

} // verus!
