//! Ownership-aware management of guest environments.

use vstd::prelude::*;

#[allow(unused_imports)]
use crate::filesystem::total_bytes;
#[allow(unused_imports)]
use crate::ordered::{OrderedKey, text_before};
use crate::ordered::{Place, place_text};
use crate::runtime::{ResourceLimits, RuntimeError, VmInstance};
#[allow(unused_imports)]
use crate::runtime::{InstanceState, fresh_instance};
#[allow(unused_imports)]
use crate::runtime_error::{Trouble, trouble_text};
use crate::runtime_error::labelled;
#[allow(unused_imports)]
use crate::text::{all_white, blank, decimal, law_blank_texts_are_white};
use crate::text::{is_blank, same_text, size_text};

verus! {

/// Errors from the ownership-aware VM manager.
#[derive(Debug, PartialEq, Eq)]
pub enum VmManagerError {
    InvalidIdentity { kind: &'static str },
    AlreadyExists { owner: String, id: String },
    NotFound { owner: String, id: String },
    InstanceLimitReached { limit: usize },
    Runtime(RuntimeError),
}

/// What a [`VmManagerError`] says.
#[verifier::ext_equal]
pub enum ManagerTrouble {
    InvalidIdentity { kind: &'static str },
    AlreadyExists { owner: Seq<char>, id: Seq<char> },
    NotFound { owner: Seq<char>, id: Seq<char> },
    InstanceLimitReached { limit: usize },
    Runtime(Trouble),
}

impl View for VmManagerError {
    type V = ManagerTrouble;

    open spec fn view(&self) -> ManagerTrouble {
        match self {
            VmManagerError::InvalidIdentity { kind } => ManagerTrouble::InvalidIdentity {
                kind: *kind,
            },
            VmManagerError::AlreadyExists { owner, id } => ManagerTrouble::AlreadyExists {
                owner: owner@,
                id: id@,
            },
            VmManagerError::NotFound { owner, id } => ManagerTrouble::NotFound {
                owner: owner@,
                id: id@,
            },
            VmManagerError::InstanceLimitReached { limit } => ManagerTrouble::InstanceLimitReached {
                limit: *limit,
            },
            VmManagerError::Runtime(error) => ManagerTrouble::Runtime(error@),
        }
    }
}

/// The message of a manager error.
pub open spec fn manager_trouble_text(trouble: ManagerTrouble) -> Seq<char> {
    match trouble {
        ManagerTrouble::InvalidIdentity { kind } => kind@ + " must be non-empty"@,
        ManagerTrouble::AlreadyExists { owner, id } => "VM already exists for owner '"@ + owner
            + "': "@ + id,
        ManagerTrouble::NotFound { owner, id } => "VM does not exist for owner '"@ + owner + "': "@
            + id,
        ManagerTrouble::InstanceLimitReached { limit } => "VM instance quota exceeded: limit="@
            + decimal(limit as nat),
        ManagerTrouble::Runtime(error) => "VM runtime error: "@ + trouble_text(error),
    }
}

impl VmManagerError {
    /// The message of the error.
    pub fn to_text(&self) -> (r: String)
        ensures
            r@ == manager_trouble_text(self@),
    {
        match self {
            VmManagerError::InvalidIdentity { kind } => labelled(kind, " must be non-empty"),
            VmManagerError::AlreadyExists { owner, id } => {
                let mut r = labelled("VM already exists for owner '", owner.as_str());
                r.push_str("': ");
                r.push_str(id.as_str());
                r
            },
            VmManagerError::NotFound { owner, id } => {
                let mut r = labelled("VM does not exist for owner '", owner.as_str());
                r.push_str("': ");
                r.push_str(id.as_str());
                r
            },
            VmManagerError::InstanceLimitReached { limit } => labelled(
                "VM instance quota exceeded: limit=",
                size_text(*limit).as_str(),
            ),
            VmManagerError::Runtime(error) => labelled(
                "VM runtime error: ",
                error.to_text().as_str(),
            ),
        }
    }
}

/// A read-only summary used by a control plane to list a user's VMs.
#[derive(Debug, PartialEq, Eq)]
pub struct VmSummary {
    pub owner: String,
    pub id: String,
    pub ticks: usize,
    pub process_count: usize,
    pub inode_count: usize,
    pub byte_count: usize,
}

/// What a [`VmSummary`] says.
#[verifier::ext_equal]
pub struct SummaryModel {
    pub owner: Seq<char>,
    pub id: Seq<char>,
    pub ticks: nat,
    pub process_count: nat,
    pub inode_count: nat,
    pub byte_count: nat,
}

impl View for VmSummary {
    type V = SummaryModel;

    open spec fn view(&self) -> SummaryModel {
        SummaryModel {
            owner: self.owner@,
            id: self.id@,
            ticks: self.ticks as nat,
            process_count: self.process_count as nat,
            inode_count: self.inode_count as nat,
            byte_count: self.byte_count as nat,
        }
    }
}

pub open spec fn summary_models(summaries: Seq<VmSummary>) -> Seq<SummaryModel> {
    Seq::new(summaries.len(), |i: int| summaries[i]@)
}

#[derive(Debug)]
pub struct ManagedVm {
    owner: String,
    id: String,
    vm: VmInstance,
}

/// A guest environment and who owns it.
#[verifier::ext_equal]
pub struct ManagedModel {
    pub owner: Seq<char>,
    pub id: Seq<char>,
    pub vm: InstanceState,
}

impl View for ManagedVm {
    type V = ManagedModel;

    closed spec fn view(&self) -> ManagedModel {
        ManagedModel { owner: self.owner@, id: self.id@, vm: self.vm@ }
    }
}

/// The environments under management, in the order of owner and identifier.
#[verifier::ext_equal]
pub struct ManagerState {
    pub instances: Seq<ManagedModel>,
    pub limits: ResourceLimits,
    pub max_instances: usize,
}

/// Whether `m` belongs to `owner` and is called `id`.
pub open spec fn is_named(m: ManagedModel, owner: Seq<char>, id: Seq<char>) -> bool {
    m.owner == owner && m.id == id
}

/// The index of the environment `id` of `owner`, or the number of environments when there is none.
pub open spec fn find_vm(instances: Seq<ManagedModel>, owner: Seq<char>, id: Seq<char>) -> int
    decreases instances.len(),
{
    if instances.len() == 0 || is_named(instances[0], owner, id) {
        0
    } else {
        1 + find_vm(instances.skip(1), owner, id)
    }
}

/// The environment `id` of `owner`.
pub open spec fn managed_vm(instances: Seq<ManagedModel>, owner: Seq<char>, id: Seq<char>) -> Option<
    InstanceState,
> {
    let i = find_vm(instances, owner, id);
    if 0 <= i < instances.len() {
        Some(instances[i].vm)
    } else {
        None
    }
}

/// The order of environments: by owner, then by identifier.
pub open spec fn named_before(m: ManagedModel, owner: Seq<char>, id: Seq<char>) -> bool {
    if m.owner == owner {
        text_before(m.id, id)
    } else {
        text_before(m.owner, owner)
    }
}

/// Where the environment `id` of `owner` is inserted.
pub open spec fn place_for(instances: Seq<ManagedModel>, owner: Seq<char>, id: Seq<char>) -> int
    decreases instances.len(),
{
    if instances.len() == 0 || !named_before(instances[0], owner, id) {
        0
    } else {
        1 + place_for(instances.skip(1), owner, id)
    }
}

/// Creating an environment.
pub open spec fn create_in(m: ManagerState, owner: Seq<char>, id: Seq<char>) -> (
    ManagerState,
    Result<(), ManagerTrouble>,
) {
    if blank(owner) {
        (m, Err(ManagerTrouble::InvalidIdentity { kind: "owner" }))
    } else if blank(id) {
        (m, Err(ManagerTrouble::InvalidIdentity { kind: "VM id" }))
    } else if m.instances.len() >= m.max_instances {
        (m, Err(ManagerTrouble::InstanceLimitReached { limit: m.max_instances }))
    } else if managed_vm(m.instances, owner, id) is Some {
        (m, Err(ManagerTrouble::AlreadyExists { owner, id }))
    } else if m.limits.max_inodes < 4 {
        (
            m,
            Err(
                ManagerTrouble::Runtime(
                    Trouble::InvalidLimits {
                        resource: "inodes",
                        minimum: 4,
                        actual: m.limits.max_inodes,
                    },
                ),
            ),
        )
    } else {
        (
            ManagerState {
                instances: m.instances.insert(
                    place_for(m.instances, owner, id),
                    ManagedModel { owner, id, vm: fresh_instance(id, m.limits) },
                ),
                ..m
            },
            Ok(()),
        )
    }
}

/// Destroying an environment.
pub open spec fn destroyed(m: ManagerState, owner: Seq<char>, id: Seq<char>) -> ManagerState {
    let i = find_vm(m.instances, owner, id);
    if 0 <= i < m.instances.len() {
        ManagerState { instances: m.instances.remove(i), ..m }
    } else {
        m
    }
}

pub open spec fn summary(m: ManagedModel) -> SummaryModel {
    SummaryModel {
        owner: m.owner,
        id: m.id,
        ticks: m.vm.ticks,
        process_count: m.vm.processes.len(),
        inode_count: m.vm.fs.entries.len(),
        byte_count: total_bytes(m.vm.fs.entries),
    }
}

/// The summaries of the environments of `owner` among those from `index` on.
pub open spec fn summaries(instances: Seq<ManagedModel>, owner: Seq<char>, index: int) -> Seq<
    SummaryModel,
>
    decreases instances.len() - index,
{
    if !(0 <= index < instances.len()) {
        Seq::empty()
    } else if instances[index].owner == owner {
        seq![summary(instances[index])] + summaries(instances, owner, index + 1)
    } else {
        summaries(instances, owner, index + 1)
    }
}

/// Owns multiple isolated guest VMs and scopes every lookup by owner.
///
/// The owner value must come from an authenticated control plane. It is not an
/// authorization mechanism by itself and must never be accepted as proof of
/// identity from an untrusted browser request.
#[derive(Debug)]
pub struct VmManager {
    instances: Vec<ManagedVm>,
    limits: ResourceLimits,
    max_instances: usize,
}

spec fn managed_models(instances: Seq<ManagedVm>) -> Seq<ManagedModel> {
    Seq::new(instances.len(), |i: int| instances[i]@)
}

impl View for VmManager {
    type V = ManagerState;

    closed spec fn view(&self) -> ManagerState {
        ManagerState {
            instances: managed_models(self.instances@),
            limits: self.limits,
            max_instances: self.max_instances,
        }
    }
}

proof fn lemma_find_vm(instances: Seq<ManagedModel>, owner: Seq<char>, id: Seq<char>, i: int)
    requires
        0 <= i <= instances.len(),
        i < instances.len() ==> is_named(instances[i], owner, id),
        forall|j: int| 0 <= j < i ==> !is_named(#[trigger] instances[j], owner, id),
    ensures
        find_vm(instances, owner, id) == i,
    decreases instances.len(),
{
    if i > 0 {
        assert(!is_named(instances[0], owner, id));
        let rest = instances.skip(1);
        assert forall|j: int| 0 <= j < i - 1 implies !is_named(#[trigger] rest[j], owner, id) by {
            assert(rest[j] == instances[j + 1]);
        }
        lemma_find_vm(rest, owner, id, i - 1);
    }
}

proof fn lemma_place_for(instances: Seq<ManagedModel>, owner: Seq<char>, id: Seq<char>, i: int)
    requires
        0 <= i <= instances.len(),
        i < instances.len() ==> !named_before(instances[i], owner, id),
        forall|j: int| 0 <= j < i ==> named_before(#[trigger] instances[j], owner, id),
    ensures
        place_for(instances, owner, id) == i,
    decreases instances.len(),
{
    if i > 0 {
        assert(named_before(instances[0], owner, id));
        let rest = instances.skip(1);
        assert forall|j: int| 0 <= j < i - 1 implies named_before(#[trigger] rest[j], owner, id) by {
            assert(rest[j] == instances[j + 1]);
        }
        lemma_place_for(rest, owner, id, i - 1);
    }
}

fn check_identity(value: &str, kind: &'static str) -> (r: Result<(), VmManagerError>)
    ensures
        match r {
            Ok(_) => !blank(value@),
            Err(error) => blank(value@) && error@ == (ManagerTrouble::InvalidIdentity { kind }),
        },
{
    if is_blank(value) {
        Err(VmManagerError::InvalidIdentity { kind })
    } else {
        Ok(())
    }
}

fn missing(owner: &str, id: &str) -> (r: VmManagerError)
    ensures
        r@ == (ManagerTrouble::NotFound { owner: owner@, id: id@ }),
{
    VmManagerError::NotFound { owner: owner.to_owned(), id: id.to_owned() }
}

impl VmManager {
    pub fn new(limits: ResourceLimits) -> (r: Self)
        ensures
            r@ == (ManagerState { instances: Seq::empty(), limits, max_instances: 64 }),
    {
        VmManager::with_max_instances(64, limits)
    }

    pub fn with_max_instances(max_instances: usize, limits: ResourceLimits) -> (r: Self)
        ensures
            r@ == (ManagerState { instances: Seq::empty(), limits, max_instances }),
    {
        let r = VmManager { instances: Vec::new(), limits, max_instances };
        assert(r@.instances =~= Seq::<ManagedModel>::empty());
        r
    }

    /// The index of the environment `id` of `owner`.
    fn find(&self, owner: &str, id: &str) -> (r: Option<usize>)
        ensures
            match r {
                Some(i) => i < self.instances@.len() && i == find_vm(self@.instances, owner@, id@),
                None => find_vm(self@.instances, owner@, id@) == self@.instances.len(),
            },
    {
        let mut i: usize = 0;
        while i < self.instances.len()
            invariant
                i <= self.instances@.len(),
                forall|j: int|
                    0 <= j < i ==> !is_named(#[trigger] self@.instances[j], owner@, id@),
            decreases self.instances@.len() - i,
        {
            let entry = &self.instances[i];
            assert(self@.instances[i as int] == entry@);
            if same_text(entry.owner.as_str(), owner) && same_text(entry.id.as_str(), id) {
                proof {
                    lemma_find_vm(self@.instances, owner@, id@, i as int);
                }
                return Some(i);
            }
            i += 1;
        }
        proof {
            lemma_find_vm(self@.instances, owner@, id@, i as int);
        }
        None
    }

    /// Creates an environment for `owner`.
    pub fn create(&mut self, owner: &str, id: &str) -> (r: Result<(), VmManagerError>)
        ensures
            final(self)@ == create_in(old(self)@, owner@, id@).0,
            match r {
                Ok(_) => create_in(old(self)@, owner@, id@).1 is Ok,
                Err(error) => create_in(old(self)@, owner@, id@).1 == Err::<(), ManagerTrouble>(
                    error@,
                ),
            },
    {
        if let Err(error) = check_identity(owner, "owner") {
            return Err(error);
        }
        if let Err(error) = check_identity(id, "VM id") {
            return Err(error);
        }
        if self.instances.len() >= self.max_instances {
            return Err(VmManagerError::InstanceLimitReached { limit: self.max_instances });
        }
        if self.find(owner, id).is_some() {
            return Err(
                VmManagerError::AlreadyExists { owner: owner.to_owned(), id: id.to_owned() },
            );
        }
        let vm = match VmInstance::with_limits(id, self.limits) {
            Ok(vm) => vm,
            Err(error) => {
                return Err(VmManagerError::Runtime(error));
            },
        };
        let mut i: usize = 0;
        let mut searching = true;
        while searching && i < self.instances.len()
            invariant
                i <= self.instances@.len(),
                *self == *old(self),
                forall|j: int|
                    0 <= j < i ==> named_before(#[trigger] self@.instances[j], owner@, id@),
                !searching ==> i < self.instances@.len() && !named_before(
                    self@.instances[i as int],
                    owner@,
                    id@,
                ),
            decreases self.instances@.len() - i, if searching { 1int } else { 0int },
        {
            let entry = &self.instances[i];
            let ghost e = self@.instances[i as int];
            assert(e == entry@);
            proof {
                <String as OrderedKey>::lemma_irreflexive(owner@);
                <String as OrderedKey>::lemma_irreflexive(id@);
            }
            let earlier = match place_text(entry.owner.as_str(), owner) {
                Place::Before => true,
                Place::Same => match place_text(entry.id.as_str(), id) {
                    Place::Before => true,
                    Place::Same => false,
                    Place::After => {
                        proof {
                            if text_before(e.id, id@) {
                                <String as OrderedKey>::lemma_transitive(e.id, id@, e.id);
                                <String as OrderedKey>::lemma_irreflexive(e.id);
                            }
                        }
                        false
                    },
                },
                Place::After => {
                    proof {
                        <String as OrderedKey>::lemma_irreflexive(e.owner);
                        if text_before(e.owner, owner@) {
                            <String as OrderedKey>::lemma_transitive(e.owner, owner@, e.owner);
                        }
                    }
                    false
                },
            };
            assert(earlier == named_before(e, owner@, id@));
            if earlier {
                i += 1;
            } else {
                searching = false;
            }
        }
        proof {
            lemma_place_for(self@.instances, owner@, id@, i as int);
        }
        let ghost before = self@;
        let entry = ManagedVm { owner: owner.to_owned(), id: id.to_owned(), vm };
        self.instances.insert(i, entry);
        proof {
            assert(entry@ =~= ManagedModel {
                owner: owner@,
                id: id@,
                vm: fresh_instance(id@, before.limits),
            });
            assert(self@.instances =~= before.instances.insert(i as int, entry@));
        }
        Ok(())
    }

    /// The environment `id` of `owner`.
    pub fn get(&self, owner: &str, id: &str) -> (r: Result<&VmInstance, VmManagerError>)
        ensures
            match r {
                Ok(vm) => managed_vm(self@.instances, owner@, id@) == Some(vm@),
                Err(error) => managed_vm(self@.instances, owner@, id@) is None && error@ == (
                ManagerTrouble::NotFound { owner: owner@, id: id@ }),
            },
    {
        match self.find(owner, id) {
            Some(i) => {
                assert(self@.instances[i as int] == self.instances@[i as int]@);
                Ok(&self.instances[i].vm)
            },
            None => Err(missing(owner, id)),
        }
    }

    /// The environment `id` of `owner`, to change it.
    pub fn get_mut(&mut self, owner: &str, id: &str) -> (r: Result<&mut VmInstance, VmManagerError>)
        ensures
            match r {
                Ok(vm) => {
                    let i = find_vm(old(self)@.instances, owner@, id@);
                    &&& managed_vm(old(self)@.instances, owner@, id@) == Some(vm@)
                    &&& final(self)@ == (ManagerState {
                        instances: old(self)@.instances.update(
                            i,
                            ManagedModel { owner: owner@, id: id@, vm: final(vm)@ },
                        ),
                        ..old(self)@
                    })
                },
                Err(error) => {
                    &&& managed_vm(old(self)@.instances, owner@, id@) is None
                    &&& final(self)@ == old(self)@
                    &&& error@ == (ManagerTrouble::NotFound { owner: owner@, id: id@ })
                },
            },
    {
        match self.find(owner, id) {
            Some(i) => {
                proof {
                    lemma_found_vm(self@.instances, owner@, id@);
                    assert(self@.instances[i as int] == self.instances@[i as int]@);
                    lemma_managed_update(self.instances@, i as int);
                }
                Ok(&mut self.instances[i].vm)
            },
            None => Err(missing(owner, id)),
        }
    }

    /// Takes the environment `id` of `owner` out of management.
    pub fn destroy(&mut self, owner: &str, id: &str) -> (r: Result<VmInstance, VmManagerError>)
        ensures
            final(self)@ == destroyed(old(self)@, owner@, id@),
            match r {
                Ok(vm) => managed_vm(old(self)@.instances, owner@, id@) == Some(vm@),
                Err(error) => managed_vm(old(self)@.instances, owner@, id@) is None && error@ == (
                ManagerTrouble::NotFound { owner: owner@, id: id@ }),
            },
    {
        match self.find(owner, id) {
            Some(i) => {
                let ghost before = self@;
                assert(self@.instances[i as int] == self.instances@[i as int]@);
                let entry = self.instances.remove(i);
                assert(self@.instances =~= before.instances.remove(i as int));
                Ok(entry.vm)
            },
            None => Err(missing(owner, id)),
        }
    }

    /// The environments of `owner`.
    pub fn list(&self, owner: &str) -> (r: Vec<VmSummary>)
        ensures
            summary_models(r@) == summaries(self@.instances, owner@, 0),
    {
        let ghost all = self@.instances;
        let mut r: Vec<VmSummary> = Vec::new();
        let mut i: usize = 0;
        assert(summary_models(r@) + summaries(all, owner@, 0) =~= summaries(all, owner@, 0));
        while i < self.instances.len()
            invariant
                i <= self.instances@.len(),
                all == managed_models(self.instances@),
                summary_models(r@) + summaries(all, owner@, i as int) == summaries(all, owner@, 0),
            decreases self.instances@.len() - i,
        {
            let entry = &self.instances[i];
            assert(all[i as int] == entry@);
            let ghost before = r@;
            if same_text(entry.owner.as_str(), owner) {
                let found = VmSummary {
                    owner: entry.owner.clone(),
                    id: entry.id.clone(),
                    ticks: entry.vm.ticks(),
                    process_count: entry.vm.process_count(),
                    inode_count: entry.vm.filesystem().inode_count(),
                    byte_count: entry.vm.filesystem().byte_count(),
                };
                r.push(found);
                assert(found@ =~= summary(entry@));
                assert(summary_models(r@) =~= summary_models(before).push(found@));
                assert(summary_models(r@) + summaries(all, owner@, i + 1) =~= summary_models(before)
                    + (seq![found@] + summaries(all, owner@, i + 1)));
            }
            i += 1;
        }
        assert(summary_models(r@) + Seq::<SummaryModel>::empty() =~= summary_models(r@));
        r
    }

    pub fn len(&self) -> (r: usize)
        ensures
            r == self@.instances.len(),
    {
        self.instances.len()
    }

    pub fn is_empty(&self) -> (r: bool)
        ensures
            r == (self@.instances.len() == 0),
    {
        self.instances.len() == 0
    }
}

pub proof fn lemma_found_vm(instances: Seq<ManagedModel>, owner: Seq<char>, id: Seq<char>)
    ensures
        0 <= find_vm(instances, owner, id) <= instances.len(),
        find_vm(instances, owner, id) < instances.len() ==> is_named(
            instances[find_vm(instances, owner, id)],
            owner,
            id,
        ),
        forall|j: int|
            0 <= j < find_vm(instances, owner, id) ==> !is_named(
                #[trigger] instances[j],
                owner,
                id,
            ),
    decreases instances.len(),
{
    if instances.len() > 0 && !is_named(instances[0], owner, id) {
        lemma_found_vm(instances.skip(1), owner, id);
        assert forall|j: int| 0 <= j < find_vm(instances, owner, id) implies !is_named(
            #[trigger] instances[j],
            owner,
            id,
        ) by {
            if j > 0 {
                assert(instances[j] == instances.skip(1)[j - 1]);
            }
        }
    }
}

/// Changing one environment changes its model and no other.
proof fn lemma_managed_update(instances: Seq<ManagedVm>, i: int)
    requires
        0 <= i < instances.len(),
    ensures
        forall|entry: ManagedVm|
            #[trigger] managed_models(instances.update(i, entry)) == managed_models(
                instances,
            ).update(i, entry@),
{
    assert forall|entry: ManagedVm| #[trigger] managed_models(instances.update(i, entry))
        == managed_models(instances).update(i, entry@) by {
        assert(managed_models(instances.update(i, entry)) =~= managed_models(instances).update(
            i,
            entry@,
        ));
    }
}

// ---------------------------------------------------------------------------
// What the manager guarantees
// ---------------------------------------------------------------------------

/// Creating an environment makes a fresh one and leaves every other environment as it was,
/// whoever owns it. A refusal changes nothing.
pub proof fn law_create_is_isolated(
    m: ManagerState,
    owner: Seq<char>,
    id: Seq<char>,
    other_owner: Seq<char>,
    other_id: Seq<char>,
)
    ensures
        ({
            let (next, outcome) = create_in(m, owner, id);
            &&& outcome is Err ==> next == m
            &&& outcome is Ok ==> managed_vm(next.instances, owner, id) == Some(
                fresh_instance(id, m.limits),
            )
            &&& outcome is Ok ==> next.instances.len() == m.instances.len() + 1
            &&& outcome is Ok ==> next.instances.len() <= m.max_instances
            &&& next.limits == m.limits
            &&& next.max_instances == m.max_instances
            &&& (other_owner != owner || other_id != id) ==> managed_vm(
                next.instances,
                other_owner,
                other_id,
            ) == managed_vm(m.instances, other_owner, other_id)
        }),
{
    let (next, outcome) = create_in(m, owner, id);
    if outcome is Ok {
        let p = place_for(m.instances, owner, id);
        lemma_place_bound(m.instances, owner, id);
        lemma_found_vm(m.instances, owner, id);
        assert forall|j: int| 0 <= j < p implies !is_named(
            #[trigger] next.instances[j],
            owner,
            id,
        ) by {
            assert(next.instances[j] == m.instances[j]);
        }
        lemma_find_vm(next.instances, owner, id, p);
        if other_owner != owner || other_id != id {
            lemma_found_vm(m.instances, other_owner, other_id);
            let q = find_vm(m.instances, other_owner, other_id);
            let r = if q < p {
                q
            } else {
                q + 1
            };
            assert forall|j: int| 0 <= j < r implies !is_named(
                #[trigger] next.instances[j],
                other_owner,
                other_id,
            ) by {
                if j < p {
                    assert(next.instances[j] == m.instances[j]);
                } else if j > p {
                    assert(next.instances[j] == m.instances[j - 1]);
                }
            }
            if q < m.instances.len() {
                assert(next.instances[r] == m.instances[q]);
            }
            lemma_find_vm(next.instances, other_owner, other_id, r);
        }
    }
}

proof fn lemma_place_bound(instances: Seq<ManagedModel>, owner: Seq<char>, id: Seq<char>)
    ensures
        0 <= place_for(instances, owner, id) <= instances.len(),
    decreases instances.len(),
{
    if instances.len() > 0 {
        lemma_place_bound(instances.skip(1), owner, id);
    }
}

/// No name occurs twice.
pub open spec fn distinct_names(instances: Seq<ManagedModel>) -> bool {
    forall|i: int, j: int|
        0 <= i < j < instances.len() ==> !is_named(
            #[trigger] instances[i],
            (#[trigger] instances[j]).owner,
            instances[j].id,
        )
}

/// Names stay distinct when environments are created and destroyed.
pub proof fn law_names_stay_distinct(m: ManagerState, owner: Seq<char>, id: Seq<char>)
    requires
        distinct_names(m.instances),
    ensures
        distinct_names(create_in(m, owner, id).0.instances),
        distinct_names(destroyed(m, owner, id).instances),
{
    lemma_found_vm(m.instances, owner, id);
    lemma_place_bound(m.instances, owner, id);
    let p = place_for(m.instances, owner, id);
    let created = create_in(m, owner, id).0.instances;
    assert forall|i: int, j: int| 0 <= i < j < created.len() implies !is_named(
        #[trigger] created[i],
        (#[trigger] created[j]).owner,
        created[j].id,
    ) by {
        if created.len() > m.instances.len() {
            let a = if i < p { i } else { i - 1 };
            let b = if j < p { j } else { j - 1 };
            if i != p {
                assert(created[i] == m.instances[a]);
            }
            if j != p {
                assert(created[j] == m.instances[b]);
            }
        }
    }
    let q = find_vm(m.instances, owner, id);
    let left = destroyed(m, owner, id).instances;
    assert forall|i: int, j: int| 0 <= i < j < left.len() implies !is_named(
        #[trigger] left[i],
        (#[trigger] left[j]).owner,
        left[j].id,
    ) by {
        if left.len() < m.instances.len() {
            let a = if i < q { i } else { i + 1 };
            let b = if j < q { j } else { j + 1 };
            assert(left[i] == m.instances[a]);
            assert(left[j] == m.instances[b]);
        }
    }
}

/// A destroyed environment is gone, and every other environment stays as it was.
pub proof fn law_destroy_is_isolated(
    m: ManagerState,
    owner: Seq<char>,
    id: Seq<char>,
    other_owner: Seq<char>,
    other_id: Seq<char>,
)
    requires
        distinct_names(m.instances),
    ensures
        managed_vm(destroyed(m, owner, id).instances, owner, id) is None,
        (other_owner != owner || other_id != id) ==> managed_vm(
            destroyed(m, owner, id).instances,
            other_owner,
            other_id,
        ) == managed_vm(m.instances, other_owner, other_id),
{
    let next = destroyed(m, owner, id).instances;
    lemma_found_vm(m.instances, owner, id);
    lemma_found_vm(m.instances, other_owner, other_id);
    let p = find_vm(m.instances, owner, id);
    if p < m.instances.len() {
        assert forall|j: int| 0 <= j < next.len() implies !is_named(
            #[trigger] next[j],
            owner,
            id,
        ) by {
            let a = if j < p { j } else { j + 1 };
            assert(next[j] == m.instances[a]);
            assert(is_named(m.instances[p], owner, id));
        }
        lemma_find_vm(next, owner, id, next.len() as int);
        if other_owner != owner || other_id != id {
            let q = find_vm(m.instances, other_owner, other_id);
            let r = if q < p { q } else { q - 1 };
            assert forall|j: int| 0 <= j < r implies !is_named(
                #[trigger] next[j],
                other_owner,
                other_id,
            ) by {
                let a = if j < p { j } else { j + 1 };
                assert(next[j] == m.instances[a]);
            }
            if q < m.instances.len() {
                assert(next[r] == m.instances[q]);
            }
            lemma_find_vm(next, other_owner, other_id, r);
        }
    }
}

/// A listing shows environments of the given owner only.
pub proof fn law_listings_are_scoped(instances: Seq<ManagedModel>, owner: Seq<char>, index: int)
    ensures
        forall|i: int|
            0 <= i < summaries(instances, owner, index).len() ==> (#[trigger] summaries(
                instances,
                owner,
                index,
            )[i]).owner == owner,
    decreases instances.len() - index,
{
    if 0 <= index < instances.len() {
        law_listings_are_scoped(instances, owner, index + 1);
        let rest = summaries(instances, owner, index + 1);
        let all = summaries(instances, owner, index);
        assert forall|i: int| 0 <= i < all.len() implies (#[trigger] all[i]).owner == owner by {
            if instances[index].owner == owner && i > 0 {
                assert(all[i] == rest[i - 1]);
            }
        }
    }
}

/// An environment is created exactly where its owner and its name show something, the owner has none
/// of that name, and there is room for one more.
pub proof fn law_environments_are_created_once(m: ManagerState, owner: Seq<char>, id: Seq<char>)
    requires
        m.limits.max_inodes >= 4,
    ensures
        create_in(m, owner, id).1 is Ok <==> {
            &&& !all_white(owner)
            &&& !all_white(id)
            &&& m.instances.len() < m.max_instances
            &&& forall|i: int|
                #![trigger m.instances[i]]
                0 <= i < m.instances.len() ==> m.instances[i].owner != owner || m.instances[i].id
                    != id
        },
{
    law_blank_texts_are_white(owner, ' ');
    law_blank_texts_are_white(id, ' ');
    lemma_found_vm(m.instances, owner, id);
    let p = find_vm(m.instances, owner, id);
    if p < m.instances.len() {
        assert(m.instances[p].owner == owner && m.instances[p].id == id);
    }
}

/// An environment is found by its owner and its name together: what is found belongs to that owner
/// and has that name, and nobody finds an environment of another owner.
pub proof fn law_environments_are_found_by_their_owner(
    instances: Seq<ManagedModel>,
    owner: Seq<char>,
    id: Seq<char>,
)
    ensures
        match managed_vm(instances, owner, id) {
            Some(vm) => exists|i: int|
                0 <= i < instances.len() && #[trigger] instances[i] == (ManagedModel { owner, id, vm }),
            None => forall|i: int|
                #![trigger instances[i]]
                0 <= i < instances.len() ==> instances[i].owner != owner || instances[i].id != id,
        },
{
    lemma_found_vm(instances, owner, id);
    let p = find_vm(instances, owner, id);
    if p < instances.len() {
        assert(instances[p] == (ManagedModel { owner, id, vm: instances[p].vm }));
    }
}

/// A listing shows every environment of its owner, with its name, its ticks, and how many processes,
/// entries and bytes it holds.
pub proof fn law_listings_show_each_environment(
    instances: Seq<ManagedModel>,
    owner: Seq<char>,
    index: int,
    i: int,
)
    requires
        0 <= index <= i < instances.len(),
        instances[i].owner == owner,
    ensures
        exists|k: int|
            0 <= k < summaries(instances, owner, index).len() && #[trigger] summaries(
                instances,
                owner,
                index,
            )[k] == (SummaryModel {
                owner,
                id: instances[i].id,
                ticks: instances[i].vm.ticks,
                process_count: instances[i].vm.processes.len(),
                inode_count: instances[i].vm.fs.entries.len(),
                byte_count: total_bytes(instances[i].vm.fs.entries),
            }),
    decreases i - index,
{
    let wanted = SummaryModel {
        owner,
        id: instances[i].id,
        ticks: instances[i].vm.ticks,
        process_count: instances[i].vm.processes.len(),
        inode_count: instances[i].vm.fs.entries.len(),
        byte_count: total_bytes(instances[i].vm.fs.entries),
    };
    let all = summaries(instances, owner, index);
    if index == i {
        assert(all[0] == wanted);
    } else {
        law_listings_show_each_environment(instances, owner, index + 1, i);
        let rest = summaries(instances, owner, index + 1);
        let k = choose|k: int| 0 <= k < rest.len() && #[trigger] rest[k] == wanted;
        if instances[index].owner == owner {
            assert(all[k + 1] == rest[k]);
        } else {
            assert(all[k] == wanted);
        }
    }
}

/// Environments stand in the order of their owners, and those of one owner in the order of their
/// identifiers.
pub proof fn law_environments_are_ordered(m: ManagedModel, owner: Seq<char>, id: Seq<char>)
    ensures
        m.owner != owner ==> (named_before(m, owner, id) <==> text_before(m.owner, owner)),
        m.owner == owner ==> (named_before(m, owner, id) <==> text_before(m.id, id)),
        place_for(seq![m], owner, id) == (if named_before(m, owner, id) {
            1int
        } else {
            0int
        }),
{
    assert(seq![m].skip(1) =~= Seq::<ManagedModel>::empty());
    reveal_with_fuel(place_for, 2);
}

} // verus!
