//! Tools and the registry that dispatches calls to them.

use vstd::prelude::*;

use crate::agent_messages::{
    PermissionRequest, ToolArguments, ToolCall, ToolError, ToolResult, ToolSpec,
};
#[allow(unused_imports)]
use crate::agent_messages::{
    CallModel, RequestedModel, ResultModel, SpecModel, asked_for, spec_models,
};
use crate::ordered::OrderedMap;
#[allow(unused_imports)]
use crate::ordered::{
    OrderedKey, law_put_then_get, lemma_found, lemma_position, lemma_put_at_end, lemma_same_keys,
    lemma_viewed_lookup, lemma_viewed_put, lemma_viewed_sorted, lemma_with_entry_sorted, lookup,
    position, present, sorted, viewed, with_entry,
};
use crate::runtime_error::labelled;

verus! {

/// The executable contract implemented by every agent tool.
pub trait Tool {
    fn spec(&self) -> ToolSpec;

    fn execute(&mut self, arguments: &ToolArguments) -> Result<String, ToolError>;

    fn permission(&self, _arguments: &ToolArguments) -> (r: Option<PermissionRequest>)
        default_ensures
            r is None,
    {
        None
    }
}

/// Several tools that work on one state.
pub trait Toolbox {
    fn execute(&mut self, name: &str, arguments: &ToolArguments) -> Result<String, ToolError>;

    fn permission(&self, _name: &str, _arguments: &ToolArguments) -> (r: Option<PermissionRequest>)
        default_ensures
            r is None,
    {
        None
    }
}

/// A tool as a box of one.
pub struct Single<T> {
    pub tool: T,
}

impl<T: Tool> Toolbox for Single<T> {
    fn execute(&mut self, _name: &str, arguments: &ToolArguments) -> (r: Result<String, ToolError>)
        ensures
            exists|t: &mut T| #[trigger]
                call_ensures(T::execute, (t, arguments), r) && *t == old(self).tool && *final(t)
                    == final(self).tool,
    {
        self.tool.execute(arguments)
    }

    fn permission(&self, _name: &str, arguments: &ToolArguments) -> (r: Option<PermissionRequest>)
        ensures
            call_ensures(T::permission, (&self.tool, arguments), r),
    {
        self.tool.permission(arguments)
    }
}

/// Whether a box may return this for a call of the tool `name`: `toolbox` stands for the box before
/// and after.
pub open spec fn executes<B: Toolbox + ?Sized>(
    toolbox: &mut B,
    name: Seq<char>,
    arguments: &ToolArguments,
    outcome: Result<String, ToolError>,
) -> bool {
    exists|text: &str| #[trigger]
        call_ensures(B::execute, (toolbox, text, arguments), outcome) && text@ == name
}

/// Whether a box may ask for this permission before a call of the tool `name`.
pub open spec fn permits<B: Toolbox + ?Sized>(
    toolbox: &B,
    name: Seq<char>,
    arguments: &ToolArguments,
    asked: Option<PermissionRequest>,
) -> bool {
    exists|text: &str| #[trigger]
        call_ensures(B::permission, (toolbox, text, arguments), asked) && text@ == name
}

/// Has a box carry out a call.
fn carry_out<B: Toolbox + ?Sized>(
    toolbox: &mut B,
    name: &String,
    arguments: &ToolArguments,
) -> (r: Result<String, ToolError>)
    ensures
        exists|b: &mut B| #[trigger]
            executes(b, name@, arguments, r) && &*b == &*old(toolbox)
                && &*final(b) == &*final(toolbox),
{
    let text = name.as_str();
    let r = toolbox.execute(text, arguments);
    assert(exists|b: &mut B| #[trigger]
        call_ensures(B::execute, (b, text, arguments), r) && executes(b, name@, arguments, r)
            && &*b == &*old(toolbox) && &*final(b) == &*final(toolbox));
    r
}

/// Asks a box which permission a call needs.
fn ask_permission<B: Toolbox + ?Sized>(
    toolbox: &B,
    name: &String,
    arguments: &ToolArguments,
) -> (r: Option<PermissionRequest>)
    ensures
        permits(toolbox, name@, arguments, r),
{
    let text = name.as_str();
    let r = toolbox.permission(text, arguments);
    assert(call_ensures(B::permission, (toolbox, text, arguments), r));
    r
}

// ---------------------------------------------------------------------------
// What the registry says
// ---------------------------------------------------------------------------

/// The descriptions of the registered tools, in the order of their names.
pub type Registered = Seq<(Seq<char>, SpecModel)>;

/// Whether a tool with this name is registered.
pub open spec fn registered(tools: Registered, name: Seq<char>) -> bool {
    present::<String, SpecModel>(tools, name)
}

/// The tools with one more.
pub open spec fn with_tool(tools: Registered, spec: SpecModel) -> Registered {
    with_entry::<String, SpecModel>(tools, spec.name, spec)
}

/// The tools with the first `n` of `specs`.
pub open spec fn with_tools(tools: Registered, specs: Seq<SpecModel>, n: int) -> Registered
    decreases n,
{
    if n <= 0 {
        tools
    } else {
        with_tool(with_tools(tools, specs, n - 1), specs[n - 1])
    }
}

/// The first of `specs` from `index` on whose name is taken, by a tool or by an earlier one.
pub open spec fn first_taken(tools: Registered, specs: Seq<SpecModel>, index: int) -> Option<int>
    decreases specs.len() - index,
{
    if !(0 <= index < specs.len()) {
        None
    } else if registered(with_tools(tools, specs, index), specs[index].name) {
        Some(index)
    } else {
        first_taken(tools, specs, index + 1)
    }
}

/// The first tool of `other` from `index` on whose name is taken.
pub open spec fn first_shared(tools: Registered, other: Registered, index: int) -> Option<int>
    decreases other.len() - index,
{
    if !(0 <= index < other.len()) {
        None
    } else if registered(tools, other[index].0) {
        Some(index)
    } else {
        first_shared(tools, other, index + 1)
    }
}

/// The tools with the first `n` of `other`.
pub open spec fn merged(tools: Registered, other: Registered, n: int) -> Registered
    decreases n,
{
    if n <= 0 {
        tools
    } else {
        with_entry::<String, SpecModel>(
            merged(tools, other, n - 1),
            other[n - 1].0,
            other[n - 1].1,
        )
    }
}

/// The descriptions of the tools alone.
pub open spec fn tool_specs(tools: Registered) -> Seq<SpecModel> {
    Seq::new(tools.len(), |i: int| tools[i].1)
}

/// The message for a name that is taken.
pub open spec fn taken_text(name: Seq<char>) -> Seq<char> {
    "tool is already registered: "@ + name
}

/// The result of a call, given what the tool returned.
pub open spec fn call_result(call: CallModel, outcome: Result<Seq<char>, Seq<char>>) -> ResultModel {
    match outcome {
        Ok(content) => ResultModel { id: call.id, name: call.name, content, is_error: false },
        Err(message) => ResultModel {
            id: call.id,
            name: call.name,
            content: message,
            is_error: true,
        },
    }
}

/// The result of a call of a tool that is not registered.
pub open spec fn unknown_result(call: CallModel) -> ResultModel {
    call_result(call, Err("unknown tool: "@ + call.name))
}

/// A tool's request for permission, with the id of the call before its own.
pub open spec fn scoped(call: CallModel, request: RequestedModel) -> RequestedModel {
    RequestedModel { id: call.id + ":"@ + request.id, ..request }
}

/// What is asked for before a call, given what its tool asks for.
pub open spec fn scoped_request(call: CallModel, asked: Option<RequestedModel>) -> Option<
    RequestedModel,
> {
    match asked {
        Some(request) => Some(scoped(call, request)),
        None => None,
    }
}

/// What a tool returned, as a model.
pub open spec fn tool_outcome(r: Result<String, ToolError>) -> Result<Seq<char>, Seq<char>> {
    match r {
        Ok(content) => Ok(content@),
        Err(error) => Err(error@),
    }
}

/// The result of a call, given what the tool returned.
pub fn make_result(call: &ToolCall, outcome: Result<String, ToolError>) -> (r: ToolResult)
    ensures
        r@ == call_result(call@, tool_outcome(outcome)),
{
    match outcome {
        Ok(content) => ToolResult {
            id: call.id.clone(),
            name: call.name.clone(),
            content,
            is_error: false,
        },
        Err(error) => ToolResult {
            id: call.id.clone(),
            name: call.name.clone(),
            content: error.to_text(),
            is_error: true,
        },
    }
}

/// A tool's request for permission, with the id of the call before its own.
pub fn scope_request(call: &ToolCall, request: PermissionRequest) -> (r: PermissionRequest)
    ensures
        r@ == scoped(call@, request@),
{
    let mut id = call.id.clone();
    id.push_str(":");
    id.push_str(request.id.as_str());
    PermissionRequest { id, tool: request.tool, description: request.description }
}

// ---------------------------------------------------------------------------
// The registry
// ---------------------------------------------------------------------------

/// A registered tool: its description, and the index of the box that holds it.
struct Entry {
    spec: ToolSpec,
    owner: usize,
}

impl View for Entry {
    type V = SpecModel;

    closed spec fn view(&self) -> SpecModel {
        self.spec@
    }
}

/// A box of tools.
struct Held {
    toolbox: Box<dyn Toolbox>,
}

fn push_box(boxes: &mut Vec<Held>, held: Held)
    ensures
        final(boxes)@.len() == old(boxes)@.len() + 1,
        forall|i: int| 0 <= i < old(boxes)@.len() ==> #[trigger] final(boxes)@[i] == old(boxes)@[i],
        final(boxes)@[old(boxes)@.len() as int] == held,
{
    boxes.push(held);
}

/// Mutable collection of named tools with deterministic dispatch.
pub struct ToolRegistry {
    entries: OrderedMap<String, Entry>,
    boxes: Vec<Held>,
}

/// Every entry has its box.
spec fn owned(entries: Seq<(Seq<char>, Entry)>, boxes: nat) -> bool {
    forall|i: int| 0 <= i < entries.len() ==> (#[trigger] entries[i]).1.owner < boxes
}

proof fn lemma_owned_put(
    entries: Seq<(Seq<char>, Entry)>,
    name: Seq<char>,
    entry: Entry,
    boxes: nat,
)
    requires
        owned(entries, boxes),
        entry.owner < boxes,
    ensures
        owned(with_entry::<String, Entry>(entries, name, entry), boxes),
{
    lemma_position::<String, Entry>(entries, name);
    let after = with_entry::<String, Entry>(entries, name, entry);
    let p = position::<String, Entry>(entries, name);
    assert forall|i: int| 0 <= i < after.len() implies (#[trigger] after[i]).1.owner < boxes by {
        if i < p {
            assert(after[i] == entries[i]);
        } else if i > p {
            assert(after[i] == entries[if present::<String, Entry>(entries, name) {
                i
            } else {
                i - 1
            }]);
        }
    }
}

/// Two lists of entries with the same names and boxes.
spec fn owned_alike(a: Seq<(Seq<char>, Entry)>, b: Seq<(Seq<char>, Entry)>) -> bool {
    &&& a.len() == b.len()
    &&& forall|i: int|
        #![trigger a[i]]
        #![trigger b[i]]
        0 <= i < a.len() ==> a[i].0 == b[i].0 && a[i].1.owner == b[i].1.owner
}

/// The index of the box that holds the tool with this name.
spec fn owner_in(entries: Seq<(Seq<char>, Entry)>, name: Seq<char>) -> int {
    lookup::<String, Entry>(entries, name)->0.owner as int
}

proof fn lemma_owned_alike(a: Seq<(Seq<char>, Entry)>, b: Seq<(Seq<char>, Entry)>, name: Seq<char>)
    requires
        owned_alike(a, b),
        present::<String, Entry>(a, name),
    ensures
        present::<String, Entry>(b, name),
        owner_in(a, name) == owner_in(b, name),
{
    lemma_same_keys::<String, Entry, Entry>(a, b, name);
    lemma_position::<String, Entry>(a, name);
}

proof fn lemma_owners_put(
    entries: Seq<(Seq<char>, Entry)>,
    name: Seq<char>,
    entry: Entry,
    after: Seq<(Seq<char>, Entry)>,
)
    requires
        sorted::<String, Entry>(entries),
        after == with_entry::<String, Entry>(entries, name, entry),
    ensures
        forall|other: Seq<char>| #[trigger]
            present::<String, Entry>(after, other) == (other == name || present::<String, Entry>(
                entries,
                other,
            )),
        forall|other: Seq<char>| #[trigger]
            owner_in(after, other) == if other == name {
                entry.owner as int
            } else {
                owner_in(entries, other)
            },
{
    assert forall|other: Seq<char>| #[trigger]
        present::<String, Entry>(after, other) == (other == name || present::<String, Entry>(
            entries,
            other,
        )) by {
        law_put_then_get::<String, Entry>(entries, name, entry, other);
    }
    assert forall|other: Seq<char>| #[trigger]
        owner_in(after, other) == if other == name {
            entry.owner as int
        } else {
            owner_in(entries, other)
        } by {
        law_put_then_get::<String, Entry>(entries, name, entry, other);
    }
}

/// Whether there is one box more, behind those that there were.
pub open spec fn one_more(
    before: Seq<Box<dyn Toolbox>>,
    after: Seq<Box<dyn Toolbox>>,
    added: Box<dyn Toolbox>,
) -> bool {
    &&& after.len() == before.len() + 1
    &&& after.drop_last() == before
    &&& after[before.len() as int] == added
}

/// Whether there are these two boxes and no other.
pub open spec fn just_two(
    boxes: Seq<Box<dyn Toolbox>>,
    first: Box<dyn Toolbox>,
    second: Box<dyn Toolbox>,
) -> bool {
    &&& boxes.len() == 2
    &&& boxes[0] == first
    &&& boxes[1] == second
}

/// Whether the box at `at` holds the tools with these descriptions.
pub open spec fn kept_at(tools: ToolRegistry, specs: Seq<SpecModel>, at: int) -> bool {
    forall|i: int|
        #![trigger specs[i]]
        0 <= i < specs.len() ==> tools.place(specs[i].name) == at
}

/// Whether no box but the one at `at` has changed.
pub open spec fn others_kept(
    before: Seq<Box<dyn Toolbox>>,
    after: Seq<Box<dyn Toolbox>>,
    at: int,
) -> bool {
    &&& 0 <= at < before.len()
    &&& after.len() == before.len()
    &&& forall|i: int| 0 <= i < before.len() && i != at ==> #[trigger] after[i] == before[i]
}

impl View for ToolRegistry {
    type V = Registered;

    closed spec fn view(&self) -> Registered {
        viewed::<String, Entry>(self.entries@)
    }
}

impl ToolRegistry {
    #[verifier::type_invariant]
    closed spec fn inv(self) -> bool {
        owned(self.entries@, self.boxes@.len())
    }

    /// The boxes of tools, in the order in which they were registered.
    pub closed spec fn held(&self) -> Seq<Box<dyn Toolbox>> {
        Seq::new(self.boxes@.len(), |i: int| self.boxes@[i].toolbox)
    }

    /// The index of the box that holds the tool with this name.
    pub closed spec fn place(&self, name: Seq<char>) -> int {
        owner_in(self.entries@, name)
    }

    pub fn new() -> (r: Self)
        ensures
            r@ == Seq::<(Seq<char>, SpecModel)>::empty(),
            r.held() == Seq::<Box<dyn Toolbox>>::empty(),
    {
        let r = ToolRegistry { entries: OrderedMap::new(), boxes: Vec::new() };
        assert(r@ =~= Seq::<(Seq<char>, SpecModel)>::empty());
        r
    }

    /// Whether a tool with this name is registered.
    pub fn contains(&self, name: &String) -> (r: bool)
        ensures
            r == registered(self@, name@),
    {
        proof {
            lemma_viewed_lookup::<String, Entry>(self.entries@, name@);
        }
        self.entries.contains(name)
    }

    pub fn register<T: Tool + 'static>(&mut self, tool: T) -> (r: Result<(), ToolError>)
        ensures
            exists|spec: ToolSpec| #[trigger]
                call_ensures(T::spec, (&tool,), spec) && if registered(old(self)@, spec.name@) {
                    &&& *final(self) == *old(self)
                    &&& r matches Err(error) && error@ == taken_text(spec.name@)
                } else {
                    &&& r is Ok
                    &&& final(self)@ == with_tool(old(self)@, spec@)
                    &&& one_more(old(self).held(), final(self).held(), Box::new(Single { tool }))
                    &&& final(self).place(spec.name@) == old(self).held().len()
                    &&& forall|name: Seq<char>| #[trigger]
                        registered(old(self)@, name)
                            ==> final(self).place(name) == old(self).place(name)
                },
    {
        let spec = tool.spec();
        let ghost described = spec;
        assert(call_ensures(T::spec, (&tool,), described));
        if self.contains(&spec.name) {
            return Err(
                ToolError {
                    message: labelled("tool is already registered: ", spec.name.as_str()),
                },
            );
        }
        let specs = vec![spec];
        proof {
            assert(specs@[0] == described);
            assert(spec_models(specs@)[0] == described@);
            reveal_with_fuel(with_tools, 2);
            reveal_with_fuel(first_taken, 2);
        }
        self.register_all(specs, Single { tool })
    }

    /// Registers the tools of a box, all of them or none.
    pub fn register_all<B: Toolbox + 'static>(
        &mut self,
        specs: Vec<ToolSpec>,
        toolbox: B,
    ) -> (r: Result<(), ToolError>)
        ensures
            match first_taken(old(self)@, spec_models(specs@), 0) {
                Some(index) => {
                    &&& *final(self) == *old(self)
                    &&& r matches Err(error) && error@ == taken_text(specs@[index].name@)
                },
                None => {
                    &&& final(self)@ == with_tools(
                        old(self)@,
                        spec_models(specs@),
                        specs@.len() as int,
                    )
                    &&& r is Ok
                    &&& one_more(old(self).held(), final(self).held(), Box::new(toolbox))
                    &&& forall|i: int|
                        #![trigger specs@[i]]
                        0 <= i < specs@.len()
                            ==> final(self).place(specs@[i].name@) == old(self).held().len()
                    &&& forall|name: Seq<char>| #[trigger]
                        registered(old(self)@, name)
                            ==> final(self).place(name) == old(self).place(name)
                },
            },
    {
        proof {
            use_type_invariant(&*self);
        }
        self.entries.in_order();
        let ghost before = self@;
        let ghost models = spec_models(specs@);
        let mut taken = ToolRegistry::new();
        std::mem::swap(&mut taken, self);
        let ToolRegistry { entries: old_entries, mut boxes } = taken;
        let owner = boxes.len();
        let mut entries = copy_entries(&old_entries);
        let mut i: usize = 0;
        let ghost roomy = (owner + 1) as nat;
        proof {
            assert forall|name: Seq<char>| #[trigger] registered(before, name) implies present::<
                String,
                Entry,
            >(entries@, name) && owner_in(entries@, name) == owner_in(old_entries@, name) by {
                lemma_viewed_lookup::<String, Entry>(old_entries@, name);
                lemma_owned_alike(old_entries@, entries@, name);
            }
        }
        while i < specs.len()
            invariant
                i <= specs@.len(),
                models == spec_models(specs@),
                viewed::<String, Entry>(entries@) == with_tools(before, models, i as int),
                first_taken(before, models, 0) == first_taken(before, models, i as int),
                owned(entries@, roomy),
                roomy == owner + 1,
                owned(old_entries@, owner as nat),
                owner == boxes@.len(),
                viewed::<String, Entry>(old_entries@) == before,
                before == old(self)@,
                *old(self) == (ToolRegistry { entries: old_entries, boxes }),
                sorted::<String, Entry>(entries@),
                forall|name: Seq<char>| #[trigger]
                    registered(before, name) ==> present::<String, Entry>(entries@, name)
                        && owner_in(entries@, name) == owner_in(old_entries@, name),
                forall|k: int|
                    #![trigger specs@[k]]
                    0 <= k < i ==> present::<String, Entry>(entries@, specs@[k].name@) && owner_in(
                        entries@,
                        specs@[k].name@,
                    ) == owner,
            decreases specs@.len() - i,
        {
            let spec = specs[i].clone();
            assert(models[i as int] == specs@[i as int]@);
            proof {
                lemma_viewed_lookup::<String, Entry>(entries@, spec.name@);
            }
            if entries.contains(&spec.name) {
                *self = ToolRegistry { entries: old_entries, boxes };
                return Err(
                    ToolError {
                        message: labelled("tool is already registered: ", spec.name.as_str()),
                    },
                );
            }
            let name = spec.name.clone();
            let entry = Entry { spec, owner };
            proof {
                lemma_viewed_put::<String, Entry>(entries@, name@, entry);
                lemma_owned_put(entries@, name@, entry, roomy);
                lemma_with_entry_sorted::<String, Entry>(entries@, name@, entry);
                lemma_owners_put(
                    entries@,
                    name@,
                    entry,
                    with_entry::<String, Entry>(entries@, name@, entry),
                );
            }
            entries.insert(name, entry);
            i += 1;
        }
        push_box(&mut boxes, Held { toolbox: Box::new(toolbox) });
        *self = ToolRegistry { entries, boxes };
        assert(self.held().drop_last() =~= old(self).held());
        Ok(())
    }

    pub fn specs(&self) -> (r: Vec<ToolSpec>)
        ensures
            spec_models(r@) == tool_specs(self@),
    {
        let ghost all = tool_specs(self@);
        let n: usize = self.entries.len();
        let mut r: Vec<ToolSpec> = Vec::new();
        let mut i: usize = 0;
        while i < n
            invariant
                i <= n,
                n == self.entries@.len(),
                all == tool_specs(self@),
                self@ == viewed::<String, Entry>(self.entries@),
                r@.len() == i,
                forall|k: int| 0 <= k < i ==> (#[trigger] r@[k])@ == all[k],
            decreases n - i,
        {
            r.push(self.entries.value(i).spec.clone());
            i += 1;
        }
        assert(spec_models(r@) =~= all);
        r
    }

    /// The box that holds the tool with this name.
    fn owner(&self, name: &String) -> (r: Option<usize>)
        ensures
            match r {
                Some(owner) => registered(self@, name@) && owner < self.boxes@.len() && owner
                    == self.place(name@),
                None => !registered(self@, name@),
            },
    {
        proof {
            use_type_invariant(self);
            lemma_viewed_lookup::<String, Entry>(self.entries@, name@);
            lemma_position::<String, Entry>(self.entries@, name@);
        }
        match self.entries.index(name) {
            Some(i) => Some(self.entries.value(i).owner),
            None => None,
        }
    }

    /// Takes over the tools of `other`, unless one of their names is taken.
    pub fn merge(&mut self, other: ToolRegistry) -> (r: Result<(), ToolError>)
        ensures
            match first_shared(old(self)@, other@, 0) {
                Some(index) => {
                    &&& *final(self) == *old(self)
                    &&& r matches Err(error) && error@ == taken_text(other@[index].0)
                },
                None => {
                    &&& r is Ok
                    &&& final(self)@ == merged(old(self)@, other@, other@.len() as int)
                    &&& final(self).held() == old(self).held() + other.held()
                    &&& forall|name: Seq<char>| #[trigger]
                        registered(old(self)@, name)
                            ==> final(self).place(name) == old(self).place(name)
                    &&& forall|name: Seq<char>| #[trigger]
                        registered(other@, name)
                            ==> final(self).place(name) == old(self).held().len()
                            + other.place(name)
                },
            },
            sorted::<String, SpecModel>(other@),
    {
        let ghost before = self@;
        let ghost added = other@;
        self.entries.in_order();
        other.entries.in_order();
        proof {
            lemma_viewed_sorted::<String, Entry>(other.entries@);
        }
        let n: usize = other.entries.len();
        let mut i: usize = 0;
        while i < n
            invariant
                i <= n,
                n == other.entries@.len(),
                added == other@,
                added == viewed::<String, Entry>(other.entries@),
                before == self@,
                before == old(self)@,
                first_shared(before, added, 0) == first_shared(before, added, i as int),
                *self == *old(self),
                sorted::<String, SpecModel>(added),
                forall|k: int| 0 <= k < i ==> !registered(before, (#[trigger] added[k]).0),
            decreases n - i,
        {
            let name = other.entries.key(i);
            assert(added[i as int].0 == name@);
            if self.contains(name) {
                return Err(
                    ToolError {
                        message: labelled("tool is already registered: ", name.as_str()),
                    },
                );
            }
            i += 1;
        }
        proof {
            use_type_invariant(&*self);
            use_type_invariant(&other);
        }
        let ghost first = self.entries@;
        let ghost joined = self.held() + other.held();
        let mut taken = ToolRegistry::new();
        std::mem::swap(&mut taken, self);
        let ToolRegistry { entries: mut entries, mut boxes } = taken;
        let ToolRegistry { entries: others, boxes: mut more } = other;
        let offset: usize = boxes.len();
        let ghost sum = (boxes@.len() + more@.len()) as nat;
        boxes.append(&mut more);
        let total: usize = boxes.len();
        assert(total == sum);
        i = 0;
        while i < n
            invariant
                i <= n,
                n == others@.len(),
                added == viewed::<String, Entry>(others@),
                before == viewed::<String, Entry>(first),
                viewed::<String, Entry>(entries@) == merged(before, added, i as int),
                owned(entries@, sum),
                owned(others@, (sum - offset) as nat),
                offset <= sum,
                sum == total,
                sorted::<String, Entry>(entries@),
                sorted::<String, Entry>(others@),
                forall|k: int| 0 <= k < n ==> !registered(before, (#[trigger] added[k]).0),
                forall|name: Seq<char>| #[trigger]
                    present::<String, Entry>(first, name) ==> owner_in(entries@, name) == owner_in(
                        first,
                        name,
                    ),
                forall|k: int|
                    #![trigger others@[k]]
                    0 <= k < i ==> owner_in(entries@, others@[k].0) == offset + others@[k].1.owner,
            decreases n - i,
        {
            let name = others.key(i).clone();
            assert(others@[i as int].1.owner < sum - offset);
            let entry = Entry {
                spec: others.value(i).spec.clone(),
                owner: offset + others.value(i).owner,
            };
            assert(added[i as int] == (name@, entry@));
            proof {
                lemma_viewed_put::<String, Entry>(entries@, name@, entry);
                lemma_owned_put(entries@, name@, entry, sum);
                lemma_with_entry_sorted::<String, Entry>(entries@, name@, entry);
                lemma_owners_put(
                    entries@,
                    name@,
                    entry,
                    with_entry::<String, Entry>(entries@, name@, entry),
                );
                lemma_viewed_lookup::<String, Entry>(first, name@);
                String::lemma_irreflexive(name@);
            }
            entries.insert(name, entry);
            i += 1;
        }
        *self = ToolRegistry { entries, boxes };
        proof {
            assert(self.held() =~= joined);
            assert forall|name: Seq<char>| #[trigger] registered(before, name) implies self.place(
                name,
            ) == owner_in(first, name) by {
                lemma_viewed_lookup::<String, Entry>(first, name);
            }
            assert forall|name: Seq<char>| #[trigger] registered(added, name) implies self.place(
                name,
            ) == offset + owner_in(others@, name) by {
                lemma_viewed_lookup::<String, Entry>(others@, name);
                let p = position::<String, Entry>(others@, name);
                assert(others@[p].0 == name);
            }
        }
        Ok(())
    }

    /// Has the box that holds the tool of a call carry the call out.
    pub fn execute(&mut self, call: &ToolCall) -> (r: ToolResult)
        ensures
            final(self)@ == old(self)@,
            forall|name: Seq<char>| #[trigger] final(self).place(name) == old(self).place(name),
            !registered(old(self)@, call.name@) ==> *final(self) == *old(self) && r@
                == unknown_result(call@),
            registered(old(self)@, call.name@) ==> ({
                let at = old(self).place(call.name@);
                &&& others_kept(old(self).held(), final(self).held(), at)
                &&& exists|b: &mut (dyn Toolbox + 'static), outcome: Result<String, ToolError>|
                    #[trigger]
                    executes(b, call.name@, &call.arguments, outcome)
                        && &*b == &*old(self).held()[at]
                        && &*final(b) == &*final(self).held()[at] && r@ == call_result(
                        call@,
                        tool_outcome(outcome),
                    )
            }),
    {
        let owner = self.owner(&call.name);
        let owner = match owner {
            None => {
                return make_result(
                    call,
                    Err(ToolError { message: labelled("unknown tool: ", call.name.as_str()) }),
                );
            },
            Some(owner) => owner,
        };
        proof {
            use_type_invariant(&*self);
        }
        let mut taken = ToolRegistry::new();
        std::mem::swap(&mut taken, self);
        let ToolRegistry { entries, mut boxes } = taken;
        let outcome = carry_out(&mut *boxes[owner].toolbox, &call.name, &call.arguments);
        *self = ToolRegistry { entries, boxes };
        assert(self.held()[owner as int] == self.boxes@[owner as int].toolbox);
        assert(old(self).held()[owner as int] == old(self).boxes@[owner as int].toolbox);
        make_result(call, outcome)
    }

    /// The permission that the tool of a call asks for before it is carried out.
    pub fn permission_request(&self, call: &ToolCall) -> (r: Option<PermissionRequest>)
        ensures
            !registered(self@, call.name@) ==> r is None,
            registered(self@, call.name@) ==> exists|asked: Option<PermissionRequest>| #[trigger]
                permits(
                    &*self.held()[self.place(call.name@)],
                    call.name@,
                    &call.arguments,
                    asked,
                ) && asked_for(r) == scoped_request(call@, asked_for(asked)),
    {
        match self.owner(&call.name) {
            None => None,
            Some(owner) => {
                let asked = ask_permission(
                    &*self.boxes[owner].toolbox,
                    &call.name,
                    &call.arguments,
                );
                assert(self.held()[owner as int] == self.boxes@[owner as int].toolbox);
                match asked {
                    None => None,
                    Some(request) => Some(scope_request(call, request)),
                }
            },
        }
    }
}

/// Whether a registry may return this for a call: `tools` stands for it before and after.
pub open spec fn carries_out(tools: &mut ToolRegistry, call: &ToolCall, result: ToolResult) -> bool {
    call_ensures(ToolRegistry::execute, (tools, call), result)
}

fn copy_entries(entries: &OrderedMap<String, Entry>) -> (r: OrderedMap<String, Entry>)
    ensures
        viewed::<String, Entry>(r@) == viewed::<String, Entry>(entries@),
        sorted::<String, Entry>(r@),
        owned_alike(entries@, r@),
{
    let ghost all = entries@;
    let n: usize = entries.len();
    let mut r: OrderedMap<String, Entry> = OrderedMap::new();
    let mut i: usize = 0;
    entries.in_order();
    while i < n
        invariant
            i <= n,
            n == entries@.len(),
            all == entries@,
            sorted::<String, Entry>(all),
            r@.len() == i,
            forall|k: int|
                0 <= k < i ==> (#[trigger] r@[k]).0 == all[k].0 && r@[k].1@ == all[k].1@
                    && r@[k].1.owner == all[k].1.owner,
        decreases n - i,
    {
        let name = entries.key(i).clone();
        let value = Entry {
            spec: entries.value(i).spec.clone(),
            owner: entries.value(i).owner,
        };
        let ghost before = r@;
        proof {
            assert forall|k: int| 0 <= k < before.len() implies <String as OrderedKey>::before(
                (#[trigger] before[k]).0,
                name@,
            ) by {
                assert(before[k].0 == all[k].0);
                assert(all[i as int].0 == name@);
            }
            lemma_put_at_end::<String, Entry>(before, name@, value);
        }
        r.insert(name, value);
        i += 1;
    }
    assert(viewed::<String, Entry>(r@) =~= viewed::<String, Entry>(all));
    r.in_order();
    r
}

impl Default for ToolRegistry {
    fn default() -> (r: Self)
        ensures
            r@ == Seq::<(Seq<char>, SpecModel)>::empty(),
            r.held() == Seq::<Box<dyn Toolbox>>::empty(),
    {
        ToolRegistry::new()
    }
}

// ---------------------------------------------------------------------------
// Laws
// ---------------------------------------------------------------------------

/// What is registered after the first `n` of `specs`: what was, and these.
pub proof fn lemma_with_tools(tools: Registered, specs: Seq<SpecModel>, n: int, name: Seq<char>)
    requires
        sorted::<String, SpecModel>(tools),
        0 <= n <= specs.len(),
    ensures
        sorted::<String, SpecModel>(with_tools(tools, specs, n)),
        registered(with_tools(tools, specs, n), name) == (registered(tools, name) || exists|k: int|
            0 <= k < n && (#[trigger] specs[k]).name == name),
    decreases n,
{
    if n > 0 {
        lemma_with_tools(tools, specs, n - 1, name);
        let before = with_tools(tools, specs, n - 1);
        let spec = specs[n - 1];
        lemma_with_entry_sorted::<String, SpecModel>(before, spec.name, spec);
        law_put_then_get::<String, SpecModel>(before, spec.name, spec, name);
        if registered(with_tools(tools, specs, n), name) && !registered(tools, name) {
            if spec.name == name {
                assert(specs[n - 1].name == name);
            }
        }
    }
}

/// The box that holds tools holds those with their descriptions.
pub(crate) proof fn lemma_kept_at(tools: ToolRegistry, specs: Seq<ToolSpec>, at: int)
    requires
        forall|i: int|
            #![trigger specs[i]]
            0 <= i < specs.len() ==> tools.place(specs[i].name@) == at,
    ensures
        kept_at(tools, spec_models(specs), at),
{
    let models = spec_models(specs);
    assert forall|i: int| #![trigger models[i]] 0 <= i < models.len() implies tools.place(
        models[i].name,
    ) == at by {
        assert(models[i] == specs[i]@);
    }
}

/// Registered tools stay in their boxes when others come behind them.
pub(crate) proof fn lemma_kept_in_merges(
    tools: ToolRegistry,
    before: ToolRegistry,
    specs: Seq<SpecModel>,
    at: int,
    by: int,
)
    requires
        kept_at(before, specs, at),
        before@ == with_tools(Seq::empty(), specs, specs.len() as int),
        forall|name: Seq<char>| #[trigger]
            registered(before@, name) ==> tools.place(name) == before.place(name) + by,
    ensures
        kept_at(tools, specs, at + by),
{
    assert forall|i: int| #![trigger specs[i]] 0 <= i < specs.len() implies tools.place(
        specs[i].name,
    ) == at + by by {
        lemma_with_tools(Seq::empty(), specs, specs.len() as int, specs[i].name);
        assert(registered(before@, specs[i].name));
    }
}

/// Tools with names of their own that are not taken are all registered.
pub proof fn law_new_names_are_registered(tools: Registered, specs: Seq<SpecModel>, index: int)
    requires
        sorted::<String, SpecModel>(tools),
        forall|i: int| 0 <= i < specs.len() ==> !registered(tools, (#[trigger] specs[i]).name),
        forall|i: int, j: int|
            0 <= i < j < specs.len() ==> (#[trigger] specs[i]).name != (#[trigger] specs[j]).name,
        0 <= index <= specs.len(),
    ensures
        first_taken(tools, specs, index) is None,
    decreases specs.len() - index,
{
    if index < specs.len() {
        lemma_with_tools(tools, specs, index, specs[index].name);
        law_new_names_are_registered(tools, specs, index + 1);
    }
}

/// A merge that is refused names the first of the shared names, in the order of names.
pub proof fn law_refused_merges_name_the_first_shared(
    tools: Registered,
    other: Registered,
    index: int,
    name: Seq<char>,
)
    requires
        sorted::<String, SpecModel>(other),
        0 <= index <= other.len(),
        forall|k: int| 0 <= k < index ==> !registered(tools, (#[trigger] other[k]).0),
        registered(tools, name),
        registered(other, name),
    ensures
        first_shared(tools, other, index) matches Some(at) && index <= at < other.len()
            && registered(
            tools,
            other[at].0,
        ) && (other[at].0 == name || String::before(other[at].0, name)),
    decreases other.len() - index,
{
    lemma_position::<String, SpecModel>(other, name);
    let p = position::<String, SpecModel>(other, name);
    assert(other[p].0 == name);
    if index < other.len() && !registered(tools, other[index].0) {
        law_refused_merges_name_the_first_shared(tools, other, index + 1, name);
    }
}

/// Registries without a name in common can be merged.
pub proof fn law_tools_with_other_names_can_be_merged(
    tools: Registered,
    other: Registered,
    index: int,
)
    requires
        sorted::<String, SpecModel>(other),
        0 <= index <= other.len(),
        forall|name: Seq<char>| registered(other, name) ==> !#[trigger] registered(tools, name),
    ensures
        first_shared(tools, other, index) is None,
    decreases other.len() - index,
{
    if index < other.len() {
        lemma_found::<String, SpecModel>(other, index);
        assert(registered(other, other[index].0));
        law_tools_with_other_names_can_be_merged(tools, other, index + 1);
    }
}

/// A merge keeps the tools of both sides, each under its name.
pub proof fn law_merged_tools_are_found(tools: Registered, other: Registered, name: Seq<char>)
    requires
        sorted::<String, SpecModel>(tools),
        sorted::<String, SpecModel>(other),
    ensures
        lookup::<String, SpecModel>(merged(tools, other, other.len() as int), name) == (if lookup::<
            String,
            SpecModel,
        >(other, name) is Some {
            lookup::<String, SpecModel>(other, name)
        } else {
            lookup::<String, SpecModel>(tools, name)
        }),
{
    lemma_position::<String, SpecModel>(other, name);
    lemma_merged_up_to(tools, other, other.len() as int, name);
    if let Some(spec) = lookup::<String, SpecModel>(other, name) {
        let p = position::<String, SpecModel>(other, name);
        assert(other[p].0 == name);
    } else {
        assert forall|k: int| 0 <= k < other.len() implies (#[trigger] other[k]).0 != name by {
            if other[k].0 == name {
                lemma_found::<String, SpecModel>(other, k);
            }
        }
    }
}

proof fn lemma_merged_up_to(tools: Registered, other: Registered, n: int, name: Seq<char>)
    requires
        sorted::<String, SpecModel>(tools),
        sorted::<String, SpecModel>(other),
        0 <= n <= other.len(),
    ensures
        sorted::<String, SpecModel>(merged(tools, other, n)),
        forall|k: int|
            0 <= k < n && (#[trigger] other[k]).0 == name ==> lookup::<String, SpecModel>(
                merged(tools, other, n),
                name,
            ) == Some(other[k].1),
        (forall|k: int| 0 <= k < n ==> (#[trigger] other[k]).0 != name) ==> lookup::<
            String,
            SpecModel,
        >(merged(tools, other, n), name) == lookup::<String, SpecModel>(tools, name),
    decreases n,
{
    if n > 0 {
        lemma_merged_up_to(tools, other, n - 1, name);
        let before = merged(tools, other, n - 1);
        lemma_with_entry_sorted::<String, SpecModel>(before, other[n - 1].0, other[n - 1].1);
        law_put_then_get::<String, SpecModel>(before, other[n - 1].0, other[n - 1].1, name);
        assert forall|k: int| 0 <= k < n && (#[trigger] other[k]).0 == name implies lookup::<
            String,
            SpecModel,
        >(merged(tools, other, n), name) == Some(other[k].1) by {
            if k < n - 1 && other[n - 1].0 == name {
                lemma_found::<String, SpecModel>(other, k);
                lemma_found::<String, SpecModel>(other, n - 1);
            }
        }
    }
}

/// A result has the identifier and the name of its call; what a tool says is its content, and what
/// it fails with is marked as an error, as is a call of a tool that is not there. A request for
/// permission is set apart by the call it is for.
pub proof fn law_results_have_the_identifier_of_their_call(
    call: CallModel,
    said: Seq<char>,
    request: RequestedModel,
)
    ensures
        call_result(call, Ok(said)).content == said && !call_result(call, Ok(said)).is_error,
        call_result(call, Err(said)).content == said && call_result(call, Err(said)).is_error,
        forall|outcome: Result<Seq<char>, Seq<char>>| #[trigger]
            call_result(call, outcome).id == call.id && call_result(call, outcome).name
                == call.name,
        unknown_result(call).is_error && unknown_result(call).id == call.id,
        scoped(call, request).tool == request.tool && scoped(call, request).description
            == request.description,
        scoped(call, request).id == call.id + seq![':'] + request.id,
        scoped_request(call, None) is None,
        scoped_request(call, Some(request)) == Some(scoped(call, request)),
{
    reveal_strlit(":");
    assert(scoped(call, request).id =~= call.id + seq![':'] + request.id);
}

} // verus!
