//! Decisions that a waiting agent gets from the browser.

use vstd::prelude::*;

#[allow(unused_imports)]
use crate::agent_messages::DecisionModel;
use crate::agent_messages::PermissionDecision;
use crate::ordered::OrderedMap;
#[allow(unused_imports)]
use crate::ordered::{
    law_put_then_get, law_remove_then_get, lemma_position, lemma_same_keys,
    lemma_with_entry_sorted, lookup, present, sorted, with_entry, without_entry,
};
#[allow(unused_imports)]
use crate::text::{all_white, blank, law_blank_texts_are_white};
use crate::text::{is_blank, same_text};

verus! {

#[derive(Debug, Clone, Copy, PartialEq, Eq, Structural)]
pub enum ApprovalReply {
    Allow,
    Deny,
    Cancelled,
}

#[derive(Debug, Clone, Copy, PartialEq, Eq, Structural)]
pub enum ApprovalState {
    Pending,
    Resolved(ApprovalReply),
}

/// The requests that are known, by their ids.
pub type Approvals = Seq<(Seq<char>, ApprovalState)>;

/// The decision that a reply stands for.
pub open spec fn reply_decision(reply: ApprovalReply) -> DecisionModel {
    match reply {
        ApprovalReply::Allow => DecisionModel::Allow,
        ApprovalReply::Deny => DecisionModel::Deny { reason: "approval denied in browser"@ },
        ApprovalReply::Cancelled => DecisionModel::Deny { reason: "approval cancelled"@ },
    }
}

/// What a waiting agent has after a look: nothing yet, or a decision.
pub open spec fn outcome(r: Option<PermissionDecision>) -> Option<DecisionModel> {
    match r {
        Some(decision) => Some(decision@),
        None => None,
    }
}

/// The requests once `id` is known.
pub open spec fn awaited(s: Approvals, id: Seq<char>) -> Approvals {
    if present::<String, ApprovalState>(s, id) {
        s
    } else {
        with_entry::<String, ApprovalState>(s, id, ApprovalState::Pending)
    }
}

/// A look at a request that is known: what is left, and what the agent has.
pub open spec fn looked(s: Approvals, id: Seq<char>, cancelled: bool) -> (
    Approvals,
    Option<DecisionModel>,
) {
    if cancelled {
        (
            without_entry::<String, ApprovalState>(s, id),
            Some(reply_decision(ApprovalReply::Cancelled)),
        )
    } else {
        match lookup::<String, ApprovalState>(s, id) {
            Some(ApprovalState::Resolved(reply)) => (
                without_entry::<String, ApprovalState>(s, id),
                Some(reply_decision(reply)),
            ),
            _ => (s, None),
        }
    }
}

/// The requests after a reply to `id`.
pub open spec fn replied(s: Approvals, id: Seq<char>, reply: ApprovalReply) -> (
    Approvals,
    Result<(), Seq<char>>,
) {
    if blank(id) {
        (s, Err("approval id is empty"@))
    } else if lookup::<String, ApprovalState>(s, id) matches Some(state)
        && state is Resolved {
        (s, Err("approval was already resolved"@))
    } else {
        (with_entry::<String, ApprovalState>(s, id, ApprovalState::Resolved(reply)), Ok(()))
    }
}

/// A request once everything that waits is cancelled.
pub open spec fn cancelled_state(state: ApprovalState) -> ApprovalState {
    match state {
        ApprovalState::Pending => ApprovalState::Resolved(ApprovalReply::Cancelled),
        ApprovalState::Resolved(_) => state,
    }
}

/// The requests once everything that waits is cancelled.
pub open spec fn all_cancelled(s: Approvals) -> Approvals {
    Seq::new(s.len(), |i: int| (s[i].0, cancelled_state(s[i].1)))
}

#[derive(Debug)]
pub struct ApprovalStore {
    states: OrderedMap<String, ApprovalState>,
}

impl View for ApprovalStore {
    type V = Approvals;

    closed spec fn view(&self) -> Approvals {
        self.states@
    }
}

fn decide(reply: ApprovalReply) -> (r: PermissionDecision)
    ensures
        r@ == reply_decision(reply),
{
    match reply {
        ApprovalReply::Allow => PermissionDecision::Allow,
        ApprovalReply::Deny => PermissionDecision::Deny {
            reason: "approval denied in browser".to_owned(),
        },
        ApprovalReply::Cancelled => PermissionDecision::Deny {
            reason: "approval cancelled".to_owned(),
        },
    }
}

impl ApprovalStore {
    pub fn new() -> (r: Self)
        ensures
            r@ == Seq::<(Seq<char>, ApprovalState)>::empty(),
    {
        ApprovalStore { states: OrderedMap::new() }
    }

    /// Whether a request is known.
    pub fn knows(&self, id: &str) -> (r: bool)
        ensures
            r == present::<String, ApprovalState>(self@, id@),
    {
        self.states.contains(&id.to_owned())
    }

    /// Begins to wait for the decision on a request and looks whether it is there already.
    pub fn wait(&mut self, id: &str, cancelled: bool) -> (r: Option<PermissionDecision>)
        ensures
            (final(self)@, outcome(r)) == looked(awaited(old(self)@, id@), id@, cancelled),
    {
        self.states.in_order();
        let key = id.to_owned();
        let ghost before = self@;
        if !self.states.contains(&key) {
            self.states.insert(key, ApprovalState::Pending);
            proof {
                law_put_then_get::<String, ApprovalState>(
                    before,
                    id@,
                    ApprovalState::Pending,
                    id@,
                );
            }
        }
        self.look(id, cancelled)
    }

    /// Looks for the decision on a request that is waited for.
    pub fn look(&mut self, id: &str, cancelled: bool) -> (r: Option<PermissionDecision>)
        requires
            present::<String, ApprovalState>(old(self)@, id@),
        ensures
            (final(self)@, outcome(r)) == looked(old(self)@, id@, cancelled),
    {
        let key = id.to_owned();
        if cancelled {
            let _ = self.states.remove(&key);
            return Some(PermissionDecision::Deny { reason: "approval cancelled".to_owned() });
        }
        let state = match self.states.get(&key) {
            Some(state) => *state,
            None => ApprovalState::Pending,
        };
        match state {
            ApprovalState::Pending => None,
            ApprovalState::Resolved(reply) => {
                let _ = self.states.remove(&key);
                Some(decide(reply))
            },
        }
    }

    /// Gives up on a request that was waited for too long.
    pub fn time_out(&mut self, id: &str) -> (r: PermissionDecision)
        ensures
            final(self)@ == without_entry::<String, ApprovalState>(old(self)@, id@),
            r@ == (DecisionModel::Deny { reason: "approval timed out"@ }),
    {
        let _ = self.states.remove(&id.to_owned());
        PermissionDecision::Deny { reason: "approval timed out".to_owned() }
    }

    /// Cancels every request that is waited for.
    pub fn cancel_pending(&mut self)
        ensures
            final(self)@ == all_cancelled(old(self)@),
    {
        let ghost before = self@;
        let n: usize = self.states.len();
        let mut i: usize = 0;
        while i < n
            invariant
                i <= n,
                n == before.len(),
                self@.len() == n,
                before == old(self)@,
                forall|j: int| 0 <= j < i ==> #[trigger] self@[j] == all_cancelled(before)[j],
                forall|j: int| i <= j < n ==> #[trigger] self@[j] == before[j],
            decreases n - i,
        {
            match *self.states.value(i) {
                ApprovalState::Pending => {
                    self.states.set(i, ApprovalState::Resolved(ApprovalReply::Cancelled));
                },
                ApprovalState::Resolved(_) => {},
            }
            i += 1;
        }
        assert(self@ =~= all_cancelled(before));
    }

    /// Replies to a request, whether or not it is waited for yet.
    pub fn resolve(&mut self, id: String, reply: ApprovalReply) -> (r: Result<(), String>)
        ensures
            final(self)@ == replied(old(self)@, id@, reply).0,
            match r {
                Ok(_) => replied(old(self)@, id@, reply).1 is Ok,
                Err(message) => replied(old(self)@, id@, reply).1 == Err::<(), Seq<char>>(
                    message@,
                ),
            },
    {
        if is_blank(id.as_str()) {
            return Err("approval id is empty".to_owned());
        }
        match self.states.get(&id) {
            Some(ApprovalState::Resolved(_)) => {
                return Err("approval was already resolved".to_owned());
            },
            _ => {},
        }
        self.states.insert(id, ApprovalState::Resolved(reply));
        Ok(())
    }
}

impl Default for ApprovalStore {
    fn default() -> (r: Self)
        ensures
            r@ == Seq::<(Seq<char>, ApprovalState)>::empty(),
    {
        ApprovalStore::new()
    }
}

/// The reply that an approval request of the browser asks for.
pub fn parse_decision(decision: &str) -> (r: Option<ApprovalReply>)
    ensures
        r == (if decision@ == "allow"@ {
            Some(ApprovalReply::Allow)
        } else if decision@ == "deny"@ {
            Some(ApprovalReply::Deny)
        } else {
            None
        }),
{
    if same_text(decision, "allow") {
        Some(ApprovalReply::Allow)
    } else if same_text(decision, "deny") {
        Some(ApprovalReply::Deny)
    } else {
        None
    }
}

/// A reply reaches the agent, whether it was given before the agent began to wait or after.
pub proof fn law_replies_reach_the_agent(s: Approvals, id: Seq<char>, reply: ApprovalReply)
    requires
        sorted::<String, ApprovalState>(s),
        !present::<String, ApprovalState>(s, id),
        !blank(id),
    ensures
        ({
            let (early, accepted) = replied(s, id, reply);
            &&& accepted is Ok
            &&& looked(awaited(early, id), id, false).1 == Some(reply_decision(reply))
        }),
        ({
            let waiting = looked(awaited(s, id), id, false);
            let (late, accepted) = replied(waiting.0, id, reply);
            &&& waiting.1 is None
            &&& accepted is Ok
            &&& looked(late, id, false).1 == Some(reply_decision(reply))
        }),
{
    let pending = ApprovalState::Pending;
    let resolved = ApprovalState::Resolved(reply);
    law_put_then_get::<String, ApprovalState>(s, id, resolved, id);
    law_put_then_get::<String, ApprovalState>(s, id, pending, id);
    lemma_with_entry_sorted::<String, ApprovalState>(s, id, pending);
    law_put_then_get::<String, ApprovalState>(awaited(s, id), id, resolved, id);
}

/// A request is decided once: a second reply is refused and changes nothing.
pub proof fn law_requests_are_decided_once(
    s: Approvals,
    id: Seq<char>,
    first: ApprovalReply,
    second: ApprovalReply,
)
    requires
        sorted::<String, ApprovalState>(s),
        replied(s, id, first).1 is Ok,
    ensures
        ({
            let decided = replied(s, id, first).0;
            &&& replied(decided, id, second).0 == decided
            &&& replied(decided, id, second).1 == Err::<(), Seq<char>>(
                "approval was already resolved"@,
            )
        }),
{
    law_put_then_get::<String, ApprovalState>(s, id, ApprovalState::Resolved(first), id);
}

/// Cancelling releases every agent that waits, and a decision that was made stands.
pub proof fn law_cancelling_releases_waiting_agents(s: Approvals, id: Seq<char>)
    requires
        sorted::<String, ApprovalState>(s),
        present::<String, ApprovalState>(s, id),
    ensures
        looked(all_cancelled(s), id, false).1 == (match lookup::<String, ApprovalState>(s, id)->0 {
            ApprovalState::Pending => Some(
                DecisionModel::Deny { reason: "approval cancelled"@ },
            ),
            ApprovalState::Resolved(reply) => Some(reply_decision(reply)),
        }),
{
    lemma_same_keys::<String, ApprovalState, ApprovalState>(s, all_cancelled(s), id);
    lemma_position::<String, ApprovalState>(s, id);
}

/// What was waited for is forgotten once it is decided.
pub proof fn law_decided_requests_are_forgotten(s: Approvals, id: Seq<char>, cancelled: bool)
    requires
        sorted::<String, ApprovalState>(s),
        looked(s, id, cancelled).1 is Some,
    ensures
        !present::<String, ApprovalState>(looked(s, id, cancelled).0, id),
{
    law_remove_then_get::<String, ApprovalState>(s, id, id);
}

/// An agent is allowed to go on only where the reply to its own request was to allow it and nothing
/// was cancelled; a denial and a cancellation deny it, and without a reply it has nothing.
pub proof fn law_only_an_allowing_reply_allows(s: Approvals, id: Seq<char>, cancelled: bool)
    ensures
        ({
            let got = looked(s, id, cancelled).1;
            let held = lookup::<String, ApprovalState>(s, id);
            &&& got == Some(DecisionModel::Allow) <==> !cancelled && held == Some(
                ApprovalState::Resolved(ApprovalReply::Allow),
            )
            &&& got is None <==> !cancelled && (held is None || held == Some(ApprovalState::Pending))
            &&& (got matches Some(DecisionModel::Deny { .. })) <==> cancelled || held == Some(
                ApprovalState::Resolved(ApprovalReply::Deny),
            ) || held == Some(ApprovalState::Resolved(ApprovalReply::Cancelled))
        }),
{
}

/// A reply is taken for the request that it names, and for no other: what others wait for, or were
/// told, stays as it was.
pub proof fn law_replies_are_for_their_request(
    s: Approvals,
    id: Seq<char>,
    reply: ApprovalReply,
    cancelled: bool,
    other: Seq<char>,
)
    requires
        sorted::<String, ApprovalState>(s),
    ensures
        replied(s, id, reply).1 is Ok <==> !all_white(id) && !(lookup::<String, ApprovalState>(
            s,
            id,
        ) matches Some(ApprovalState::Resolved(_))),
        replied(s, id, reply).1 is Ok ==> lookup::<String, ApprovalState>(
            replied(s, id, reply).0,
            id,
        ) == Some(ApprovalState::Resolved(reply)),
        other != id ==> lookup::<String, ApprovalState>(replied(s, id, reply).0, other) == lookup::<
            String,
            ApprovalState,
        >(s, other),
        other != id ==> lookup::<String, ApprovalState>(looked(s, id, cancelled).0, other)
            == lookup::<String, ApprovalState>(s, other),
        other != id ==> lookup::<String, ApprovalState>(awaited(s, id), other) == lookup::<
            String,
            ApprovalState,
        >(s, other),
{
    law_blank_texts_are_white(id, ' ');
    law_put_then_get::<String, ApprovalState>(s, id, ApprovalState::Resolved(reply), id);
    law_put_then_get::<String, ApprovalState>(s, id, ApprovalState::Resolved(reply), other);
    law_put_then_get::<String, ApprovalState>(s, id, ApprovalState::Pending, other);
    law_remove_then_get::<String, ApprovalState>(s, id, other);
}

} // verus!
