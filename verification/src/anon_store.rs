//! The anonymous sessions of the browser host.

use vstd::prelude::*;

use crate::anon_session::{cookie_header, extract_sid, generate_sid, is_valid_sid_format};
#[allow(unused_imports)]
use crate::anon_session::{set_cookie, sid_from, valid_sid};
use crate::approvals::ApprovalStore;
#[allow(unused_imports)]
use crate::approvals::Approvals;
#[allow(unused_imports)]
use crate::hex::hex;
use crate::jobs::JobStore;
#[allow(unused_imports)]
use crate::jobs::{JobsModel, no_jobs};
use crate::ordered::OrderedMap;
#[allow(unused_imports)]
use crate::ordered::{
    OrderedKey, law_put_then_get, law_remove_then_get, lemma_found, lemma_position,
    lemma_put_after_remove, lemma_without_entry_sorted, lookup, position, present, sorted,
    with_entry,
};
use crate::runtime::VmInstance;
#[allow(unused_imports)]
use crate::runtime::{InstanceState, fresh_instance};
#[allow(unused_imports)]
use crate::runtime_error::default_limits;
#[allow(unused_imports)]
use crate::text::split_on;

verus! {

pub const MAX_GLOBAL_SESSIONS: usize = 128;

/// How long a session lives after it was last seen, in nanoseconds.
pub const SESSION_TTL_NANOS: u128 = 1_800_000_000_000;

/// A session and when it was last seen, in nanoseconds on the clock of the host.
#[derive(Debug)]
pub struct Seen<S> {
    pub last_seen: u128,
    pub session: S,
}

/// The sessions of a store, by their ids.
pub type Sessions<S> = Seq<(Seq<char>, Seen<S>)>;

/// How long ago something was seen.
pub open spec fn age(last_seen: u128, now: u128) -> int {
    if now >= last_seen {
        now - last_seen
    } else {
        0
    }
}

pub open spec fn expired<S>(entry: Seen<S>, now: u128) -> bool {
    age(entry.last_seen, now) > SESSION_TTL_NANOS
}

/// The sessions that have not expired.
pub open spec fn live<S>(s: Sessions<S>, now: u128) -> Sessions<S>
    decreases s.len(),
{
    if s.len() == 0 {
        s
    } else {
        let rest = live(s.drop_last(), now);
        if expired(s.last().1, now) {
            rest
        } else {
            rest.push(s.last())
        }
    }
}

/// The index of the session among the first `n` that was not seen for the longest time.
pub open spec fn oldest<S>(s: Sessions<S>, n: int) -> int
    decreases n,
{
    if n <= 1 {
        0
    } else {
        let best = oldest(s, n - 1);
        if s[n - 1].1.last_seen < s[best].1.last_seen {
            n - 1
        } else {
            best
        }
    }
}

/// The sessions with room for one more.
pub open spec fn with_room<S>(s: Sessions<S>) -> Sessions<S> {
    if s.len() >= MAX_GLOBAL_SESSIONS {
        s.remove(oldest(s, s.len() as int))
    } else {
        s
    }
}

/// The id in a cookie header, where it has the form of one.
pub open spec fn cookie_sid(cookie: Option<Seq<char>>) -> Option<Seq<char>> {
    match cookie {
        Some(header) => match sid_from(split_on(header, ';'), 0) {
            Some(sid) => if valid_sid(sid) {
                Some(sid)
            } else {
                None
            },
            None => None,
        },
        None => None,
    }
}

/// The session that a cookie header names among those that have not expired.
pub open spec fn recalled<S>(s: Sessions<S>, cookie: Option<Seq<char>>, now: u128) -> Option<
    Seq<char>,
> {
    match cookie_sid(cookie) {
        Some(sid) => if present::<String, Seen<S>>(live(s, now), sid) {
            Some(sid)
        } else {
            None
        },
        None => None,
    }
}

/// The sessions once `id` was seen.
pub open spec fn touched<S>(s: Sessions<S>, id: Seq<char>, now: u128) -> Sessions<S> {
    match lookup::<String, Seen<S>>(s, id) {
        Some(entry) => with_entry::<String, Seen<S>>(
            s,
            id,
            Seen { last_seen: now, session: entry.session },
        ),
        None => s,
    }
}

/// Whether `after` are the sessions of `before` with a new one under `id`.
pub open spec fn joined_by_new(
    before: Sessions<SessionData>,
    after: Sessions<SessionData>,
    id: Seq<char>,
    now: u128,
) -> bool {
    exists|session: SessionData|
        #[trigger] session.begins(id) && after == with_entry::<String, Seen<SessionData>>(
            before,
            id,
            Seen { last_seen: now, session },
        )
}

/// A cookie header as the contracts see it.
pub open spec fn header_seen(cookie: Option<&str>) -> Option<Seq<char>> {
    match cookie {
        Some(header) => Some(header@),
        None => None,
    }
}

#[derive(Debug)]
pub struct AnonStore<S> {
    sessions: OrderedMap<String, Seen<S>>,
    secure_cookie: bool,
}

impl<S> View for AnonStore<S> {
    type V = Sessions<S>;

    closed spec fn view(&self) -> Sessions<S> {
        self.sessions@
    }
}

proof fn lemma_live<S>(s: Sessions<S>, now: u128)
    requires
        sorted::<String, Seen<S>>(s),
    ensures
        live(s, now).len() <= s.len(),
        sorted::<String, Seen<S>>(live(s, now)),
        forall|i: int|
            0 <= i < live(s, now).len() ==> exists|j: int|
                0 <= j < s.len() && s[j] == #[trigger] live(s, now)[i],
    decreases s.len(),
{
    if s.len() > 0 {
        let front = s.drop_last();
        assert(sorted::<String, Seen<S>>(front)) by {
            assert forall|i: int, j: int| 0 <= i < j < front.len() implies <
                String as OrderedKey>::before((#[trigger] front[i]).0, (#[trigger] front[j]).0) by {
                assert(front[i] == s[i] && front[j] == s[j]);
            }
        }
        lemma_live(front, now);
        let rest = live(front, now);
        let all = live(s, now);
        assert forall|i: int| 0 <= i < all.len() implies exists|j: int|
            0 <= j < s.len() && s[j] == #[trigger] all[i] by {
            if i < rest.len() {
                let j = choose|j: int| 0 <= j < front.len() && front[j] == rest[i];
                assert(s[j] == all[i]);
            } else {
                assert(s[s.len() - 1] == all[i]);
            }
        }
        if !expired(s.last().1, now) {
            assert forall|i: int, j: int| 0 <= i < j < all.len() implies <
                String as OrderedKey>::before((#[trigger] all[i]).0, (#[trigger] all[j]).0) by {
                if j < rest.len() {
                    assert(all[i] == rest[i] && all[j] == rest[j]);
                } else {
                    let k = choose|k: int| 0 <= k < front.len() && front[k] == rest[i];
                    assert(s[k] == all[i]);
                    assert(s[s.len() - 1] == all[j]);
                }
            }
        }
    }
}

proof fn lemma_oldest<S>(s: Sessions<S>, n: int)
    requires
        0 < n <= s.len(),
    ensures
        0 <= oldest(s, n) < n,
        forall|i: int|
            0 <= i < n ==> s[oldest(s, n)].1.last_seen <= (#[trigger] s[i]).1.last_seen,
    decreases n,
{
    if n > 1 {
        lemma_oldest(s, n - 1);
    }
}

impl<S> AnonStore<S> {
    pub fn new() -> (r: Self)
        ensures
            r@ == Seq::<(Seq<char>, Seen<S>)>::empty(),
            !r.secure(),
    {
        AnonStore::with_secure_cookie(false)
    }

    pub fn with_secure_cookie(secure_cookie: bool) -> (r: Self)
        ensures
            r@ == Seq::<(Seq<char>, Seen<S>)>::empty(),
            r.secure() == secure_cookie,
    {
        AnonStore { sessions: OrderedMap::new(), secure_cookie }
    }

    /// Whether the cookies of this store go over secure connections alone.
    pub closed spec fn secure(&self) -> bool {
        self.secure_cookie
    }

    /// The session with an id.
    pub fn session(&self, id: &str) -> (r: Option<&S>)
        ensures
            match r {
                Some(session) => lookup::<String, Seen<S>>(self@, id@) matches Some(entry)
                    && entry.session == *session,
                None => lookup::<String, Seen<S>>(self@, id@) is None,
            },
    {
        match self.sessions.get(&id.to_owned()) {
            Some(entry) => Some(&entry.session),
            None => None,
        }
    }

    /// The number of sessions.
    pub fn len(&self) -> (r: usize)
        ensures
            r == self@.len(),
    {
        self.sessions.len()
    }

    /// Forgets the sessions that have expired.
    fn expire(&mut self, now: u128)
        ensures
            final(self)@ == live(old(self)@, now),
            final(self).secure() == old(self).secure(),
            sorted::<String, Seen<S>>(final(self)@),
    {
        self.sessions.in_order();
        let ghost all = self@;
        let n: usize = self.sessions.len();
        let mut kept: usize = 0;
        let mut done: usize = 0;
        assert(all.take(0) =~= Seq::<(Seq<char>, Seen<S>)>::empty());
        assert(self@ =~= live(all.take(0), now) + all.skip(0));
        while done < n
            invariant
                kept <= done <= n,
                n == all.len(),
                all == old(self)@,
                self.secure() == old(self).secure(),
                sorted::<String, Seen<S>>(self@),
                kept == live(all.take(done as int), now).len(),
                self@ == live(all.take(done as int), now) + all.skip(done as int),
            decreases n - done,
        {
            let ghost front = live(all.take(done as int), now);
            let ghost before = self@;
            assert(before[kept as int] == all[done as int]);
            assert(all.take(done + 1).drop_last() =~= all.take(done as int));
            assert(all.take(done + 1).last() == all[done as int]);
            let last_seen: u128 = self.sessions.value(kept).last_seen;
            if now >= last_seen && now - last_seen > SESSION_TTL_NANOS {
                let key = self.sessions.key(kept).clone();
                proof {
                    lemma_found::<String, Seen<S>>(before, kept as int);
                }
                let _ = self.sessions.remove(&key);
                assert(self@ =~= front + all.skip(done + 1));
            } else {
                kept += 1;
                assert(self@ =~= front.push(all[done as int]) + all.skip(done + 1));
            }
            done += 1;
        }
        assert(all.take(n as int) =~= all);
        assert(self@ =~= live(all, now));
    }

    /// Forgets the session that was not seen for the longest time, where there is no room.
    pub fn make_room(&mut self)
        ensures
            final(self)@ == with_room(old(self)@),
            final(self).secure() == old(self).secure(),
            sorted::<String, Seen<S>>(final(self)@),
    {
        self.sessions.in_order();
        let n: usize = self.sessions.len();
        if n < MAX_GLOBAL_SESSIONS {
            return;
        }
        let ghost all = self@;
        let mut best: usize = 0;
        let mut i: usize = 1;
        while i < n
            invariant
                1 <= i <= n,
                n == all.len(),
                all == self@,
                best < i,
                best == oldest(all, i as int),
            decreases n - i,
        {
            if self.sessions.value(i).last_seen < self.sessions.value(best).last_seen {
                best = i;
            }
            i += 1;
        }
        let key = self.sessions.key(best).clone();
        proof {
            lemma_found::<String, Seen<S>>(all, best as int);
        }
        let _ = self.sessions.remove(&key);
    }

    /// Notes that a session was seen.
    pub fn touch(&mut self, id: &str, now: u128)
        ensures
            final(self)@ == touched(old(self)@, id@, now),
            final(self).secure() == old(self).secure(),
    {
        let key = id.to_owned();
        let ghost before = self@;
        self.sessions.in_order();
        match self.sessions.remove(&key) {
            None => {},
            Some(entry) => {
                let entry = Seen { last_seen: now, session: entry.session };
                proof {
                    lemma_put_after_remove::<String, Seen<S>>(before, id@, entry);
                }
                self.sessions.insert(key, entry);
            },
        }
    }

    /// The id of the session that a cookie header names, which is seen by that. Sessions that
    /// have expired are forgotten.
    pub fn recall(&mut self, cookie_header_value: Option<&str>, now: u128) -> (r: Option<String>)
        ensures
            final(self).secure() == old(self).secure(),
            match recalled(old(self)@, header_seen(cookie_header_value), now) {
                Some(sid) => {
                    &&& r matches Some(id)
                    &&& id@ == sid
                    &&& final(self)@ == touched(live(old(self)@, now), sid, now)
                },
                None => r is None && final(self)@ == live(old(self)@, now),
            },
    {
        self.expire(now);
        match cookie_header_value {
            Some(header) => match extract_sid(header) {
                Some(sid) => {
                    if is_valid_sid_format(sid.as_str()) && self.sessions.contains(&sid) {
                        self.touch(sid.as_str(), now);
                        return Some(sid);
                    }
                },
                None => {},
            },
            None => {},
        }
        None
    }

    /// Keeps a session that has just begun, and gives the cookie to set.
    pub fn start(&mut self, id: &str, session: S, now: u128) -> (r: String)
        ensures
            final(self).secure() == old(self).secure(),
            final(self)@ == with_entry::<String, Seen<S>>(
                with_room(old(self)@),
                id@,
                Seen { last_seen: now, session },
            ),
            r@ == set_cookie(id@, old(self).secure()),
    {
        self.make_room();
        self.sessions.insert(id.to_owned(), Seen { last_seen: now, session });
        cookie_header(id, self.secure_cookie)
    }
}

impl AnonStore<SessionData> {
    /// The session that a request belongs to, by its id: the one that its cookie names, or a new
    /// one with the cookie to set. `random` are the bytes that a new id is made of.
    pub fn resolve(
        &mut self,
        cookie_header_value: Option<&str>,
        now: u128,
        random: Option<[u8; 32]>,
    ) -> (r: Result<(String, Option<String>), String>)
        ensures
            final(self).secure() == old(self).secure(),
            match recalled(old(self)@, header_seen(cookie_header_value), now) {
                Some(sid) => {
                    &&& r matches Ok((id, cookie))
                    &&& id@ == sid
                    &&& cookie is None
                    &&& final(self)@ == touched(live(old(self)@, now), sid, now)
                },
                None => match random {
                    None => {
                        &&& r matches Err(message)
                        &&& message@ == "secure anonymous session generation unavailable"@
                        &&& final(self)@ == with_room(live(old(self)@, now))
                    },
                    Some(bytes) => {
                        &&& r matches Ok((id, Some(cookie)))
                        &&& id@ == hex(bytes@)
                        &&& cookie@ == set_cookie(id@, old(self).secure())
                        &&& joined_by_new(
                            with_room(live(old(self)@, now)),
                            final(self)@,
                            id@,
                            now,
                        )
                    },
                },
            },
    {
        if let Some(id) = self.recall(cookie_header_value, now) {
            return Ok((id, None));
        }
        self.make_room();
        let id = match generate_sid(random) {
            None => {
                return Err("secure anonymous session generation unavailable".to_owned());
            },
            Some(id) => id,
        };
        let session = SessionData::begin(id.as_str());
        let ghost begun = session;
        let ghost room = self@;
        self.sessions.insert(id.clone(), Seen { last_seen: now, session });
        assert(begun.begins(id@));
        assert(self@ == with_entry::<String, Seen<SessionData>>(
            room,
            id@,
            Seen { last_seen: now, session: begun },
        ));
        assert(joined_by_new(room, self@, id@, now));
        let cookie = cookie_header(id.as_str(), self.secure_cookie);
        Ok((id, Some(cookie)))
    }
}

// ---------------------------------------------------------------------------
// What a session holds
// ---------------------------------------------------------------------------

/// The guest environment, the jobs and the approvals of one session.
#[derive(Debug)]
pub struct SessionData {
    pub id: String,
    pub vm: VmInstance,
    pub jobs: JobStore,
    pub approvals: ApprovalStore,
}

impl SessionData {
    /// Whether this is a session that has just begun under an id.
    pub open spec fn begins(&self, id: Seq<char>) -> bool {
        &&& self.id@ == id
        &&& self.vm@ == fresh_instance(id, default_limits())
        &&& self.jobs@ == no_jobs()
        &&& self.approvals@.len() == 0
    }

    /// A session that begins under an id.
    pub fn begin(id: &str) -> (r: Self)
        ensures
            r.begins(id@),
    {
        SessionData {
            id: id.to_owned(),
            vm: VmInstance::new(id),
            jobs: JobStore::new(),
            approvals: ApprovalStore::new(),
        }
    }
}

// ---------------------------------------------------------------------------
// Laws
// ---------------------------------------------------------------------------

/// A store never holds more sessions than its bound.
pub proof fn law_sessions_stay_within_their_bound<S>(
    s: Sessions<S>,
    now: u128,
    id: Seq<char>,
    entry: Seen<S>,
)
    requires
        sorted::<String, Seen<S>>(s),
        s.len() <= MAX_GLOBAL_SESSIONS,
    ensures
        with_room(live(s, now)).len() < MAX_GLOBAL_SESSIONS,
        with_entry::<String, Seen<S>>(with_room(live(s, now)), id, entry).len()
            <= MAX_GLOBAL_SESSIONS,
        touched(live(s, now), id, now).len() <= MAX_GLOBAL_SESSIONS,
{
    lemma_live(s, now);
    let l = live(s, now);
    if l.len() >= MAX_GLOBAL_SESSIONS {
        lemma_oldest(l, l.len() as int);
    }
    lemma_position::<String, Seen<S>>(with_room(l), id);
    lemma_position::<String, Seen<S>>(l, id);
}

/// A session that has expired is not recalled.
pub proof fn law_expired_sessions_are_not_recalled<S>(
    s: Sessions<S>,
    cookie: Option<Seq<char>>,
    now: u128,
)
    requires
        sorted::<String, Seen<S>>(s),
        recalled(s, cookie, now) is Some,
    ensures
        ({
            let sid = recalled(s, cookie, now)->0;
            &&& lookup::<String, Seen<S>>(s, sid) is Some
            &&& !expired(lookup::<String, Seen<S>>(s, sid)->0, now)
        }),
{
    let sid = recalled(s, cookie, now)->0;
    lemma_live(s, now);
    lemma_live_lookup(s, now, sid);
}

/// What is looked up among the live sessions is what was there, unless it expired.
proof fn lemma_live_lookup<S>(s: Sessions<S>, now: u128, id: Seq<char>)
    requires
        sorted::<String, Seen<S>>(s),
    ensures
        lookup::<String, Seen<S>>(live(s, now), id) == match lookup::<String, Seen<S>>(s, id) {
            Some(entry) => if expired(entry, now) {
                None
            } else {
                Some(entry)
            },
            None => None,
        },
{
    lemma_live(s, now);
    lemma_live_unexpired(s, now);
    let l = live(s, now);
    if present::<String, Seen<S>>(l, id) {
        let p = position::<String, Seen<S>>(l, id);
        lemma_position::<String, Seen<S>>(l, id);
        let j = choose|j: int| 0 <= j < s.len() && s[j] == l[p];
        lemma_found::<String, Seen<S>>(s, j);
        lemma_found::<String, Seen<S>>(l, p);
    } else if present::<String, Seen<S>>(s, id) {
        let p = position::<String, Seen<S>>(s, id);
        lemma_position::<String, Seen<S>>(s, id);
        if !expired(s[p].1, now) {
            lemma_live_keeps(s, now, p);
            let i = choose|i: int| 0 <= i < l.len() && l[i] == s[p];
            lemma_found::<String, Seen<S>>(l, i);
        }
    }
}

proof fn lemma_live_unexpired<S>(s: Sessions<S>, now: u128)
    ensures
        forall|i: int| 0 <= i < live(s, now).len() ==> !expired((#[trigger] live(s, now)[i]).1, now),
    decreases s.len(),
{
    if s.len() > 0 {
        let rest = live(s.drop_last(), now);
        lemma_live_unexpired(s.drop_last(), now);
        assert forall|i: int| 0 <= i < live(s, now).len() implies !expired(
            (#[trigger] live(s, now)[i]).1,
            now,
        ) by {
            if i < rest.len() {
                assert(live(s, now)[i] == rest[i]);
            }
        }
    }
}

proof fn lemma_live_keeps<S>(s: Sessions<S>, now: u128, p: int)
    requires
        0 <= p < s.len(),
        !expired(s[p].1, now),
    ensures
        exists|i: int| 0 <= i < live(s, now).len() && #[trigger] live(s, now)[i] == s[p],
    decreases s.len(),
{
    let front = s.drop_last();
    let rest = live(front, now);
    if p < front.len() {
        lemma_live_keeps(front, now, p);
        let i = choose|i: int| 0 <= i < rest.len() && #[trigger] rest[i] == front[p];
        assert(live(s, now)[i] == s[p]);
    } else {
        assert(live(s, now)[rest.len() as int] == s[p]);
    }
}

/// A request does not change the sessions of others: one that has neither expired nor made room
/// holds afterwards what it held before.
pub proof fn law_sessions_are_isolated<S>(
    s: Sessions<S>,
    now: u128,
    id: Seq<char>,
    entry: Seen<S>,
    other: Seq<char>,
)
    requires
        sorted::<String, Seen<S>>(s),
        other != id,
        lookup::<String, Seen<S>>(s, other) is Some,
        !expired(lookup::<String, Seen<S>>(s, other)->0, now),
    ensures
        lookup::<String, Seen<S>>(touched(live(s, now), id, now), other) == lookup::<
            String,
            Seen<S>,
        >(s, other),
        ({
            let l = live(s, now);
            ||| l.len() < MAX_GLOBAL_SESSIONS
            ||| l[oldest(l, l.len() as int)].0 != other
        }) ==> lookup::<String, Seen<S>>(
            with_entry::<String, Seen<S>>(with_room(live(s, now)), id, entry),
            other,
        ) == lookup::<String, Seen<S>>(s, other),
{
    lemma_live(s, now);
    lemma_live_lookup(s, now, other);
    let l = live(s, now);
    if let Some(found) = lookup::<String, Seen<S>>(l, id) {
        law_put_then_get::<String, Seen<S>>(
            l,
            id,
            Seen { last_seen: now, session: found.session },
            other,
        );
    }
    if l.len() >= MAX_GLOBAL_SESSIONS {
        let p = oldest(l, l.len() as int);
        lemma_oldest(l, l.len() as int);
        lemma_found::<String, Seen<S>>(l, p);
        lemma_without_entry_sorted::<String, Seen<S>>(l, l[p].0);
        law_remove_then_get::<String, Seen<S>>(l, l[p].0, other);
        law_put_then_get::<String, Seen<S>>(with_room(l), id, entry, other);
    } else {
        law_put_then_get::<String, Seen<S>>(l, id, entry, other);
    }
}

/// A session is recalled exactly where the cookie names it and it was seen in the last half hour; it
/// is then seen now and is otherwise as it was.
pub proof fn law_sessions_are_recalled_for_half_an_hour<S>(
    s: Sessions<S>,
    cookie: Option<Seq<char>>,
    now: u128,
    sid: Seq<char>,
)
    requires
        sorted::<String, Seen<S>>(s),
    ensures
        recalled(s, cookie, now) == Some(sid) <==> cookie_sid(cookie) == Some(sid) && (lookup::<
            String,
            Seen<S>,
        >(s, sid) matches Some(entry) && now - entry.last_seen <= 1_800_000_000_000),
        recalled(s, cookie, now) == Some(sid) ==> (lookup::<String, Seen<S>>(
            touched(live(s, now), sid, now),
            sid,
        ) matches Some(entry) && entry.last_seen == now && entry.session == lookup::<
            String,
            Seen<S>,
        >(s, sid)->0.session),
{
    lemma_live(s, now);
    lemma_live_lookup(s, now, sid);
    let l = live(s, now);
    if let Some(entry) = lookup::<String, Seen<S>>(l, sid) {
        law_put_then_get::<String, Seen<S>>(
            l,
            sid,
            Seen { last_seen: now, session: entry.session },
            sid,
        );
    }
}

/// Where there are as many sessions as may be, the one that was not seen for the longest time makes
/// room; otherwise none goes.
pub proof fn law_the_oldest_session_makes_room<S>(s: Sessions<S>, i: int)
    ensures
        s.len() < 128 ==> with_room(s) == s,
        s.len() >= 128 ==> exists|k: int|
            0 <= k < s.len() && with_room(s) == #[trigger] s.remove(k) && (0 <= i < s.len()
                ==> s[k].1.last_seen <= s[i].1.last_seen),
{
    if s.len() >= 128 {
        lemma_oldest(s, s.len() as int);
        let k = oldest(s, s.len() as int);
        assert(with_room(s) == s.remove(k));
    }
}

} // verus!
