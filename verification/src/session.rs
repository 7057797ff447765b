//! Session management for the HTTP transport: creation, lookup, touching,
//! removal, and expiry computed against a caller-supplied clock.

use vstd::prelude::*;
use vstd::string::StringExecFns;
use crate::json::Json;
use crate::registry::{pairs_view, assoc_lookup, assoc_wf, assoc_get, assoc_insert, assoc_remove,
    lemma_wf_ordered, lemma_assoc_at, lemma_assoc_none, lemma_assoc_lookup_exists};

verus! {

/// The lifecycle state of a session.
#[derive(Debug, Clone, Copy, PartialEq, Eq, Structural)]
pub enum SessionState {
    Created,
    Active,
    Expired,
    Terminated,
}

/// One session: an opaque id, clock readings, a state, and a small store of
/// custom values.
#[derive(Debug)]
pub struct Session {
    pub id: String,
    pub created_at: u64,
    pub last_activity: u64,
    pub state: SessionState,
    pub data: Vec<(String, Json)>,
}

/// Whether a session has expired at time `now` under the given timeout.
pub open spec fn spec_expired(s: Session, now: u64, timeout: u64) -> bool {
    (s.last_activity as int) + (timeout as int) < now as int
}

impl Session {
    /// A fresh session created at time `now`.
    pub fn new(id: String, now: u64) -> (r: Self)
        ensures
            r.id == id,
            r.created_at == now,
            r.last_activity == now,
            r.state == SessionState::Created,
            r.data@.len() == 0,
    {
        Session { id, created_at: now, last_activity: now, state: SessionState::Created, data: Vec::new() }
    }

    /// Record activity at time `now`.
    pub fn touch(&mut self, now: u64)
        ensures
            *final(self) == (Session { last_activity: now, ..*old(self) }),
    {
        self.last_activity = now;
    }

    /// Whether this session has expired at time `now`.
    pub fn is_expired(&self, now: u64, timeout: u64) -> (r: bool)
        ensures
            r == spec_expired(*self, now, timeout),
    {
        (now as u128) > (self.last_activity as u128) + (timeout as u128)
    }

    /// Set the lifecycle state.
    pub fn set_state(&mut self, state: SessionState)
        ensures
            *final(self) == (Session { state: state, ..*old(self) }),
    {
        self.state = state;
    }

    /// Read a custom value.
    pub fn get_data(&self, key: &str) -> (r: Option<&Json>)
        ensures
            match r {
                Some(v) => assoc_lookup(pairs_view(self.data@), key@) == Some(*v),
                None => assoc_lookup(pairs_view(self.data@), key@) is None,
            },
    {
        assoc_get(&self.data, key)
    }

    /// Store a custom value.
    pub fn set_data(&mut self, key: String, value: Json)
        requires
            assoc_wf(pairs_view(old(self).data@)),
        ensures
            assoc_wf(pairs_view(final(self).data@)),
            assoc_lookup(pairs_view(final(self).data@), key@) == Some(value),
            forall|k2: Seq<char>|
                k2 != key@ ==> #[trigger] assoc_lookup(pairs_view(final(self).data@), k2)
                    == assoc_lookup(pairs_view(old(self).data@), k2),
            final(self).id == old(self).id,
            final(self).state == old(self).state,
            final(self).created_at == old(self).created_at,
            final(self).last_activity == old(self).last_activity,
    {
        assoc_insert(&mut self.data, key, value);
    }

    /// Remove a custom value, returning it when it was present.
    pub fn remove_data(&mut self, key: &str) -> (r: Option<Json>)
        requires
            assoc_wf(pairs_view(old(self).data@)),
        ensures
            assoc_wf(pairs_view(final(self).data@)),
            assoc_lookup(pairs_view(final(self).data@), key@) is None,
            forall|k2: Seq<char>|
                k2 != key@ ==> #[trigger] assoc_lookup(pairs_view(final(self).data@), k2)
                    == assoc_lookup(pairs_view(old(self).data@), k2),
            match r {
                Some(v) => assoc_lookup(pairs_view(old(self).data@), key@) == Some(v),
                None => assoc_lookup(pairs_view(old(self).data@), key@) is None,
            },
    {
        assoc_remove(&mut self.data, key)
    }
}

/// Counts of sessions by lifecycle state.
#[derive(Debug, Clone, Copy, PartialEq, Eq, Structural)]
pub struct SessionStats {
    pub total: usize,
    pub active: usize,
    pub expired: usize,
    pub created: usize,
}

/// How many stored sessions are in the given state.
pub open spec fn spec_count_state(s: Seq<(Seq<char>, Session)>, st: SessionState) -> nat
    decreases s.len(),
{
    if s.len() == 0 {
        0
    } else {
        spec_count_state(s.drop_last(), st) + (if s.last().1.state == st {
            1nat
        } else {
            0
        })
    }
}

/// The session store: sessions keyed by id, and the expiry timeout.
pub struct SessionManager {
    pub sessions: Vec<(String, Session)>,
    pub timeout: u64,
}

impl SessionManager {
    /// Well-formed: sorted by id, every session stored under its own id.
    pub open spec fn wf(&self) -> bool {
        &&& assoc_wf(pairs_view(self.sessions@))
        &&& forall|i: int|
            0 <= i < self.sessions@.len() ==> (#[trigger] self.sessions@[i]).1.id@
                == self.sessions@[i].0@
    }

    /// The session store.
    pub open spec fn spec_sessions(&self) -> Seq<(Seq<char>, Session)> {
        pairs_view(self.sessions@)
    }

    /// An empty store with the given timeout.
    pub fn new(timeout: u64) -> (r: Self)
        ensures
            r.wf(),
            r.spec_sessions().len() == 0,
            r.timeout == timeout,
    {
        let r = SessionManager { sessions: Vec::new(), timeout };
        proof {
            assert(pairs_view(r.sessions@) =~= Seq::<(Seq<char>, Session)>::empty());
        }
        r
    }

    /// Store a session under its id; an existing session of that id is
    /// replaced.
    pub fn add_session(&mut self, session: Session)
        requires
            old(self).wf(),
        ensures
            final(self).wf(),
            final(self).timeout == old(self).timeout,
            assoc_lookup(final(self).spec_sessions(), session.id@) == Some(session),
            forall|k2: Seq<char>|
                k2 != session.id@ ==> #[trigger] assoc_lookup(final(self).spec_sessions(), k2)
                    == assoc_lookup(old(self).spec_sessions(), k2),
    {
        let id = session.id.clone();
        let ghost t = session;
        let ghost olds = pairs_view(self.sessions@);
        assoc_insert(&mut self.sessions, id, session);
        proof {
            let s = pairs_view(self.sessions@);
            assert forall|i: int|
                0 <= i < self.sessions@.len() implies (#[trigger] self.sessions@[i]).1.id@
                == self.sessions@[i].0@ by {
                let k = s[i].0;
                assert forall|j: int| 0 <= j < i implies (#[trigger] s[j]).0 != k by {
                    lemma_wf_ordered(s, j, i);
                }
                lemma_assoc_at(s, k, i);
                if k != t.id@ {
                    lemma_assoc_lookup_exists(olds, k);
                }
            }
        }
    }

    /// Look a session up by id.
    pub fn get_session(&self, session_id: &str) -> (r: Option<&Session>)
        ensures
            match r {
                Some(s) => assoc_lookup(self.spec_sessions(), session_id@) == Some(*s),
                None => assoc_lookup(self.spec_sessions(), session_id@) is None,
            },
    {
        assoc_get(&self.sessions, session_id)
    }

    /// Remove a session, returning it when it was present.
    pub fn remove_session(&mut self, session_id: &str) -> (r: Option<Session>)
        requires
            old(self).wf(),
        ensures
            final(self).wf(),
            final(self).timeout == old(self).timeout,
            assoc_lookup(final(self).spec_sessions(), session_id@) is None,
            forall|k2: Seq<char>|
                k2 != session_id@ ==> #[trigger] assoc_lookup(final(self).spec_sessions(), k2)
                    == assoc_lookup(old(self).spec_sessions(), k2),
            match r {
                Some(s) => assoc_lookup(old(self).spec_sessions(), session_id@) == Some(s),
                None => assoc_lookup(old(self).spec_sessions(), session_id@) is None,
            },
    {
        let ghost olds = pairs_view(self.sessions@);
        let r = assoc_remove(&mut self.sessions, session_id);
        proof {
            let s = pairs_view(self.sessions@);
            assert forall|i: int|
                0 <= i < self.sessions@.len() implies (#[trigger] self.sessions@[i]).1.id@
                == self.sessions@[i].0@ by {
                let k = s[i].0;
                assert forall|j: int| 0 <= j < i implies (#[trigger] s[j]).0 != k by {
                    lemma_wf_ordered(s, j, i);
                }
                lemma_assoc_at(s, k, i);
                assert(k != session_id@);
                lemma_assoc_lookup_exists(olds, k);
            }
        }
        r
    }

    /// Record activity on a session at time `now`; false when the id is
    /// unknown.
    #[verifier::loop_isolation(false)]
    pub fn touch_session(&mut self, session_id: &str, now: u64) -> (r: bool)
        requires
            old(self).wf(),
        ensures
            final(self).wf(),
            final(self).timeout == old(self).timeout,
            r == (assoc_lookup(old(self).spec_sessions(), session_id@) is Some),
            forall|k2: Seq<char>|
                k2 != session_id@ ==> #[trigger] assoc_lookup(final(self).spec_sessions(), k2)
                    == assoc_lookup(old(self).spec_sessions(), k2),
            match assoc_lookup(old(self).spec_sessions(), session_id@) {
                Some(s) => assoc_lookup(final(self).spec_sessions(), session_id@) == Some(
                    Session { last_activity: now, ..s },
                ),
                None => assoc_lookup(final(self).spec_sessions(), session_id@) is None,
            },
    {
        let found = match self.get_session(session_id) {
            Some(_) => true,
            None => false,
        };
        if found {
            proof {
                lemma_assoc_lookup_exists(pairs_view(self.sessions@), session_id@);
            }
            let removed = self.remove_session(session_id);
            match removed {
                Some(mut s) => {
                    proof {
                        assert(s.id@ == session_id@);
                    }
                    s.touch(now);
                    self.add_session(s);
                },
                None => (),
            }
        }
        found
    }

    /// Number of stored sessions.
    pub fn session_count(&self) -> (r: usize)
        ensures
            r == self.spec_sessions().len(),
    {
        self.sessions.len()
    }

    /// Counts of sessions by state. Sessions neither active nor expired are
    /// reported as created.
    #[verifier::loop_isolation(false)]
    pub fn get_stats(&self) -> (r: SessionStats)
        ensures
            r.total == self.spec_sessions().len(),
            r.active == spec_count_state(self.spec_sessions(), SessionState::Active),
            r.expired == spec_count_state(self.spec_sessions(), SessionState::Expired),
            r.created == r.total - r.active - r.expired,
    {
        let ghost ss = self.spec_sessions();
        let total = self.sessions.len();
        let mut active: usize = 0;
        let mut expired: usize = 0;
        let mut i: usize = 0;
        while i < self.sessions.len()
            invariant
                i <= self.sessions@.len(),
                active == spec_count_state(ss.subrange(0, i as int), SessionState::Active),
                expired == spec_count_state(ss.subrange(0, i as int), SessionState::Expired),
                active + expired <= i,
            decreases self.sessions@.len() - i,
        {
            proof {
                assert(ss.subrange(0, i as int + 1).drop_last() =~= ss.subrange(0, i as int));
                assert(ss.subrange(0, i as int + 1).last() == ss[i as int]);
            }
            match self.sessions[i].1.state {
                SessionState::Active => {
                    active = active + 1;
                },
                SessionState::Expired => {
                    expired = expired + 1;
                },
                _ => (),
            }
            i = i + 1;
        }
        proof {
            assert(ss.subrange(0, ss.len() as int) =~= ss);
            lemma_count_state_bound(ss, SessionState::Active);
        }
        SessionStats { total, active, expired, created: total - active - expired }
    }

    /// Remove every session that has expired at time `now`, returning how
    /// many were removed. Fresh sessions are untouched.
    #[verifier::loop_isolation(false)]
    #[verifier::rlimit(100)]
    #[verifier::spinoff_prover]
    pub fn cleanup_expired_sessions(&mut self, now: u64) -> (r: usize)
        requires
            old(self).wf(),
        ensures
            final(self).wf(),
            final(self).timeout == old(self).timeout,
            forall|id: Seq<char>|
                #[trigger] assoc_lookup(final(self).spec_sessions(), id) is Some ==> (assoc_lookup(
                    old(self).spec_sessions(),
                    id,
                ) == assoc_lookup(final(self).spec_sessions(), id) && !spec_expired(
                    assoc_lookup(final(self).spec_sessions(), id)->Some_0,
                    now,
                    old(self).timeout,
                )),
            forall|id: Seq<char>|
                match #[trigger] assoc_lookup(old(self).spec_sessions(), id) {
                    Some(s) => !spec_expired(s, now, old(self).timeout) ==> assoc_lookup(
                        final(self).spec_sessions(),
                        id,
                    ) == Some(s),
                    None => true,
                },
            r + final(self).spec_sessions().len() == old(self).spec_sessions().len(),
    {
        let ghost olds = pairs_view(self.sessions@);
        let timeout = self.timeout;
        let total = self.sessions.len();
        let mut kept: Vec<(String, Session)> = Vec::new();
        proof {
            assert(pairs_view(kept@) =~= Seq::<(Seq<char>, Session)>::empty());
        }
        while self.sessions.len() > 0
            invariant
                pairs_view(self.sessions@) == olds.subrange(0, self.sessions@.len() as int),
                assoc_wf(pairs_view(kept@)),
                forall|j: int|
                    self.sessions@.len() <= j < olds.len() && !spec_expired(
                        (#[trigger] olds[j]).1,
                        now,
                        timeout,
                    ) ==> assoc_lookup(pairs_view(kept@), olds[j].0) == Some(olds[j].1),
                forall|j: int|
                    self.sessions@.len() <= j < olds.len() && spec_expired(
                        (#[trigger] olds[j]).1,
                        now,
                        timeout,
                    ) ==> assoc_lookup(pairs_view(kept@), olds[j].0) is None,
                forall|key: Seq<char>|
                    #[trigger] assoc_lookup(pairs_view(kept@), key) is Some ==> exists|j: int|
                        self.sessions@.len() <= j < olds.len() && (#[trigger] olds[j]).0 == key,
                kept@.len() + self.sessions@.len() <= olds.len(),
                total == olds.len(),
                self.timeout == old(self).timeout,
            decreases self.sessions@.len(),
        {
            let ghost pre = self.sessions@;
            let ghost i = self.sessions@.len() as int;
            let popped = self.sessions.pop();
            match popped {
                Some((id, s)) => {
                    proof {
                        assert(pairs_view(self.sessions@) =~= olds.subrange(0, i - 1));
                        assert(pairs_view(pre)[i - 1] == olds[i - 1]);
                        assert((id@, s) == olds[i - 1]);
                        assert forall|j: int|
                            i - 1 < j < olds.len() implies (#[trigger] olds[j]).0 != id@ by {
                            lemma_wf_ordered(olds, i - 1, j);
                        }
                    }
                    let is_exp = s.is_expired(now, timeout);
                    if !is_exp {
                        assoc_insert(&mut kept, id, s);
                    } else {
                        proof {
                            lemma_assoc_none_extend(pairs_view(kept@), olds, i - 1, id@);
                        }
                    }
                },
                None => (),
            }
        }
        self.sessions = kept;
        proof {
            assert forall|j: int|
                0 <= j < olds.len() implies assoc_lookup(
                pairs_view(self.sessions@),
                (#[trigger] olds[j]).0,
            ) == (if spec_expired(olds[j].1, now, timeout) {
                None
            } else {
                Some(olds[j].1)
            }) by {}
            lemma_cleanup_lookups(olds, pairs_view(self.sessions@), now, timeout);
            lemma_cleanup_named(olds, pairs_view(self.sessions@), self.sessions@, now, timeout);
        }
        let removed = total - self.sessions.len();
        removed
    }
}

/// After a cleanup pass the kept registry agrees with the original on
/// every fresh session and holds nothing else.
proof fn lemma_cleanup_lookups(olds: Seq<(Seq<char>, Session)>, news: Seq<(Seq<char>, Session)>,
    now: u64, timeout: u64)
    requires
        assoc_wf(olds),
        forall|j: int|
            0 <= j < olds.len() ==> assoc_lookup(news, (#[trigger] olds[j]).0) == (if spec_expired(
                olds[j].1,
                now,
                timeout,
            ) {
                None
            } else {
                Some(olds[j].1)
            }),
        forall|key: Seq<char>|
            #[trigger] assoc_lookup(news, key) is Some ==> exists|j: int|
                0 <= j < olds.len() && (#[trigger] olds[j]).0 == key,
    ensures
        forall|id: Seq<char>|
            #[trigger] assoc_lookup(news, id) is Some ==> (assoc_lookup(olds, id) == assoc_lookup(
                news,
                id,
            ) && !spec_expired(assoc_lookup(news, id)->Some_0, now, timeout)),
        forall|id: Seq<char>|
            match #[trigger] assoc_lookup(olds, id) {
                Some(s) => !spec_expired(s, now, timeout) ==> assoc_lookup(news, id) == Some(s),
                None => true,
            },
{
    assert forall|id: Seq<char>|
        #[trigger] assoc_lookup(news, id) is Some implies (assoc_lookup(olds, id) == assoc_lookup(
        news,
        id,
    ) && !spec_expired(assoc_lookup(news, id)->Some_0, now, timeout)) by {
        let j = choose|j: int| 0 <= j < olds.len() && (#[trigger] olds[j]).0 == id;
        assert(assoc_lookup(news, olds[j].0) == (if spec_expired(olds[j].1, now, timeout) {
            None
        } else {
            Some(olds[j].1)
        }));
        assert forall|j2: int| 0 <= j2 < j implies (#[trigger] olds[j2]).0 != id by {
            lemma_wf_ordered(olds, j2, j);
        }
        lemma_assoc_at(olds, id, j);
    }
    assert forall|id: Seq<char>|
        match #[trigger] assoc_lookup(olds, id) {
            Some(s) => !spec_expired(s, now, timeout) ==> assoc_lookup(news, id) == Some(s),
            None => true,
        } by {
        if assoc_lookup(olds, id) is Some {
            lemma_assoc_lookup_exists(olds, id);
            let j = choose|j: int|
                0 <= j < olds.len() && (#[trigger] olds[j]).0 == id && olds[j].1 == assoc_lookup(
                    olds,
                    id,
                )->Some_0;
        }
    }
}

/// Sessions kept by a cleanup pass are still stored under their own ids.
proof fn lemma_cleanup_named(olds: Seq<(Seq<char>, Session)>, news: Seq<(Seq<char>, Session)>,
    newv: Seq<(String, Session)>, now: u64, timeout: u64)
    requires
        news == pairs_view(newv),
        assoc_wf(olds),
        assoc_wf(news),
        forall|i: int| 0 <= i < olds.len() ==> (#[trigger] olds[i]).1.id@ == olds[i].0,
        forall|j: int|
            0 <= j < olds.len() ==> assoc_lookup(news, (#[trigger] olds[j]).0) == (if spec_expired(
                olds[j].1,
                now,
                timeout,
            ) {
                None
            } else {
                Some(olds[j].1)
            }),
        forall|key: Seq<char>|
            #[trigger] assoc_lookup(news, key) is Some ==> exists|j: int|
                0 <= j < olds.len() && (#[trigger] olds[j]).0 == key,
    ensures
        forall|i: int| 0 <= i < newv.len() ==> (#[trigger] newv[i]).1.id@ == newv[i].0@,
{
    assert forall|i: int| 0 <= i < newv.len() implies (#[trigger] newv[i]).1.id@ == newv[i].0@ by {
        let k = news[i].0;
        assert forall|j: int| 0 <= j < i implies (#[trigger] news[j]).0 != k by {
            lemma_wf_ordered(news, j, i);
        }
        lemma_assoc_at(news, k, i);
        let j = choose|j: int| 0 <= j < olds.len() && (#[trigger] olds[j]).0 == k;
        assert(assoc_lookup(news, olds[j].0) == (if spec_expired(olds[j].1, now, timeout) {
            None
        } else {
            Some(olds[j].1)
        }));
        assert(news[i].1 == olds[j].1);
    }
}

/// Counts by state never exceed the length.
proof fn lemma_count_state_bound(s: Seq<(Seq<char>, Session)>, st: SessionState)
    ensures
        spec_count_state(s, st) <= s.len(),
    decreases s.len(),
{
    if s.len() > 0 {
        lemma_count_state_bound(s.drop_last(), st);
    }
}

/// A key absent from a registry stays absent when it differs from all keys.
proof fn lemma_assoc_none_extend(kept: Seq<(Seq<char>, Session)>,
    olds: Seq<(Seq<char>, Session)>, i: int, id: Seq<char>)
    requires
        0 <= i < olds.len(),
        olds[i].0 == id,
        forall|key: Seq<char>|
            #[trigger] assoc_lookup(kept, key) is Some ==> exists|j: int|
                i < j < olds.len() && (#[trigger] olds[j]).0 == key,
        forall|j: int| i < j < olds.len() ==> (#[trigger] olds[j]).0 != id,
    ensures
        assoc_lookup(kept, id) is None,
{
    if assoc_lookup(kept, id) is Some {
        let j = choose|j: int| i < j < olds.len() && (#[trigger] olds[j]).0 == id;
        assert(false);
    }
}

} // verus!
