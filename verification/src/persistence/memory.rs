//! In-memory storage: the default backend, for development and for brokers
//! that need no persistence across restarts (all data is lost then).

use vstd::prelude::*;

use crate::persistence::traits::{
    persisted_session_expired, MessageStore, PendingMessage, PendingMessageView, PersistedSession,
    PersistedSessionView, PersistenceError, SessionStore,
};
use crate::router::registry::{key_index, keys_unique, lemma_key_index, lemma_remove_keeps_unique};
use crate::session::session::{
    find_id, id_index, ids_unique, lemma_id_index, lemma_ids_unique_edit, lemma_ids_unique_push,
};
use crate::strings::str_equal;

verus! {

/// Stored sessions, as plain values: client identifier and session.
pub open spec fn sessions_of(v: Seq<(String, PersistedSession)>) -> Seq<(Seq<char>, PersistedSessionView)> {
    v.map_values(|e: (String, PersistedSession)| (e.0@, e.1@))
}

/// A client's pending messages, as plain values.
pub open spec fn messages_of(v: Seq<(u16, PendingMessage)>) -> Seq<(u16, PendingMessageView)> {
    v.map_values(|e: (u16, PendingMessage)| (e.0, e.1@))
}

/// Pending messages per client, as plain values.
pub open spec fn pending_of(v: Seq<(String, Vec<(u16, PendingMessage)>)>) -> Seq<
    (Seq<char>, Seq<(u16, PendingMessageView)>),
> {
    v.map_values(|e: (String, Vec<(u16, PendingMessage)>)| (e.0@, messages_of(e.1@)))
}

/// Saving session `v`: it replaces the client's stored session, or is added
/// when there is room (fewer than `max` sessions); `None` when the store is
/// full.
pub open spec fn spec_save(
    s: Seq<(Seq<char>, PersistedSessionView)>,
    max: nat,
    v: PersistedSessionView,
) -> Option<Seq<(Seq<char>, PersistedSessionView)>> {
    let k = key_index(s, v.client_id);
    if k >= 0 {
        Some(s.update(k, (v.client_id, v)))
    } else if s.len() >= max {
        None
    } else {
        Some(s.push((v.client_id, v)))
    }
}

/// The stored session of client `c`.
pub open spec fn spec_load(s: Seq<(Seq<char>, PersistedSessionView)>, c: Seq<char>) -> Option<
    PersistedSessionView,
> {
    let k = key_index(s, c);
    if k >= 0 {
        Some(s[k].1)
    } else {
        None
    }
}

/// `p` without the entry of client `c`.
pub open spec fn without_key<X>(p: Seq<(Seq<char>, X)>, c: Seq<char>) -> Seq<(Seq<char>, X)> {
    let k = key_index(p, c);
    if k >= 0 {
        p.remove(k)
    } else {
        p
    }
}

/// The pending messages of client `c`.
pub open spec fn spec_client_pending(
    p: Seq<(Seq<char>, Seq<(u16, PendingMessageView)>)>,
    c: Seq<char>,
) -> Seq<(u16, PendingMessageView)> {
    let k = key_index(p, c);
    if k >= 0 {
        p[k].1
    } else {
        Seq::empty()
    }
}

/// The pending messages with an entry for client `c` (an empty one added
/// when there was none).
pub open spec fn with_entry(p: Seq<(Seq<char>, Seq<(u16, PendingMessageView)>)>, c: Seq<char>) -> Seq<
    (Seq<char>, Seq<(u16, PendingMessageView)>),
> {
    if key_index(p, c) >= 0 {
        p
    } else {
        p.push((c, Seq::empty()))
    }
}

/// `list` with message `m` stored under its packet identifier.
pub open spec fn put_message(list: Seq<(u16, PendingMessageView)>, m: PendingMessageView) -> Seq<
    (u16, PendingMessageView),
> {
    let j = id_index(list, m.packet_id);
    if j >= 0 {
        list.update(j, (m.packet_id, m))
    } else {
        list.push((m.packet_id, m))
    }
}

/// Storing message `m` for client `c`: the client gets an entry, and the
/// message is stored when the client has fewer than `max` messages (the
/// boolean says whether it was).
pub open spec fn spec_store_pending(
    p: Seq<(Seq<char>, Seq<(u16, PendingMessageView)>)>,
    max: nat,
    c: Seq<char>,
    m: PendingMessageView,
) -> (Seq<(Seq<char>, Seq<(u16, PendingMessageView)>)>, bool) {
    let p1 = with_entry(p, c);
    let k = key_index(p1, c);
    let list = p1[k].1;
    if list.len() >= max {
        (p1, false)
    } else {
        (p1.update(k, (c, put_message(list, m))), true)
    }
}

/// The pending message of client `c` with packet identifier `id`.
pub open spec fn spec_get_pending(
    p: Seq<(Seq<char>, Seq<(u16, PendingMessageView)>)>,
    c: Seq<char>,
    id: u16,
) -> Option<PendingMessageView> {
    let list = spec_client_pending(p, c);
    let j = id_index(list, id);
    if j >= 0 {
        Some(list[j].1)
    } else {
        None
    }
}

/// The entries of `s` whose position is not marked in `drop`, in order.
pub open spec fn kept<X>(s: Seq<X>, drop: Seq<bool>) -> Seq<X>
    decreases s.len(),
{
    if s.len() == 0 {
        Seq::empty()
    } else if drop[s.len() - 1] {
        kept(s.drop_last(), drop)
    } else {
        kept(s.drop_last(), drop).push(s.last())
    }
}

/// The number of marked positions among the first `n`.
pub open spec fn marked(drop: Seq<bool>, n: nat) -> nat
    decreases n,
{
    if n == 0 {
        0
    } else {
        marked(drop, (n - 1) as nat) + if drop[n - 1] {
            1nat
        } else {
            0nat
        }
    }
}

/// The total number of pending messages.
pub open spec fn total_pending(p: Seq<(Seq<char>, Seq<(u16, PendingMessageView)>)>) -> nat
    decreases p.len(),
{
    if p.len() == 0 {
        0
    } else {
        total_pending(p.drop_last()) + p.last().1.len()
    }
}

/// `key_index` depends only on the keys.
proof fn lemma_key_index_keys<X, Y>(s: Seq<(Seq<char>, X)>, t: Seq<(Seq<char>, Y)>, c: Seq<char>)
    requires
        s.len() == t.len(),
        forall|i: int| 0 <= i < s.len() ==> #[trigger] s[i].0 == t[i].0,
    ensures
        key_index(s, c) == key_index(t, c),
    decreases s.len(),
{
    if s.len() > 0 {
        lemma_key_index_keys(s.drop_last(), t.drop_last(), c);
    }
}

/// `id_index` depends only on the identifiers.
proof fn lemma_id_index_ids<X, Y>(s: Seq<(u16, X)>, t: Seq<(u16, Y)>, id: u16)
    requires
        s.len() == t.len(),
        forall|i: int| 0 <= i < s.len() ==> #[trigger] s[i].0 == t[i].0,
    ensures
        id_index(s, id) == id_index(t, id),
    decreases s.len(),
{
    if s.len() > 0 {
        lemma_id_index_ids(s.drop_last(), t.drop_last(), id);
    }
}

/// In-memory storage for sessions and pending messages.
pub struct MemoryStore {
    /// Sessions, by client identifier.
    sessions: Vec<(String, PersistedSession)>,
    /// Pending messages per client, by packet identifier.
    pending: Vec<(String, Vec<(u16, PendingMessage)>)>,
    /// Maximum number of sessions.
    max_sessions: usize,
    /// Maximum number of pending messages per client.
    max_pending_per_client: usize,
}

impl MemoryStore {
    /// The stored sessions.
    pub closed spec fn sessions(&self) -> Seq<(Seq<char>, PersistedSessionView)> {
        sessions_of(self.sessions@)
    }

    /// The pending messages per client.
    pub closed spec fn pending(&self) -> Seq<(Seq<char>, Seq<(u16, PendingMessageView)>)> {
        pending_of(self.pending@)
    }

    /// The maximum number of sessions.
    pub closed spec fn session_limit(&self) -> nat {
        self.max_sessions as nat
    }

    /// The maximum number of pending messages per client.
    pub closed spec fn pending_limit(&self) -> nat {
        self.max_pending_per_client as nat
    }

    /// The store's invariant: one session per client, one pending list per
    /// client, one message per packet identifier in each list.
    pub open spec fn wf(&self) -> bool {
        &&& keys_unique(self.sessions())
        &&& keys_unique(self.pending())
        &&& forall|i: int| 0 <= i < self.pending().len() ==> ids_unique(#[trigger] self.pending()[i].1)
    }

    /// A store with the default limits: 100,000 sessions, 1,000 pending
    /// messages per client.
    pub fn new() -> (r: Self)
        ensures
            r.wf(),
            r.sessions().len() == 0,
            r.pending().len() == 0,
            r.session_limit() == 100_000,
            r.pending_limit() == 1000,
    {
        Self::with_limits(100_000, 1000)
    }

    /// A store with the given limits.
    pub fn with_limits(max_sessions: usize, max_pending_per_client: usize) -> (r: Self)
        ensures
            r.wf(),
            r.sessions().len() == 0,
            r.pending().len() == 0,
            r.session_limit() == max_sessions,
            r.pending_limit() == max_pending_per_client,
    {
        let r = MemoryStore { sessions: Vec::new(), pending: Vec::new(), max_sessions, max_pending_per_client };
        assert(r.sessions().len() == 0);
        assert(r.pending().len() == 0);
        r
    }

    /// The number of stored sessions.
    pub fn session_count(&self) -> (r: usize)
        ensures
            r == self.sessions().len(),
    {
        self.sessions.len()
    }

    /// The total number of pending messages over all clients.
    pub fn total_pending_count(&self) -> (r: usize)
        requires
            total_pending(self.pending()) <= usize::MAX,
        ensures
            r == total_pending(self.pending()),
    {
        let ghost p = self.pending();
        let mut total: usize = 0;
        let mut i: usize = 0;
        while i < self.pending.len()
            invariant
                p == self.pending(),
                total_pending(p) <= usize::MAX,
                i <= p.len(),
                total == total_pending(p.take(i as int)),
            decreases p.len() - i,
        {
            proof {
                assert(p.take(i as int + 1).drop_last() =~= p.take(i as int));
                lemma_total_pending_prefix(p, i as int + 1);
            }
            total = total + self.pending[i].1.len();
            i = i + 1;
        }
        assert(p.take(p.len() as int) =~= p);
        total
    }

    /// Remove all sessions and pending messages.
    pub fn clear(&mut self)
        ensures
            final(self).wf(),
            final(self).sessions().len() == 0,
            final(self).pending().len() == 0,
            final(self).session_limit() == old(self).session_limit(),
            final(self).pending_limit() == old(self).pending_limit(),
    {
        self.sessions.clear();
        self.pending.clear();
        assert(self.sessions().len() == 0);
        assert(self.pending().len() == 0);
    }

    /// The position of client `c`'s session.
    fn find_session(&self, c: &str) -> (r: Option<usize>)
        ensures
            r matches Some(i) ==> i == key_index(self.sessions(), c@),
            r is None ==> key_index(self.sessions(), c@) == -1,
    {
        let ghost s = self.sessions();
        let mut i = self.sessions.len();
        while i > 0
            invariant
                s == self.sessions(),
                i <= s.len(),
                forall|j: int| i <= j < s.len() ==> #[trigger] s[j].0 != c@,
            decreases i,
        {
            if str_equal(self.sessions[i - 1].0.as_str(), c) {
                proof {
                    lemma_key_index(s, c@);
                    assert(s[i - 1].0 == c@);
                }
                return Some(i - 1);
            }
            assert(s[i - 1].0 != c@);
            i = i - 1;
        }
        proof {
            lemma_key_index(s, c@);
        }
        None
    }

    /// The position of client `c`'s pending messages.
    fn find_client(&self, c: &str) -> (r: Option<usize>)
        ensures
            r matches Some(i) ==> i == key_index(self.pending(), c@),
            r is None ==> key_index(self.pending(), c@) == -1,
    {
        let ghost p = self.pending();
        let mut i = self.pending.len();
        while i > 0
            invariant
                p == self.pending(),
                i <= p.len(),
                forall|j: int| i <= j < p.len() ==> #[trigger] p[j].0 != c@,
            decreases i,
        {
            if str_equal(self.pending[i - 1].0.as_str(), c) {
                proof {
                    lemma_key_index(p, c@);
                    assert(p[i - 1].0 == c@);
                }
                return Some(i - 1);
            }
            assert(p[i - 1].0 != c@);
            i = i - 1;
        }
        proof {
            lemma_key_index(p, c@);
        }
        None
    }

    /// Remove client `c`'s pending messages; returns how many there were.
    fn drop_client(&mut self, c: &str) -> (r: usize)
        ensures
            final(self).pending() == without_key(old(self).pending(), c@),
            r == spec_client_pending(old(self).pending(), c@).len(),
            final(self).sessions() == old(self).sessions(),
            final(self).session_limit() == old(self).session_limit(),
            final(self).pending_limit() == old(self).pending_limit(),
            old(self).wf() ==> final(self).wf(),
    {
        proof {
            lemma_key_index(self.pending(), c@);
        }
        match self.find_client(c) {
            Some(k) => {
                let (_, list) = self.pending.remove(k);
                proof {
                    assert(self.pending() =~= old(self).pending().remove(k as int));
                    if old(self).wf() {
                        lemma_remove_keeps_unique(old(self).pending(), k as int);
                        assert forall|i: int| 0 <= i < self.pending().len() implies ids_unique(
                            #[trigger] self.pending()[i].1,
                        ) by {
                            if i < k {
                                assert(self.pending()[i] == old(self).pending()[i]);
                            } else {
                                assert(self.pending()[i] == old(self).pending()[i + 1]);
                            }
                        }
                    }
                }
                list.len()
            },
            None => 0,
        }
    }
}

/// The total over a prefix grows by the next list's length.
proof fn lemma_total_pending_prefix(p: Seq<(Seq<char>, Seq<(u16, PendingMessageView)>)>, n: int)
    requires
        0 < n <= p.len(),
    ensures
        total_pending(p.take(n)) == total_pending(p.take(n - 1)) + p[n - 1].1.len(),
        total_pending(p.take(n)) <= total_pending(p),
    decreases p.len() - n,
{
    assert(p.take(n).drop_last() =~= p.take(n - 1));
    if n < p.len() {
        lemma_total_pending_prefix(p, n + 1);
    } else {
        assert(p.take(n) =~= p);
    }
}

impl SessionStore for MemoryStore {
    /// Save or update a session; a new session is refused when the store is
    /// full.
    fn save_session(&mut self, session: PersistedSession) -> (r: Result<(), PersistenceError>)
        ensures
            match spec_save(old(self).sessions(), old(self).session_limit(), session@) {
                Some(s) => r is Ok && final(self).sessions() == s,
                None => r matches Err(PersistenceError::StorageFull) && final(self).sessions()
                    == old(self).sessions(),
            },
            final(self).pending() == old(self).pending(),
            final(self).session_limit() == old(self).session_limit(),
            final(self).pending_limit() == old(self).pending_limit(),
            old(self).wf() ==> final(self).wf(),
    {
        let ghost s = self.sessions();
        let ghost v = session@;
        proof {
            lemma_key_index(s, v.client_id);
        }
        match self.find_session(session.client_id.as_str()) {
            Some(k) => {
                let key = session.client_id.clone();
                self.sessions.set(k, (key, session));
                proof {
                    assert(self.sessions() =~= s.update(k as int, (v.client_id, v)));
                    if old(self).wf() {
                        assert forall|a: int, b: int| 0 <= a < b < self.sessions().len() implies self.sessions()[a].0
                            != self.sessions()[b].0 by {
                            assert(self.sessions()[a].0 == s[a].0);
                            assert(self.sessions()[b].0 == s[b].0);
                        }
                    }
                }
                Ok(())
            },
            None => {
                // Check the capacity for a new session
                if self.sessions.len() >= self.max_sessions {
                    return Err(PersistenceError::StorageFull);
                }
                let key = session.client_id.clone();
                self.sessions.push((key, session));
                proof {
                    assert(self.sessions() =~= s.push((v.client_id, v)));
                    if old(self).wf() {
                        assert forall|a: int, b: int| 0 <= a < b < self.sessions().len() implies self.sessions()[a].0
                            != self.sessions()[b].0 by {
                            if b == s.len() {
                                assert(s[a].0 != v.client_id);
                            }
                        }
                    }
                }
                Ok(())
            },
        }
    }

    /// Load a client's session (a copy).
    fn load_session(&self, client_id: &str) -> (r: Result<Option<PersistedSession>, PersistenceError>)
        ensures
            match spec_load(self.sessions(), client_id@) {
                Some(v) => r matches Ok(Some(x)) && x@ == v,
                None => r matches Ok(None),
            },
    {
        proof {
            lemma_key_index(self.sessions(), client_id@);
        }
        match self.find_session(client_id) {
            Some(k) => Ok(Some(self.sessions[k].1.copy())),
            None => Ok(None),
        }
    }

    /// Delete a client's session, and its pending messages; returns whether
    /// there was a session.
    fn delete_session(&mut self, client_id: &str) -> (r: Result<bool, PersistenceError>)
        ensures
            r == Ok::<bool, PersistenceError>(key_index(old(self).sessions(), client_id@) >= 0),
            final(self).sessions() == without_key(old(self).sessions(), client_id@),
            final(self).pending() == without_key(old(self).pending(), client_id@),
            final(self).session_limit() == old(self).session_limit(),
            final(self).pending_limit() == old(self).pending_limit(),
            old(self).wf() ==> final(self).wf(),
    {
        proof {
            lemma_key_index(self.sessions(), client_id@);
        }
        let removed = match self.find_session(client_id) {
            Some(k) => {
                self.sessions.remove(k);
                proof {
                    assert(self.sessions() =~= old(self).sessions().remove(k as int));
                    if old(self).wf() {
                        lemma_remove_keeps_unique(old(self).sessions(), k as int);
                    }
                }
                true
            },
            None => false,
        };
        // Also clear the pending messages
        self.drop_client(client_id);
        Ok(removed)
    }

    /// Whether a client has a session.
    fn session_exists(&self, client_id: &str) -> (r: Result<bool, PersistenceError>)
        ensures
            r == Ok::<bool, PersistenceError>(key_index(self.sessions(), client_id@) >= 0),
    {
        Ok(self.find_session(client_id).is_some())
    }

    /// The client identifiers of all sessions, in order.
    fn list_sessions(&self) -> (r: Result<Vec<String>, PersistenceError>)
        ensures
            r matches Ok(v) && v@.len() == self.sessions().len() && forall|i: int|
                0 <= i < v@.len() ==> #[trigger] v@[i]@ == self.sessions()[i].0,
    {
        let ghost s = self.sessions();
        let mut out: Vec<String> = Vec::new();
        let mut i: usize = 0;
        while i < self.sessions.len()
            invariant
                s == self.sessions(),
                i <= s.len(),
                out@.len() == i,
                forall|j: int| 0 <= j < i ==> #[trigger] out@[j]@ == s[j].0,
            decreases s.len() - i,
        {
            out.push(self.sessions[i].0.clone());
            i = i + 1;
        }
        Ok(out)
    }

    /// Remove the expired sessions, and the pending messages of clients
    /// left without a session; returns how many sessions were removed.
    /// Whether a session has expired depends on the clock; only sessions
    /// with an expiry interval can be.
    fn cleanup_expired(&mut self) -> (r: Result<usize, PersistenceError>)
        ensures
            exists|drop: Seq<bool>|
                {
                    &&& drop.len() == old(self).sessions().len()
                    &&& forall|i: int|
                        0 <= i < drop.len() && #[trigger] drop[i] ==> old(self).sessions()[i].1.expiry_interval
                            != 0
                    &&& final(self).sessions() == kept(old(self).sessions(), drop)
                    &&& r == Ok::<usize, PersistenceError>(marked(drop, drop.len()) as usize)
                },
            final(self).pending() == old(self).pending().filter(
                |e: (Seq<char>, Seq<(u16, PendingMessageView)>)| key_index(final(self).sessions(), e.0) >= 0,
            ),
            final(self).session_limit() == old(self).session_limit(),
            final(self).pending_limit() == old(self).pending_limit(),
            old(self).wf() ==> final(self).wf(),
    {
        let ghost s = self.sessions();
        let mut old_sessions: Vec<(String, PersistedSession)> = Vec::new();
        std::mem::swap(&mut old_sessions, &mut self.sessions);
        let mut remaining: Vec<(String, PersistedSession)> = Vec::new();
        let ghost mut drop: Seq<bool> = Seq::empty();
        let mut removed: usize = 0;
        let mut i: usize = 0;
        while i < old_sessions.len()
            invariant
                sessions_of(old_sessions@) == s,
                i <= s.len(),
                drop.len() == i,
                removed == marked(drop, i as nat),
                removed <= i,
                sessions_of(remaining@) == kept(s.take(i as int), drop),
                forall|j: int| 0 <= j < i && #[trigger] drop[j] ==> s[j].1.expiry_interval != 0,
            decreases s.len() - i,
        {
            let expired = old_sessions[i].1.is_expired();
            proof {
                assert(s.take(i as int + 1).drop_last() =~= s.take(i as int));
                lemma_kept_marks(s.take(i as int), drop, drop.push(expired));
            }
            if !expired {
                let entry = (old_sessions[i].0.clone(), old_sessions[i].1.copy());
                remaining.push(entry);
                proof {
                    assert(sessions_of(remaining@) =~= kept(s.take(i as int), drop).push(s[i as int]));
                }
            } else {
                removed = removed + 1;
            }
            proof {
                let ghost old_drop = drop;
                drop = drop.push(expired);
                lemma_marked_prefix(old_drop, drop, i as nat);
                assert(marked(drop, (i + 1) as nat) == marked(drop, i as nat) + if expired {
                    1nat
                } else {
                    0nat
                });
            }
            i = i + 1;
        }
        proof {
            assert(s.take(s.len() as int) =~= s);
        }
        self.sessions = remaining;
        proof {
            if old(self).wf() {
                lemma_kept_keys_unique(s, drop);
            }
        }
        // Keep the pending messages of clients that still have a session
        let ghost p = self.pending();
        let ghost kept_sessions = self.sessions();
        let ghost pred = |e: (Seq<char>, Seq<(u16, PendingMessageView)>)| key_index(kept_sessions, e.0) >= 0;
        let mut old_pending: Vec<(String, Vec<(u16, PendingMessage)>)> = Vec::new();
        std::mem::swap(&mut old_pending, &mut self.pending);
        let mut kept_pending: Vec<(String, Vec<(u16, PendingMessage)>)> = Vec::new();
        let mut j: usize = 0;
        while j < old_pending.len()
            invariant
                pending_of(old_pending@) == p,
                kept_sessions == self.sessions(),
                pred == (|e: (Seq<char>, Seq<(u16, PendingMessageView)>)| key_index(kept_sessions, e.0) >= 0),
                j <= p.len(),
                pending_of(kept_pending@) == p.take(j as int).filter(pred),
            decreases p.len() - j,
        {
            proof {
                lemma_key_index(self.sessions(), p[j as int].0);
                lemma_filter_step(p, pred, j as int);
            }
            if self.find_session(old_pending[j].0.as_str()).is_some() {
                let ghost before = kept_pending@;
                let entry = (old_pending[j].0.clone(), copy_messages(&old_pending[j].1));
                kept_pending.push(entry);
                proof {
                    assert(pending_of(kept_pending@) =~= pending_of(before).push(p[j as int]));
                }
            }
            j = j + 1;
        }
        proof {
            assert(p.take(p.len() as int) =~= p);
        }
        self.pending = kept_pending;
        proof {
            if old(self).wf() {
                lemma_filter_unique(p, pred);
            }
        }
        Ok(removed)
    }
}

impl MessageStore for MemoryStore {
    /// Store a pending message for a client: the client gets an entry, and
    /// the message is stored under its packet identifier unless the client
    /// has the maximum number of messages already.
    fn store_pending(&mut self, client_id: &str, message: PendingMessage) -> (r: Result<(), PersistenceError>)
        ensures
            ({
                let (p, stored) = spec_store_pending(
                    old(self).pending(),
                    old(self).pending_limit(),
                    client_id@,
                    message@,
                );
                &&& final(self).pending() == p
                &&& if stored {
                    r is Ok
                } else {
                    r matches Err(PersistenceError::StorageFull)
                }
            }),
            final(self).sessions() == old(self).sessions(),
            final(self).session_limit() == old(self).session_limit(),
            final(self).pending_limit() == old(self).pending_limit(),
            old(self).wf() ==> final(self).wf(),
    {
        let ghost c = client_id@;
        let ghost m = message@;
        proof {
            lemma_key_index(self.pending(), c);
        }
        // The client's entry, created when missing
        let k = match self.find_client(client_id) {
            Some(k) => k,
            None => {
                self.pending.push((client_id.to_string(), Vec::new()));
                proof {
                    let p0 = old(self).pending();
                    assert(self.pending()[p0.len() as int].1 =~= Seq::<(u16, PendingMessageView)>::empty());
                    assert(self.pending() =~= p0.push((c, Seq::empty())));
                    lemma_key_index(self.pending(), c);
                    if old(self).wf() {
                        assert forall|a: int, b: int| 0 <= a < b < self.pending().len() implies self.pending()[a].0
                            != self.pending()[b].0 by {
                            if b == p0.len() {
                                assert(p0[a].0 != c);
                            }
                        }
                        assert forall|i: int| 0 <= i < self.pending().len() implies ids_unique(
                            #[trigger] self.pending()[i].1,
                        ) by {
                            if i < p0.len() {
                                assert(self.pending()[i] == p0[i]);
                            }
                        }
                    }
                }
                self.pending.len() - 1
            },
        };
        let ghost p1 = self.pending();
        assert(p1 == with_entry(old(self).pending(), c));
        assert(k == key_index(p1, c));
        // Check the capacity
        if self.pending[k].1.len() >= self.max_pending_per_client {
            return Err(PersistenceError::StorageFull);
        }
        let (key, mut list) = self.pending.remove(k);
        let ghost l0 = messages_of(list@);
        let id = message.packet_id;
        proof {
            lemma_id_index(list@, id);
            lemma_id_index_ids(list@, l0, id);
        }
        match find_id(&list, id) {
            Some(j) => {
                list.set(j, (id, message));
                proof {
                    assert(messages_of(list@) =~= l0.update(j as int, (id, m)));
                }
            },
            None => {
                list.push((id, message));
                proof {
                    assert(messages_of(list@) =~= l0.push((id, m)));
                }
            },
        }
        self.pending.insert(k, (key, list));
        proof {
            assert(messages_of(list@) == put_message(l0, m));
            assert(self.pending() =~= p1.update(k as int, (c, put_message(l0, m))));
            if old(self).wf() {
                assert(ids_unique(l0)) by {
                    assert(p1[k as int].1 == l0);
                }
                lemma_id_index(l0, id);
                if id_index(l0, id) >= 0 {
                    lemma_ids_unique_edit(l0, id_index(l0, id), (id, m));
                } else {
                    lemma_ids_unique_push(l0, (id, m));
                }
                assert forall|a: int, b: int| 0 <= a < b < self.pending().len() implies self.pending()[a].0
                    != self.pending()[b].0 by {
                    assert(self.pending()[a].0 == p1[a].0);
                    assert(self.pending()[b].0 == p1[b].0);
                }
                assert forall|i: int| 0 <= i < self.pending().len() implies ids_unique(
                    #[trigger] self.pending()[i].1,
                ) by {
                    if i != k {
                        assert(self.pending()[i] == p1[i]);
                    }
                }
            }
        }
        Ok(())
    }

    /// A client's pending message by packet identifier (a copy).
    fn get_pending(&self, client_id: &str, packet_id: u16) -> (r: Result<Option<PendingMessage>, PersistenceError>)
        ensures
            match spec_get_pending(self.pending(), client_id@, packet_id) {
                Some(v) => r matches Ok(Some(x)) && x@ == v,
                None => r matches Ok(None),
            },
    {
        proof {
            lemma_key_index(self.pending(), client_id@);
        }
        match self.find_client(client_id) {
            Some(k) => {
                let list = &self.pending[k].1;
                proof {
                    lemma_id_index(list@, packet_id);
                    lemma_id_index_ids(list@, messages_of(list@), packet_id);
                }
                match find_id(list, packet_id) {
                    Some(j) => Ok(Some(list[j].1.copy())),
                    None => Ok(None),
                }
            },
            None => Ok(None),
        }
    }

    /// Replace a pending message (under its packet identifier): the client
    /// must have pending messages, and one with that identifier.
    fn update_pending(&mut self, client_id: &str, message: PendingMessage) -> (r: Result<(), PersistenceError>)
        ensures
            ({
                let p = old(self).pending();
                let k = key_index(p, client_id@);
                let id = message.packet_id;
                if k < 0 {
                    &&& r matches Err(PersistenceError::SessionNotFound { client_id: c }) && c@ == client_id@
                    &&& final(self).pending() == p
                } else if id_index(p[k].1, id) < 0 {
                    &&& r matches Err(PersistenceError::MessageNotFound { packet_id }) && packet_id == id
                    &&& final(self).pending() == p
                } else {
                    &&& r is Ok
                    &&& final(self).pending() == p.update(k, (client_id@, p[k].1.update(id_index(p[k].1, id), (id, message@))))
                }
            }),
            final(self).sessions() == old(self).sessions(),
            final(self).session_limit() == old(self).session_limit(),
            final(self).pending_limit() == old(self).pending_limit(),
            old(self).wf() ==> final(self).wf(),
    {
        let ghost p = self.pending();
        let ghost m = message@;
        proof {
            lemma_key_index(p, client_id@);
        }
        let k = match self.find_client(client_id) {
            Some(k) => k,
            None => {
                return Err(PersistenceError::SessionNotFound { client_id: client_id.to_string() });
            },
        };
        let id = message.packet_id;
        proof {
            lemma_id_index(self.pending[k as int].1@, id);
            lemma_id_index_ids(self.pending[k as int].1@, p[k as int].1, id);
        }
        let j = match find_id(&self.pending[k].1, id) {
            Some(j) => j,
            None => {
                return Err(PersistenceError::MessageNotFound { packet_id: id });
            },
        };
        let (key, mut list) = self.pending.remove(k);
        let ghost l0 = messages_of(list@);
        list.set(j, (id, message));
        self.pending.insert(k, (key, list));
        proof {
            assert(messages_of(list@) =~= l0.update(j as int, (id, m)));
            assert(self.pending() =~= p.update(k as int, (client_id@, l0.update(j as int, (id, m)))));
            if old(self).wf() {
                lemma_ids_unique_edit(l0, j as int, (id, m));
                assert forall|a: int, b: int| 0 <= a < b < self.pending().len() implies self.pending()[a].0
                    != self.pending()[b].0 by {
                    assert(self.pending()[a].0 == p[a].0);
                    assert(self.pending()[b].0 == p[b].0);
                }
                assert forall|i: int| 0 <= i < self.pending().len() implies ids_unique(
                    #[trigger] self.pending()[i].1,
                ) by {
                    if i != k {
                        assert(self.pending()[i] == p[i]);
                    }
                }
            }
        }
        Ok(())
    }

    /// Remove a client's pending message; returns whether it was there.
    fn remove_pending(&mut self, client_id: &str, packet_id: u16) -> (r: Result<bool, PersistenceError>)
        ensures
            ({
                let p = old(self).pending();
                let k = key_index(p, client_id@);
                if k < 0 {
                    r == Ok::<bool, PersistenceError>(false) && final(self).pending() == p
                } else {
                    let j = id_index(p[k].1, packet_id);
                    &&& r == Ok::<bool, PersistenceError>(j >= 0)
                    &&& final(self).pending() == if j >= 0 {
                        p.update(k, (client_id@, p[k].1.remove(j)))
                    } else {
                        p
                    }
                }
            }),
            final(self).sessions() == old(self).sessions(),
            final(self).session_limit() == old(self).session_limit(),
            final(self).pending_limit() == old(self).pending_limit(),
            old(self).wf() ==> final(self).wf(),
    {
        let ghost p = self.pending();
        proof {
            lemma_key_index(p, client_id@);
        }
        let k = match self.find_client(client_id) {
            Some(k) => k,
            None => {
                return Ok(false);
            },
        };
        proof {
            lemma_id_index(self.pending[k as int].1@, packet_id);
            lemma_id_index_ids(self.pending[k as int].1@, p[k as int].1, packet_id);
        }
        let j = match find_id(&self.pending[k].1, packet_id) {
            Some(j) => j,
            None => {
                return Ok(false);
            },
        };
        let (key, mut list) = self.pending.remove(k);
        let ghost l0 = messages_of(list@);
        list.remove(j);
        self.pending.insert(k, (key, list));
        proof {
            assert(messages_of(list@) =~= l0.remove(j as int));
            assert(self.pending() =~= p.update(k as int, (client_id@, l0.remove(j as int))));
            if old(self).wf() {
                lemma_ids_unique_edit(l0, j as int, l0[j as int]);
                assert forall|a: int, b: int| 0 <= a < b < self.pending().len() implies self.pending()[a].0
                    != self.pending()[b].0 by {
                    assert(self.pending()[a].0 == p[a].0);
                    assert(self.pending()[b].0 == p[b].0);
                }
                assert forall|i: int| 0 <= i < self.pending().len() implies ids_unique(
                    #[trigger] self.pending()[i].1,
                ) by {
                    if i != k {
                        assert(self.pending()[i] == p[i]);
                    }
                }
            }
        }
        Ok(true)
    }

    /// All pending messages of a client (copies), in order.
    fn get_all_pending(&self, client_id: &str) -> (r: Result<Vec<PendingMessage>, PersistenceError>)
        ensures
            r matches Ok(v) && v@.len() == spec_client_pending(self.pending(), client_id@).len() && forall|i: int|
                0 <= i < v@.len() ==> #[trigger] v@[i]@ == spec_client_pending(self.pending(), client_id@)[i].1,
    {
        let ghost list = spec_client_pending(self.pending(), client_id@);
        proof {
            lemma_key_index(self.pending(), client_id@);
        }
        let mut out: Vec<PendingMessage> = Vec::new();
        match self.find_client(client_id) {
            Some(k) => {
                let src = &self.pending[k].1;
                assert(messages_of(src@) == list);
                let mut i: usize = 0;
                while i < src.len()
                    invariant
                        messages_of(src@) == list,
                        i <= src@.len(),
                        out@.len() == i,
                        forall|j: int| 0 <= j < i ==> #[trigger] out@[j]@ == list[j].1,
                    decreases src@.len() - i,
                {
                    out.push(src[i].1.copy());
                    i = i + 1;
                }
            },
            None => {},
        }
        Ok(out)
    }

    /// Remove all pending messages of a client; returns how many there were.
    fn clear_pending(&mut self, client_id: &str) -> (r: Result<usize, PersistenceError>)
        ensures
            r == Ok::<usize, PersistenceError>(spec_client_pending(old(self).pending(), client_id@).len() as usize),
            final(self).pending() == without_key(old(self).pending(), client_id@),
            final(self).sessions() == old(self).sessions(),
            final(self).session_limit() == old(self).session_limit(),
            final(self).pending_limit() == old(self).pending_limit(),
            old(self).wf() ==> final(self).wf(),
    {
        Ok(self.drop_client(client_id))
    }

    /// The number of pending messages of a client.
    fn pending_count(&self, client_id: &str) -> (r: Result<usize, PersistenceError>)
        ensures
            r == Ok::<usize, PersistenceError>(spec_client_pending(self.pending(), client_id@).len() as usize),
    {
        proof {
            lemma_key_index(self.pending(), client_id@);
        }
        match self.find_client(client_id) {
            Some(k) => Ok(self.pending[k].1.len()),
            None => Ok(0),
        }
    }
}

/// A key at the end of a sequence is found there.
proof fn lemma_key_index_push<X>(s: Seq<(Seq<char>, X)>, c: Seq<char>, x: X)
    ensures
        key_index(s.push((c, x)), c) == s.len(),
{
    assert(s.push((c, x)).last().0 == c);
}

/// An entry replaced under its own key is found where it was.
proof fn lemma_key_index_update<X>(s: Seq<(Seq<char>, X)>, k: int, c: Seq<char>, x: X)
    requires
        0 <= k < s.len(),
        s[k].0 == c,
    ensures
        key_index(s.update(k, (c, x)), c) == key_index(s, c),
{
    lemma_key_index_keys(s.update(k, (c, x)), s, c);
}

/// Saving a session and then loading the client's session gives back the
/// saved session.
pub proof fn lemma_save_then_load(s: Seq<(Seq<char>, PersistedSessionView)>, max: nat, v: PersistedSessionView)
    requires
        spec_save(s, max, v) is Some,
    ensures
        spec_load(spec_save(s, max, v)->Some_0, v.client_id) == Some(v),
{
    let k = key_index(s, v.client_id);
    lemma_key_index(s, v.client_id);
    if k >= 0 {
        lemma_key_index_update(s, k, v.client_id, v);
    } else {
        lemma_key_index_push(s, v.client_id, v);
    }
}

/// After a session is deleted, loading the client's session gives nothing
/// (with one session per client).
pub proof fn lemma_delete_then_load(s: Seq<(Seq<char>, PersistedSessionView)>, c: Seq<char>)
    requires
        keys_unique(s),
    ensures
        spec_load(without_key(s, c), c) is None,
{
    let k = key_index(s, c);
    lemma_key_index(s, c);
    lemma_key_index(without_key(s, c), c);
    if k >= 0 {
        let t = s.remove(k);
        if key_index(t, c) >= 0 {
            let i = key_index(t, c);
            let i2 = if i < k { i } else { i + 1 };
            assert(t[i] == s[i2]);
        }
    }
}

/// Storing a pending message and then reading the client's message with its
/// packet identifier gives back the stored message.
pub proof fn lemma_store_then_get(
    p: Seq<(Seq<char>, Seq<(u16, PendingMessageView)>)>,
    max: nat,
    c: Seq<char>,
    m: PendingMessageView,
)
    requires
        spec_store_pending(p, max, c, m).1,
    ensures
        spec_get_pending(spec_store_pending(p, max, c, m).0, c, m.packet_id) == Some(m),
{
    let p1 = with_entry(p, c);
    lemma_key_index(p, c);
    if key_index(p, c) < 0 {
        lemma_key_index_push(p, c, Seq::<(u16, PendingMessageView)>::empty());
    }
    let k = key_index(p1, c);
    lemma_key_index(p1, c);
    let list = p1[k].1;
    let list2 = put_message(list, m);
    lemma_key_index_update(p1, k, c, list2);
    let j = id_index(list, m.packet_id);
    lemma_id_index(list, m.packet_id);
    if j >= 0 {
        lemma_id_index_ids(list.update(j, (m.packet_id, m)), list, m.packet_id);
    } else {
        assert(list.push((m.packet_id, m)).last().0 == m.packet_id);
    }
}

/// One more step of a filter over the first `j` entries.
proof fn lemma_filter_step<X>(p: Seq<X>, pred: spec_fn(X) -> bool, j: int)
    requires
        0 <= j < p.len(),
    ensures
        p.take(j + 1).filter(pred) == if pred(p[j]) {
            p.take(j).filter(pred).push(p[j])
        } else {
            p.take(j).filter(pred)
        },
{
    reveal(Seq::filter);
    assert(p.take(j + 1).drop_last() =~= p.take(j));
}

/// Filtering keeps one entry per client and one message per identifier,
/// and keeps only entries of `p`.
proof fn lemma_filter_unique(
    p: Seq<(Seq<char>, Seq<(u16, PendingMessageView)>)>,
    pred: spec_fn((Seq<char>, Seq<(u16, PendingMessageView)>)) -> bool,
)
    requires
        keys_unique(p),
        forall|i: int| 0 <= i < p.len() ==> ids_unique(#[trigger] p[i].1),
    ensures
        keys_unique(p.filter(pred)),
        forall|i: int| 0 <= i < p.filter(pred).len() ==> ids_unique(#[trigger] p.filter(pred)[i].1),
        forall|i: int|
            0 <= i < p.filter(pred).len() ==> exists|k: int| 0 <= k < p.len() && #[trigger] p.filter(pred)[i] == p[k],
    decreases p.len(),
{
    reveal(Seq::filter);
    if p.len() > 0 {
        let q = p.drop_last();
        assert(keys_unique(q));
        assert forall|i: int| 0 <= i < q.len() implies ids_unique(#[trigger] q[i].1) by {
            assert(q[i] == p[i]);
        }
        lemma_filter_unique(q, pred);
        let f = q.filter(pred);
        assert forall|i: int| 0 <= i < f.len() implies exists|k: int| 0 <= k < p.len() && #[trigger] f[i] == p[k] by {
            let k = choose|k: int| 0 <= k < q.len() && f[i] == q[k];
            assert(f[i] == p[k]);
        }
        if pred(p.last()) {
            assert forall|a: int, b: int| 0 <= a < b < f.push(p.last()).len() implies f.push(p.last())[a].0
                != f.push(p.last())[b].0 by {
                if b == f.len() {
                    let k = choose|k: int| 0 <= k < q.len() && f[a] == q[k];
                    assert(p[k].0 != p[p.len() - 1].0);
                }
            }
        }
    }
}

/// `kept` reads only the marks of the positions of `s`.
proof fn lemma_kept_marks<X>(s: Seq<X>, d1: Seq<bool>, d2: Seq<bool>)
    requires
        forall|j: int| 0 <= j < s.len() ==> d1[j] == d2[j],
    ensures
        kept(s, d1) == kept(s, d2),
    decreases s.len(),
{
    if s.len() > 0 {
        lemma_kept_marks(s.drop_last(), d1, d2);
    }
}

/// `marked` reads only the first `n` marks.
proof fn lemma_marked_prefix(d1: Seq<bool>, d2: Seq<bool>, n: nat)
    requires
        n <= d1.len(),
        n <= d2.len(),
        forall|j: int| 0 <= j < n ==> d1[j] == d2[j],
    ensures
        marked(d1, n) == marked(d2, n),
    decreases n,
{
    if n > 0 {
        lemma_marked_prefix(d1, d2, (n - 1) as nat);
    }
}

/// Keeping some entries keeps keys distinct, and keeps only entries of `s`.
proof fn lemma_kept_keys_unique<X>(s: Seq<(Seq<char>, X)>, drop: Seq<bool>)
    requires
        keys_unique(s),
    ensures
        keys_unique(kept(s, drop)),
        forall|i: int|
            0 <= i < kept(s, drop).len() ==> exists|k: int| 0 <= k < s.len() && #[trigger] kept(s, drop)[i] == s[k],
    decreases s.len(),
{
    if s.len() > 0 {
        let q = s.drop_last();
        lemma_kept_keys_unique(q, drop);
        let f = kept(q, drop);
        assert forall|i: int| 0 <= i < f.len() implies exists|k: int| 0 <= k < s.len() && #[trigger] f[i] == s[k] by {
            let k = choose|k: int| 0 <= k < q.len() && f[i] == q[k];
            assert(f[i] == s[k]);
        }
        if !drop[s.len() - 1] {
            assert forall|a: int, b: int| 0 <= a < b < f.push(s.last()).len() implies f.push(s.last())[a].0
                != f.push(s.last())[b].0 by {
                if b == f.len() {
                    let k = choose|k: int| 0 <= k < q.len() && f[a] == q[k];
                    assert(s[k].0 != s[s.len() - 1].0);
                }
            }
        }
    }
}

/// A copy of a client's pending messages.
fn copy_messages(v: &Vec<(u16, PendingMessage)>) -> (r: Vec<(u16, PendingMessage)>)
    ensures
        messages_of(r@) == messages_of(v@),
{
    let mut out: Vec<(u16, PendingMessage)> = Vec::new();
    let mut i: usize = 0;
    while i < v.len()
        invariant
            i <= v@.len(),
            out@.len() == i,
            messages_of(out@) == messages_of(v@).take(i as int),
        decreases v@.len() - i,
    {
        let ghost before = out@;
        let m = v[i].1.copy();
        out.push((v[i].0, m));
        proof {
            assert(out@.drop_last() == before);
        }
        assert(messages_of(out@) =~= messages_of(v@).take(i as int + 1));
        i = i + 1;
    }
    assert(messages_of(v@).take(v@.len() as int) =~= messages_of(v@));
    out
}

impl Default for MemoryStore {
    fn default() -> (r: Self)
        ensures
            r.wf(),
            r.sessions().len() == 0,
            r.pending().len() == 0,
            r.session_limit() == 100_000,
            r.pending_limit() == 1000,
    {
        Self::new()
    }
}

} // verus!
