//! The storage interface: persisted sessions, pending messages, and the
//! operations a store offers.

use vstd::prelude::*;

use std::time::{Duration, Instant};

use crate::clock::{elapsed, elapsed_secs, instant_now};
use crate::codec::types::QoS;
use crate::router::registry::entries_view;
use crate::router::router::copy_bytes;
use crate::strings::{decimal, push_decimal};

verus! {

/// Errors of persistence operations.
#[derive(Debug, Clone)]
pub enum PersistenceError {
    /// No session (or pending messages) for the client.
    SessionNotFound { client_id: String },
    /// No pending message with the packet identifier.
    MessageNotFound { packet_id: u16 },
    /// The storage failed.
    StorageError { message: String },
    /// A value could not be serialized.
    SerializationError { message: String },
    /// The storage is full.
    StorageFull,
}

/// The message of a persistence error.
pub open spec fn persistence_error_message(e: PersistenceError) -> Seq<char> {
    match e {
        PersistenceError::SessionNotFound { client_id } => "Session not found: "@ + client_id@,
        PersistenceError::MessageNotFound { packet_id } => "Message not found: packet_id="@ + decimal(
            packet_id as nat,
        ),
        PersistenceError::StorageError { message } => "Storage error: "@ + message@,
        PersistenceError::SerializationError { message } => "Serialization error: "@ + message@,
        PersistenceError::StorageFull => "Storage full"@,
    }
}

impl PersistenceError {
    /// The error's message.
    pub fn message(&self) -> (r: String)
        ensures
            r@ == persistence_error_message(*self),
    {
        let (mut m, tail) = match self {
            PersistenceError::SessionNotFound { client_id } => ("Session not found: ".to_string(), client_id.as_str()),
            PersistenceError::MessageNotFound { packet_id } => {
                let mut m = "Message not found: packet_id=".to_string();
                push_decimal(&mut m, *packet_id as u64);
                (m, "")
            },
            PersistenceError::StorageError { message } => ("Storage error: ".to_string(), message.as_str()),
            PersistenceError::SerializationError { message } => (
                "Serialization error: ".to_string(),
                message.as_str(),
            ),
            PersistenceError::StorageFull => ("Storage full".to_string(), ""),
        };
        proof {
            reveal_strlit("");
        }
        m.append(tail);
        m
    }
}

/// Session state persisted for reconnects with clean_session false.
#[derive(Debug, Clone)]
pub struct PersistedSession {
    /// The client identifier.
    pub client_id: String,
    /// Topic filters the client is subscribed to, with their QoS.
    pub subscriptions: Vec<(String, QoS)>,
    /// When this session was created.
    pub created_at: Instant,
    /// When this session was last active.
    pub last_active: Instant,
    /// Session expiry interval in seconds (0: never, while the broker runs).
    pub expiry_interval: u32,
}

/// A persisted session, as plain values.
pub struct PersistedSessionView {
    pub client_id: Seq<char>,
    pub subscriptions: Seq<(Seq<char>, QoS)>,
    pub created_at: Instant,
    pub last_active: Instant,
    pub expiry_interval: u32,
}

impl View for PersistedSession {
    type V = PersistedSessionView;

    open spec fn view(&self) -> PersistedSessionView {
        PersistedSessionView {
            client_id: self.client_id@,
            subscriptions: entries_view(self.subscriptions@),
            created_at: self.created_at,
            last_active: self.last_active,
            expiry_interval: self.expiry_interval,
        }
    }
}

/// Whether a session with expiry interval `expiry_interval` (seconds),
/// inactive for `idle_secs` seconds, has expired: never with interval 0,
/// else once more than the interval has passed.
pub fn persisted_session_expired(expiry_interval: u32, idle_secs: u64) -> (r: bool)
    ensures
        r == (expiry_interval != 0 && idle_secs > expiry_interval),
{
    if expiry_interval == 0 {
        return false;
    }
    idle_secs > expiry_interval as u64
}

/// A copy of a list of subscriptions.
fn copy_subscriptions(v: &Vec<(String, QoS)>) -> (r: Vec<(String, QoS)>)
    ensures
        entries_view(r@) == entries_view(v@),
{
    let mut out: Vec<(String, QoS)> = Vec::new();
    let mut i: usize = 0;
    while i < v.len()
        invariant
            i <= v@.len(),
            out@.len() == i,
            entries_view(out@) == entries_view(v@).take(i as int),
        decreases v@.len() - i,
    {
        let ghost old_out = out@;
        let name = v[i].0.clone();
        out.push((name, v[i].1));
        proof {
            assert(out@[i as int].0@ == v@[i as int].0@);
            assert(out@.drop_last() == old_out);
        }
        assert(entries_view(out@) =~= entries_view(v@).take(i as int + 1));
        i = i + 1;
    }
    assert(entries_view(v@).take(v@.len() as int) =~= entries_view(v@));
    out
}

impl PersistedSession {
    /// A new persisted session: no subscriptions, created and active now,
    /// never expiring.
    pub fn new(client_id: &str) -> (r: Self)
        ensures
            r@.client_id == client_id@,
            r@.subscriptions.len() == 0,
            r.expiry_interval == 0,
    {
        let now = instant_now();
        let r = PersistedSession {
            client_id: client_id.to_string(),
            subscriptions: Vec::new(),
            created_at: now,
            last_active: now,
            expiry_interval: 0,
        };
        assert(r@.subscriptions.len() == 0);
        r
    }

    /// Whether this session has expired: with an expiry interval, once more
    /// than that many seconds have passed since the last activity (the
    /// elapsed time comes from the clock).
    pub fn is_expired(&self) -> (r: bool)
        ensures
            self.expiry_interval == 0 ==> !r,
    {
        if self.expiry_interval == 0 {
            return false;
        }
        persisted_session_expired(self.expiry_interval, elapsed_secs(&self.last_active))
    }

    /// Record activity now.
    pub fn touch(&mut self)
        ensures
            final(self)@.client_id == old(self)@.client_id,
            final(self)@.subscriptions == old(self)@.subscriptions,
            final(self).created_at == old(self).created_at,
            final(self).expiry_interval == old(self).expiry_interval,
    {
        self.last_active = instant_now();
    }

    /// A copy of this session.
    pub fn copy(&self) -> (r: Self)
        ensures
            r@ == self@,
    {
        PersistedSession {
            client_id: self.client_id.clone(),
            subscriptions: copy_subscriptions(&self.subscriptions),
            created_at: self.created_at,
            last_active: self.last_active,
            expiry_interval: self.expiry_interval,
        }
    }
}

/// QoS 2 delivery state of a pending message.
#[derive(Debug, Clone, Copy, PartialEq, Eq, Structural)]
pub enum Qos2State {
    /// PUBLISH sent, waiting for PUBREC.
    WaitingPubrec,
    /// PUBREC received, PUBREL sent, waiting for PUBCOMP.
    WaitingPubcomp,
}

/// A message waiting for acknowledgment.
#[derive(Debug, Clone)]
pub struct PendingMessage {
    /// The packet identifier.
    pub packet_id: u16,
    /// The topic the message was published to.
    pub topic: String,
    /// The message payload.
    pub payload: Vec<u8>,
    /// The QoS level.
    pub qos: QoS,
    /// Whether this is a retained message.
    pub retain: bool,
    /// When this message was stored.
    pub stored_at: Instant,
    /// Number of delivery attempts.
    pub delivery_attempts: u32,
    /// The state of a QoS 2 flow.
    pub qos2_state: Option<Qos2State>,
}

/// A pending message, as plain values.
pub struct PendingMessageView {
    pub packet_id: u16,
    pub topic: Seq<char>,
    pub payload: Seq<u8>,
    pub qos: QoS,
    pub retain: bool,
    pub stored_at: Instant,
    pub delivery_attempts: u32,
    pub qos2_state: Option<Qos2State>,
}

impl View for PendingMessage {
    type V = PendingMessageView;

    open spec fn view(&self) -> PendingMessageView {
        PendingMessageView {
            packet_id: self.packet_id,
            topic: self.topic@,
            payload: self.payload@,
            qos: self.qos,
            retain: self.retain,
            stored_at: self.stored_at,
            delivery_attempts: self.delivery_attempts,
            qos2_state: self.qos2_state,
        }
    }
}

impl PendingMessage {
    /// A new pending message, stored now, not yet delivered; a QoS 2 message
    /// starts out waiting for PUBREC.
    pub fn new(packet_id: u16, topic: &str, payload: Vec<u8>, qos: QoS, retain: bool) -> (r: Self)
        ensures
            r.packet_id == packet_id,
            r.topic@ == topic@,
            r.payload@ == payload@,
            r.qos == qos,
            r.retain == retain,
            r.delivery_attempts == 0,
            r.qos2_state == if qos == QoS::ExactlyOnce {
                Some(Qos2State::WaitingPubrec)
            } else {
                None
            },
    {
        PendingMessage {
            packet_id,
            topic: topic.to_string(),
            payload,
            qos,
            retain,
            stored_at: instant_now(),
            delivery_attempts: 0,
            qos2_state: match qos {
                QoS::ExactlyOnce => Some(Qos2State::WaitingPubrec),
                _ => None,
            },
        }
    }

    /// The age of this message (from the clock).
    pub fn age(&self) -> Duration {
        elapsed(&self.stored_at)
    }

    /// A copy of this message.
    pub fn copy(&self) -> (r: Self)
        ensures
            r@ == self@,
    {
        PendingMessage {
            packet_id: self.packet_id,
            topic: self.topic.clone(),
            payload: copy_bytes(&self.payload),
            qos: self.qos,
            retain: self.retain,
            stored_at: self.stored_at,
            delivery_attempts: self.delivery_attempts,
            qos2_state: self.qos2_state,
        }
    }
}

/// Storage of session state.
pub trait SessionStore {
    /// Save or update a session.
    fn save_session(&mut self, session: PersistedSession) -> Result<(), PersistenceError>;

    /// Load a session by client identifier.
    fn load_session(&self, client_id: &str) -> Result<Option<PersistedSession>, PersistenceError>;

    /// Delete a session.
    fn delete_session(&mut self, client_id: &str) -> Result<bool, PersistenceError>;

    /// Whether a session exists.
    fn session_exists(&self, client_id: &str) -> Result<bool, PersistenceError>;

    /// The client identifiers of all sessions.
    fn list_sessions(&self) -> Result<Vec<String>, PersistenceError>;

    /// Remove expired sessions; returns how many were removed.
    fn cleanup_expired(&mut self) -> Result<usize, PersistenceError>;
}

/// Storage of pending messages.
pub trait MessageStore {
    /// Store a pending message for a client.
    fn store_pending(&mut self, client_id: &str, message: PendingMessage) -> Result<(), PersistenceError>;

    /// A pending message by packet identifier.
    fn get_pending(&self, client_id: &str, packet_id: u16) -> Result<Option<PendingMessage>, PersistenceError>;

    /// Update a pending message (for instance its delivery attempts).
    fn update_pending(&mut self, client_id: &str, message: PendingMessage) -> Result<(), PersistenceError>;

    /// Remove a pending message (after delivery).
    fn remove_pending(&mut self, client_id: &str, packet_id: u16) -> Result<bool, PersistenceError>;

    /// All pending messages of a client (to resend on reconnect).
    fn get_all_pending(&self, client_id: &str) -> Result<Vec<PendingMessage>, PersistenceError>;

    /// Remove all pending messages of a client; returns how many there were.
    fn clear_pending(&mut self, client_id: &str) -> Result<usize, PersistenceError>;

    /// The number of pending messages of a client.
    fn pending_count(&self, client_id: &str) -> Result<usize, PersistenceError>;
}

} // verus!
