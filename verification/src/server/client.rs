//! A client of the broker: its connection state, session and statistics.

use vstd::prelude::*;

use std::time::{Duration, Instant};

use crate::clock::{elapsed, elapsed_secs, instant_now};
use crate::codec::types::QoS;
use crate::router::registry::{entries_view, key_index};
use crate::session::session::{spec_subscribe, spec_unsubscribe, Session, SessionConfig};
use crate::strings::{hex_digits, push_hex};

verus! {

/// Client identifier.
pub type ClientId = String;

/// The identifier given to the `n`th client that connects without one:
/// `auto-` and 16 hexadecimal digits.
pub open spec fn auto_id(n: u64) -> Seq<char> {
    "auto-"@ + hex_digits(n as nat, 16)
}

/// The identifier for the `n`th anonymous client.
pub fn auto_client_id(n: u64) -> (r: ClientId)
    ensures
        r@ == auto_id(n),
        r@.len() == 21,
{
    let mut id = "auto-".to_string();
    push_hex(&mut id, n, 16);
    proof {
        reveal_strlit("auto-");
        lemma_hex_digits_len(n as nat, 16);
    }
    id
}

/// `hex_digits` gives as many digits as asked for.
proof fn lemma_hex_digits_len(n: nat, k: nat)
    ensures
        hex_digits(n, k).len() == k,
    decreases k,
{
    if k > 0 {
        lemma_hex_digits_len(n / 16, (k - 1) as nat);
    }
}

/// Whether a client with keep-alive interval `keep_alive` (seconds), idle
/// for `idle_secs` seconds, has outlived it: never with interval 0, else
/// once more than one and a half intervals (rounded down to whole seconds)
/// have passed, as MQTT allows.
pub fn keep_alive_elapsed(keep_alive: u16, idle_secs: u64) -> (r: bool)
    ensures
        r == (keep_alive != 0 && idle_secs > (3 * keep_alive as nat) / 2),
{
    if keep_alive == 0 {
        return false;
    }
    let timeout = (3 * keep_alive as u64) / 2;
    idle_secs > timeout
}

/// Client connection state.
#[derive(Debug, Clone, Copy, PartialEq, Eq, Structural)]
pub enum ClientState {
    /// Waiting for CONNECT.
    Connecting,
    /// Connected and operational.
    Connected,
    /// Disconnecting (DISCONNECT received or being sent).
    Disconnecting,
    /// Connection closed.
    Disconnected,
}

/// Statistics of a client connection.
#[derive(Debug, Clone)]
pub struct ClientStats {
    /// Packets received from this client.
    pub packets_received: u64,
    /// Packets sent to this client.
    pub packets_sent: u64,
    /// Bytes received.
    pub bytes_received: u64,
    /// Bytes sent.
    pub bytes_sent: u64,
    /// Messages published by this client.
    pub messages_published: u64,
    /// Messages delivered to this client.
    pub messages_delivered: u64,
}

impl Default for ClientStats {
    fn default() -> (r: Self)
        ensures
            r.packets_received == 0,
            r.packets_sent == 0,
            r.bytes_received == 0,
            r.bytes_sent == 0,
            r.messages_published == 0,
            r.messages_delivered == 0,
    {
        ClientStats {
            packets_received: 0,
            packets_sent: 0,
            bytes_received: 0,
            bytes_sent: 0,
            messages_published: 0,
            messages_delivered: 0,
        }
    }
}

impl ClientStats {
    /// Record a received packet of `bytes` bytes.
    pub fn record_received(&mut self, bytes: usize)
        requires
            old(self).packets_received < u64::MAX,
            old(self).bytes_received + bytes <= u64::MAX,
        ensures
            *final(self) == (ClientStats {
                packets_received: (old(self).packets_received + 1) as u64,
                bytes_received: (old(self).bytes_received + bytes) as u64,
                ..*old(self)
            }),
    {
        self.packets_received = self.packets_received + 1;
        self.bytes_received = self.bytes_received + bytes as u64;
    }

    /// Record a sent packet of `bytes` bytes.
    pub fn record_sent(&mut self, bytes: usize)
        requires
            old(self).packets_sent < u64::MAX,
            old(self).bytes_sent + bytes <= u64::MAX,
        ensures
            *final(self) == (ClientStats {
                packets_sent: (old(self).packets_sent + 1) as u64,
                bytes_sent: (old(self).bytes_sent + bytes) as u64,
                ..*old(self)
            }),
    {
        self.packets_sent = self.packets_sent + 1;
        self.bytes_sent = self.bytes_sent + bytes as u64;
    }

    /// Record a message published by this client.
    pub fn record_publish(&mut self)
        requires
            old(self).messages_published < u64::MAX,
        ensures
            *final(self) == (ClientStats {
                messages_published: (old(self).messages_published + 1) as u64,
                ..*old(self)
            }),
    {
        self.messages_published = self.messages_published + 1;
    }

    /// Record a message delivered to this client.
    pub fn record_delivery(&mut self)
        requires
            old(self).messages_delivered < u64::MAX,
        ensures
            *final(self) == (ClientStats {
                messages_delivered: (old(self).messages_delivered + 1) as u64,
                ..*old(self)
            }),
    {
        self.messages_delivered = self.messages_delivered + 1;
    }
}

/// A client of the broker. The peer's network address is kept by the
/// connection that serves the client.
#[derive(Debug)]
pub struct Client {
    /// The MQTT client identifier.
    pub client_id: ClientId,
    /// Connection state.
    pub state: ClientState,
    /// Session state.
    pub session: Session,
    /// Connection statistics.
    pub stats: ClientStats,
    /// When this client connected.
    pub connected_at: Option<Instant>,
    /// Keep-alive interval in seconds (0: disabled).
    pub keep_alive: u16,
    /// Whether this is a clean session.
    pub clean_session: bool,
    /// Last activity (for keep-alive).
    pub last_activity: Instant,
    /// User name, if authenticated.
    pub username: Option<String>,
}

impl Client {
    /// A client waiting for CONNECT: no identifier yet, a clean session.
    pub fn new() -> (r: Self)
        ensures
            r.state == ClientState::Connecting,
            r.client_id@.len() == 0,
            r.session.wf(),
            r.session.subs().len() == 0,
            r.connected_at is None,
            r.keep_alive == 0,
            r.clean_session,
            r.username is None,
    {
        let now = instant_now();
        Client {
            // Set on CONNECT
            client_id: String::new(),
            state: ClientState::Connecting,
            session: Session::new(String::new(), true, SessionConfig::default()),
            stats: ClientStats::default(),
            connected_at: None,
            keep_alive: 0,
            clean_session: true,
            last_activity: now,
            username: None,
        }
    }

    /// Initialize the client from a CONNECT: an empty client identifier is
    /// replaced by the identifier of the `auto_number`th anonymous client;
    /// the client is connected, with a new session.
    pub fn initialize(
        &mut self,
        client_id: String,
        clean_session: bool,
        keep_alive: u16,
        username: Option<String>,
        auto_number: u64,
    )
        ensures
            final(self).client_id@ == if client_id@.len() == 0 {
                auto_id(auto_number)
            } else {
                client_id@
            },
            final(self).clean_session == clean_session,
            final(self).keep_alive == keep_alive,
            final(self).username == username,
            final(self).connected_at is Some,
            final(self).state == ClientState::Connected,
            final(self).session.wf(),
            final(self).session.client() == final(self).client_id@,
            final(self).session.clean() == clean_session,
            final(self).session.subs().len() == 0,
            final(self).session.qos1().len() == 0,
            final(self).session.qos2_out().len() == 0,
            final(self).session.qos2_in().len() == 0,
            final(self).session.queue().len() == 0,
            final(self).stats == old(self).stats,
    {
        let final_client_id = if client_id.as_str().is_empty() {
            auto_client_id(auto_number)
        } else {
            client_id
        };
        self.client_id = final_client_id.clone();
        self.clean_session = clean_session;
        self.keep_alive = keep_alive;
        self.username = username;
        self.connected_at = Some(instant_now());
        self.state = ClientState::Connected;
        self.session = Session::new(final_client_id, clean_session, SessionConfig::default());
    }

    /// Replace the session by a restored one.
    pub fn restore_session(&mut self, session: Session)
        ensures
            final(self).session == session,
            final(self).client_id == old(self).client_id,
            final(self).state == old(self).state,
            final(self).clean_session == old(self).clean_session,
            final(self).keep_alive == old(self).keep_alive,
    {
        self.session = session;
    }

    /// Record activity now.
    pub fn touch(&mut self)
        ensures
            *final(self) == (Client { last_activity: final(self).last_activity, ..*old(self) }),
    {
        self.last_activity = instant_now();
    }

    /// Whether the keep-alive interval has passed without activity (the
    /// idle time comes from the clock); never with keep-alive 0.
    pub fn is_keep_alive_expired(&self) -> (r: bool)
        ensures
            self.keep_alive == 0 ==> !r,
    {
        if self.keep_alive == 0 {
            return false;
        }
        keep_alive_elapsed(self.keep_alive, elapsed_secs(&self.last_activity))
    }

    /// How long the client has been connected (from the clock), once
    /// connected.
    pub fn connection_duration(&self) -> (r: Option<Duration>)
        ensures
            r is Some <==> self.connected_at is Some,
    {
        match &self.connected_at {
            Some(t) => Some(elapsed(t)),
            None => None,
        }
    }

    /// Mark the client as disconnecting.
    pub fn disconnect(&mut self)
        ensures
            *final(self) == (Client { state: ClientState::Disconnecting, ..*old(self) }),
    {
        self.state = ClientState::Disconnecting;
    }

    /// Mark the client as disconnected.
    pub fn mark_disconnected(&mut self)
        ensures
            *final(self) == (Client { state: ClientState::Disconnected, ..*old(self) }),
    {
        self.state = ClientState::Disconnected;
    }

    /// Whether the client is connected.
    pub fn is_connected(&self) -> (r: bool)
        ensures
            r == (self.state == ClientState::Connected),
    {
        match self.state {
            ClientState::Connected => true,
            _ => false,
        }
    }

    /// Whether the client is waiting for CONNECT.
    pub fn is_connecting(&self) -> (r: bool)
        ensures
            r == (self.state == ClientState::Connecting),
    {
        match self.state {
            ClientState::Connecting => true,
            _ => false,
        }
    }

    /// Subscribe to a topic filter (in the session).
    pub fn subscribe(&mut self, filter: &str, qos: QoS)
        requires
            old(self).session.wf(),
        ensures
            final(self).session.wf(),
            final(self).session.subs() == spec_subscribe(old(self).session.subs(), filter@, qos),
            final(self).session.same_identity(&old(self).session),
            final(self).session.same_flows(&old(self).session),
            final(self).session.allocator() == old(self).session.allocator(),
            final(self).session.queue() == old(self).session.queue(),
            *final(self) == (Client { session: final(self).session, ..*old(self) }),
    {
        self.session.subscribe(filter.to_string(), qos);
    }

    /// Unsubscribe from a topic filter; returns whether it was subscribed.
    pub fn unsubscribe(&mut self, filter: &str) -> (r: bool)
        requires
            old(self).session.wf(),
        ensures
            final(self).session.wf(),
            r == (key_index(old(self).session.subs(), filter@) >= 0),
            final(self).session.subs() == spec_unsubscribe(old(self).session.subs(), filter@),
            final(self).session.same_identity(&old(self).session),
            final(self).session.same_flows(&old(self).session),
            final(self).session.allocator() == old(self).session.allocator(),
            final(self).session.queue() == old(self).session.queue(),
            *final(self) == (Client { session: final(self).session, ..*old(self) }),
    {
        self.session.unsubscribe(filter)
    }

    /// The client's subscriptions.
    pub fn subscriptions(&self) -> (r: &Vec<(String, QoS)>)
        ensures
            entries_view(r@) == self.session.subs(),
    {
        self.session.subscriptions()
    }
}

} // verus!
