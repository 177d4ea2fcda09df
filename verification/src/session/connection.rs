//! Connection state machine per MQTT 3.1.1: AwaitingConnect, then
//! Authenticating, Connected, Disconnecting and Closed.

use vstd::prelude::*;

use std::time::{Duration, Instant};

use crate::clock::{
    duration_as_nanos, duration_from_nanos, duration_from_secs, duration_of_nanos, duration_of_secs, elapsed,
    elapsed_nanos, instant_now,
};

verus! {

/// Connection states.
#[derive(Debug, Clone, Copy, PartialEq, Eq, Structural)]
pub enum ConnectionState {
    /// TCP connected, waiting for CONNECT.
    AwaitingConnect,
    /// CONNECT received, checking credentials.
    Authenticating,
    /// Fully connected and operational.
    Connected,
    /// DISCONNECT received or error, cleaning up.
    Disconnecting,
    /// Connection closed.
    Closed,
}

impl Default for ConnectionState {
    fn default() -> (r: Self)
        ensures
            r == ConnectionState::AwaitingConnect,
    {
        ConnectionState::AwaitingConnect
    }
}

/// Why a connection was closed.
#[derive(Debug, Clone, PartialEq, Eq)]
pub enum DisconnectReason {
    /// Client sent DISCONNECT.
    ClientDisconnect,
    /// Keep-alive timeout.
    KeepAliveTimeout,
    /// Protocol violation.
    ProtocolError(String),
    /// Authentication failed.
    AuthenticationFailed,
    /// Server shutting down.
    ServerShutdown,
    /// Network error.
    NetworkError(String),
    /// Another client connected with the same ID.
    AdminKick,
}

/// Connection state machine errors.
#[derive(Debug, Clone, PartialEq, Eq)]
pub enum ConnectionError {
    /// A packet that the state does not allow.
    UnexpectedPacket { state: ConnectionState, packet: &'static str },
    /// A transition that the state does not allow.
    InvalidStateTransition { from: ConnectionState, to: ConnectionState },
}

/// The name of a connection state, as `Debug` writes it.
pub open spec fn state_name(s: ConnectionState) -> Seq<char> {
    match s {
        ConnectionState::AwaitingConnect => "AwaitingConnect"@,
        ConnectionState::Authenticating => "Authenticating"@,
        ConnectionState::Connected => "Connected"@,
        ConnectionState::Disconnecting => "Disconnecting"@,
        ConnectionState::Closed => "Closed"@,
    }
}

/// The name of a connection state, as `Debug` writes it.
pub fn state_name_str(s: ConnectionState) -> (r: &'static str)
    ensures
        r@ == state_name(s),
{
    match s {
        ConnectionState::AwaitingConnect => "AwaitingConnect",
        ConnectionState::Authenticating => "Authenticating",
        ConnectionState::Connected => "Connected",
        ConnectionState::Disconnecting => "Disconnecting",
        ConnectionState::Closed => "Closed",
    }
}

/// The message of a connection state machine error.
pub open spec fn connection_error_message(e: ConnectionError) -> Seq<char> {
    match e {
        ConnectionError::UnexpectedPacket { state, packet } => "unexpected "@ + packet@ + " packet in state "@
            + state_name(state),
        ConnectionError::InvalidStateTransition { from, to } => "invalid state transition from "@ + state_name(
            from,
        ) + " to "@ + state_name(to),
    }
}

impl ConnectionError {
    /// The error's message.
    pub fn message(&self) -> (r: String)
        ensures
            r@ == connection_error_message(*self),
    {
        match self {
            ConnectionError::UnexpectedPacket { state, packet } => {
                let mut m = "unexpected ".to_string();
                m.append(packet);
                m.append(" packet in state ");
                m.append(state_name_str(*state));
                m
            },
            ConnectionError::InvalidStateTransition { from, to } => {
                let mut m = "invalid state transition from ".to_string();
                m.append(state_name_str(*from));
                m.append(" to ");
                m.append(state_name_str(*to));
                m
            },
        }
    }
}

/// The keep-alive timeout: one and a half times the keep-alive interval,
/// in nanoseconds.
pub open spec fn timeout_nanos(keep_alive_secs: u16) -> nat {
    (keep_alive_secs * 1_000_000_000 + (keep_alive_secs * 1_000_000_000) / 2) as nat
}

/// The keep-alive timeout is exactly one and a half keep-alive intervals
/// (MQTT 3.1.1 §3.1.2.10), so never shorter than the interval itself.
pub proof fn lemma_timeout_nanos(keep_alive_secs: u16)
    ensures
        2 * timeout_nanos(keep_alive_secs) == 3 * (keep_alive_secs as int) * 1_000_000_000,
        timeout_nanos(keep_alive_secs) >= (keep_alive_secs as int) * 1_000_000_000,
        keep_alive_secs == 0 <==> timeout_nanos(keep_alive_secs) == 0,
{
    let k = keep_alive_secs as int;
    assert((k * 1_000_000_000) / 2 == k * 500_000_000) by {
        assert(k * 1_000_000_000 == 2 * (k * 500_000_000));
    }
}

/// Whether a connection whose last packet came `elapsed_nanos` ago has
/// passed its keep-alive timeout (never with keep-alive 0).
pub fn keep_alive_expired(keep_alive_secs: u16, elapsed_nanos: u128) -> (r: bool)
    ensures
        r == (keep_alive_secs != 0 && elapsed_nanos > timeout_nanos(keep_alive_secs)),
{
    if keep_alive_secs == 0 {
        return false;
    }
    let interval = keep_alive_secs as u128 * 1_000_000_000;
    let timeout = interval + interval / 2;
    elapsed_nanos > timeout
}

/// The time left before the keep-alive timeout, in nanoseconds, `elapsed`
/// after the last packet: `None` with keep-alive 0, zero once passed.
pub open spec fn remaining_of(keep_alive_secs: u16, elapsed_nanos: u128) -> Option<u64> {
    if keep_alive_secs == 0 {
        None
    } else if elapsed_nanos >= timeout_nanos(keep_alive_secs) {
        Some(0u64)
    } else {
        Some((timeout_nanos(keep_alive_secs) - elapsed_nanos) as u64)
    }
}

/// The time left before the keep-alive timeout as a duration, `elapsed`
/// after the last packet.
pub open spec fn remaining_duration(keep_alive_secs: u16, elapsed_nanos: u128) -> Option<Duration> {
    match remaining_of(keep_alive_secs, elapsed_nanos) {
        Some(n) => Some(duration_of_nanos(n)),
        None => None,
    }
}

/// The time left before the keep-alive timeout, in nanoseconds: `None` with
/// keep-alive 0, zero once passed.
pub fn remaining_nanos(keep_alive_secs: u16, elapsed_nanos: u128) -> (r: Option<u64>)
    ensures
        r == remaining_of(keep_alive_secs, elapsed_nanos),
{
    if keep_alive_secs == 0 {
        return None;
    }
    let interval = keep_alive_secs as u128 * 1_000_000_000;
    let timeout = interval + interval / 2;
    if elapsed_nanos >= timeout {
        Some(0)
    } else {
        Some((timeout - elapsed_nanos) as u64)
    }
}

/// Connection state machine with keep-alive tracking.
#[derive(Debug)]
pub struct ConnectionStateMachine {
    state: ConnectionState,
    client_id: Option<String>,
    /// Keep-alive interval.
    keep_alive: Duration,
    /// Keep-alive interval in seconds.
    keep_alive_secs: u16,
    last_packet_time: Instant,
    connected_at: Option<Instant>,
    clean_session: bool,
}

impl ConnectionStateMachine {
    /// The current state.
    pub closed spec fn current(&self) -> ConnectionState {
        self.state
    }

    /// The client identifier, once CONNECT was received.
    pub closed spec fn client(&self) -> Option<Seq<char>> {
        match self.client_id {
            Some(c) => Some(c@),
            None => None,
        }
    }

    /// The keep-alive interval in seconds.
    pub closed spec fn keep_alive_interval(&self) -> u16 {
        self.keep_alive_secs
    }

    /// The keep-alive interval as a duration.
    pub closed spec fn keep_alive_duration(&self) -> Duration {
        self.keep_alive
    }

    /// The clean-session flag.
    pub closed spec fn clean(&self) -> bool {
        self.clean_session
    }

    /// Whether the connection was accepted (the time of that is kept).
    pub closed spec fn was_accepted(&self) -> bool {
        self.connected_at is Some
    }

    /// A new state machine: awaiting CONNECT, keep-alive 60 seconds, clean
    /// session.
    pub fn new() -> (r: Self)
        ensures
            r.current() == ConnectionState::AwaitingConnect,
            r.client() is None,
            r.keep_alive_interval() == 60,
            r.keep_alive_duration() == duration_of_secs(60),
            r.clean(),
            !r.was_accepted(),
    {
        ConnectionStateMachine {
            state: ConnectionState::AwaitingConnect,
            client_id: None,
            keep_alive: duration_from_secs(60),
            keep_alive_secs: 60,
            last_packet_time: instant_now(),
            connected_at: None,
            clean_session: true,
        }
    }

    /// The current state.
    pub fn state(&self) -> (r: ConnectionState)
        ensures
            r == self.current(),
    {
        self.state
    }

    /// The client identifier (set after CONNECT).
    pub fn client_id(&self) -> (r: Option<&str>)
        ensures
            match r {
                Some(s) => self.client() == Some(s@),
                None => self.client() is None,
            },
    {
        match &self.client_id {
            Some(c) => Some(c.as_str()),
            None => None,
        }
    }

    /// The keep-alive interval.
    pub fn keep_alive(&self) -> (r: Duration)
        ensures
            r == self.keep_alive_duration(),
    {
        self.keep_alive
    }

    /// Whether this is a clean session.
    pub fn is_clean_session(&self) -> (r: bool)
        ensures
            r == self.clean(),
    {
        self.clean_session
    }

    /// Record that a packet was received (resets the keep-alive timer).
    pub fn packet_received(&mut self)
        ensures
            final(self).current() == old(self).current(),
            final(self).client() == old(self).client(),
            final(self).keep_alive_interval() == old(self).keep_alive_interval(),
            final(self).keep_alive_duration() == old(self).keep_alive_duration(),
            final(self).clean() == old(self).clean(),
            final(self).was_accepted() == old(self).was_accepted(),
    {
        self.last_packet_time = instant_now();
    }

    /// Whether the keep-alive timeout (1.5 times the interval) has passed
    /// since the last packet; never with keep-alive 0. The elapsed time
    /// comes from the clock.
    pub fn is_keep_alive_expired(&self) -> (r: bool)
        ensures
            self.keep_alive_interval() == 0 ==> !r,
    {
        keep_alive_expired(self.keep_alive_secs, elapsed_nanos(&self.last_packet_time))
    }

    /// The time left before the keep-alive timeout; `None` with keep-alive 0.
    /// The elapsed time comes from the clock.
    pub fn time_until_timeout(&self) -> (r: Option<Duration>)
        ensures
            r is None <==> self.keep_alive_interval() == 0,
            exists|elapsed: u128| r == #[trigger] remaining_duration(self.keep_alive_interval(), elapsed),
            r matches Some(d) ==> duration_as_nanos(d) <= timeout_nanos(self.keep_alive_interval()),
    {
        let elapsed = elapsed_nanos(&self.last_packet_time);
        let r = match remaining_nanos(self.keep_alive_secs, elapsed) {
            Some(n) => Some(duration_from_nanos(n)),
            None => None,
        };
        assert(r == remaining_duration(self.keep_alive_secs, elapsed));
        r
    }

    /// Handle CONNECT: only in AwaitingConnect, which moves to
    /// Authenticating with the client's settings.
    pub fn on_connect(&mut self, client_id: String, clean_session: bool, keep_alive_secs: u16) -> (r: Result<(), ConnectionError>)
        ensures
            old(self).current() == ConnectionState::AwaitingConnect ==> {
                &&& r is Ok
                &&& final(self).current() == ConnectionState::Authenticating
                &&& final(self).client() == Some(client_id@)
                &&& final(self).clean() == clean_session
                &&& final(self).keep_alive_interval() == keep_alive_secs
                &&& final(self).keep_alive_duration() == duration_of_secs(keep_alive_secs as u64)
                &&& final(self).was_accepted() == old(self).was_accepted()
            },
            old(self).current() != ConnectionState::AwaitingConnect ==> {
                &&& r == Err::<(), ConnectionError>(
                    ConnectionError::UnexpectedPacket { state: old(self).current(), packet: "CONNECT" },
                )
                &&& *final(self) == *old(self)
            },
    {
        match self.state {
            ConnectionState::AwaitingConnect => {
                self.client_id = Some(client_id);
                self.clean_session = clean_session;
                self.keep_alive = duration_from_secs(keep_alive_secs as u64);
                self.keep_alive_secs = keep_alive_secs;
                self.state = ConnectionState::Authenticating;
                self.packet_received();
                Ok(())
            },
            _ => Err(ConnectionError::UnexpectedPacket { state: self.state, packet: "CONNECT" }),
        }
    }

    /// Authentication succeeded: Authenticating moves to Connected.
    pub fn on_authenticated(&mut self) -> (r: Result<(), ConnectionError>)
        ensures
            old(self).current() == ConnectionState::Authenticating ==> {
                &&& r is Ok
                &&& final(self).current() == ConnectionState::Connected
                &&& final(self).was_accepted()
                &&& final(self).client() == old(self).client()
                &&& final(self).clean() == old(self).clean()
                &&& final(self).keep_alive_interval() == old(self).keep_alive_interval()
                &&& final(self).keep_alive_duration() == old(self).keep_alive_duration()
            },
            old(self).current() != ConnectionState::Authenticating ==> {
                &&& r == Err::<(), ConnectionError>(
                    ConnectionError::InvalidStateTransition {
                        from: old(self).current(),
                        to: ConnectionState::Connected,
                    },
                )
                &&& *final(self) == *old(self)
            },
    {
        match self.state {
            ConnectionState::Authenticating => {
                self.state = ConnectionState::Connected;
                self.connected_at = Some(instant_now());
                Ok(())
            },
            _ => Err(
                ConnectionError::InvalidStateTransition {
                    from: self.state,
                    to: ConnectionState::Connected,
                },
            ),
        }
    }

    /// Authentication failed: Authenticating moves to Disconnecting.
    pub fn on_auth_failed(&mut self) -> (r: Result<(), ConnectionError>)
        ensures
            old(self).current() == ConnectionState::Authenticating ==> {
                &&& r is Ok
                &&& final(self).current() == ConnectionState::Disconnecting
                &&& final(self).client() == old(self).client()
                &&& final(self).clean() == old(self).clean()
                &&& final(self).keep_alive_interval() == old(self).keep_alive_interval()
                &&& final(self).keep_alive_duration() == old(self).keep_alive_duration()
                &&& final(self).was_accepted() == old(self).was_accepted()
            },
            old(self).current() != ConnectionState::Authenticating ==> {
                &&& r == Err::<(), ConnectionError>(
                    ConnectionError::InvalidStateTransition {
                        from: old(self).current(),
                        to: ConnectionState::Disconnecting,
                    },
                )
                &&& *final(self) == *old(self)
            },
    {
        match self.state {
            ConnectionState::Authenticating => {
                self.state = ConnectionState::Disconnecting;
                Ok(())
            },
            _ => Err(
                ConnectionError::InvalidStateTransition {
                    from: self.state,
                    to: ConnectionState::Disconnecting,
                },
            ),
        }
    }

    /// Client disconnect (or error): any state moves to Disconnecting.
    pub fn on_disconnect(&mut self) -> (r: Result<(), ConnectionError>)
        ensures
            r is Ok,
            final(self).current() == ConnectionState::Disconnecting,
            final(self).client() == old(self).client(),
            final(self).clean() == old(self).clean(),
            final(self).keep_alive_interval() == old(self).keep_alive_interval(),
            final(self).keep_alive_duration() == old(self).keep_alive_duration(),
            final(self).was_accepted() == old(self).was_accepted(),
    {
        self.state = ConnectionState::Disconnecting;
        Ok(())
    }

    /// The connection closed.
    pub fn on_closed(&mut self)
        ensures
            final(self).current() == ConnectionState::Closed,
            final(self).client() == old(self).client(),
            final(self).clean() == old(self).clean(),
            final(self).keep_alive_interval() == old(self).keep_alive_interval(),
            final(self).keep_alive_duration() == old(self).keep_alive_duration(),
            final(self).was_accepted() == old(self).was_accepted(),
    {
        self.state = ConnectionState::Closed;
    }

    /// Whether the state is Connected.
    pub fn is_connected(&self) -> (r: bool)
        ensures
            r == (self.current() == ConnectionState::Connected),
    {
        self.state == ConnectionState::Connected
    }

    /// Whether the state is Closed.
    pub fn is_closed(&self) -> (r: bool)
        ensures
            r == (self.current() == ConnectionState::Closed),
    {
        self.state == ConnectionState::Closed
    }

    /// The time since the connection was accepted; `None` before that.
    pub fn uptime(&self) -> (r: Option<Duration>)
        ensures
            r is Some <==> self.was_accepted(),
    {
        match &self.connected_at {
            Some(t) => Some(elapsed(t)),
            None => None,
        }
    }
}

impl Default for ConnectionStateMachine {
    fn default() -> (r: Self)
        ensures
            r.current() == ConnectionState::AwaitingConnect,
            r.client() is None,
            r.keep_alive_interval() == 60,
            r.clean(),
            !r.was_accepted(),
    {
        ConnectionStateMachine::new()
    }
}

} // verus!
