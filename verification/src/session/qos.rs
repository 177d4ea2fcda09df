//! QoS delivery state machines: QoS 1 (PUBLISH, PUBACK) and the QoS 2
//! four-way handshake (PUBLISH, PUBREC, PUBREL, PUBCOMP).

use vstd::prelude::*;

use std::time::{Duration, Instant};

use bytes::Bytes;

use crate::buf::bytes_seq;
use crate::clock::{duration_as_nanos, duration_from_secs, duration_nanos, duration_of_secs, elapsed_nanos, instant_now};
use crate::codec::types::QoS;
use crate::strings::{decimal, push_decimal};

verus! {

/// Configuration for QoS retransmission.
#[derive(Debug, Clone)]
pub struct QoSConfig {
    /// Initial retry timeout.
    pub retry_interval: Duration,
    /// Maximum number of attempts before giving up.
    pub max_retries: u32,
    /// Whether to use exponential backoff.
    pub exponential_backoff: bool,
}

impl Default for QoSConfig {
    fn default() -> (r: Self)
        ensures
            r.retry_interval == duration_of_secs(5),
            duration_as_nanos(r.retry_interval) == 5_000_000_000,
            r.max_retries == 5,
            r.exponential_backoff,
    {
        QoSConfig { retry_interval: duration_from_secs(5), max_retries: 5, exponential_backoff: true }
    }
}

/// `2` to the power `n`.
pub open spec fn pow2(n: nat) -> nat
    decreases n,
{
    if n == 0 {
        1
    } else {
        2 * pow2((n - 1) as nat)
    }
}

/// The retry timeout after `attempts` attempts: the interval, doubled for
/// each attempt after the first (at most 16 times) with exponential backoff.
pub open spec fn retry_timeout(attempts: u32, exponential_backoff: bool, interval_nanos: u128) -> nat {
    if exponential_backoff {
        let e: nat = if attempts == 0 {
            0
        } else if attempts - 1 > 4 {
            4
        } else {
            (attempts - 1) as nat
        };
        (interval_nanos * pow2(e)) as nat
    } else {
        interval_nanos as nat
    }
}

/// Backoff: the first retry waits one interval; with exponential backoff
/// each further attempt doubles the wait, up to sixteen intervals from the
/// fifth attempt on; without it every wait is one interval.
pub proof fn lemma_retry_backoff(attempts: u32, interval_nanos: u128)
    ensures
        retry_timeout(attempts, false, interval_nanos) == interval_nanos,
        attempts <= 1 ==> retry_timeout(attempts, true, interval_nanos) == interval_nanos,
        1 <= attempts < 5 ==> retry_timeout((attempts + 1) as u32, true, interval_nanos) == 2 * retry_timeout(
            attempts,
            true,
            interval_nanos,
        ),
        attempts >= 5 ==> retry_timeout(attempts, true, interval_nanos) == 16 * interval_nanos,
        retry_timeout(attempts, true, interval_nanos) <= 16 * interval_nanos,
        retry_timeout(attempts, true, interval_nanos) >= interval_nanos,
{
    assert(pow2(0) == 1 && pow2(1) == 2 && pow2(2) == 4 && pow2(3) == 8 && pow2(4) == 16) by {
        reveal_with_fuel(pow2, 5);
    }
    let i = interval_nanos;
    assert(retry_timeout(0, true, i) == i);
    assert(retry_timeout(1, true, i) == i);
    assert(i * pow2(1) == 2 * i) by (nonlinear_arith)
        requires
            pow2(1) == 2,
    ;
    assert(i * pow2(2) == 4 * i) by (nonlinear_arith)
        requires
            pow2(2) == 4,
    ;
    assert(i * pow2(3) == 8 * i) by (nonlinear_arith)
        requires
            pow2(3) == 8,
    ;
    assert(i * pow2(4) == 16 * i) by (nonlinear_arith)
        requires
            pow2(4) == 16,
    ;
    assert(retry_timeout(2, true, i) == 2 * i);
    assert(retry_timeout(3, true, i) == 4 * i);
    assert(retry_timeout(4, true, i) == 8 * i);
    assert(retry_timeout(5, true, i) == 16 * i);
    if attempts >= 5 {
        assert(retry_timeout(attempts, true, i) == 16 * i);
    }
}

/// Whether a message sent `attempts` times, last `elapsed_nanos` ago, is due
/// for a retry: attempts remain, and its retry timeout has passed.
pub open spec fn retry_decision(
    attempts: u32,
    max_retries: u32,
    exponential_backoff: bool,
    interval_nanos: u128,
    elapsed_nanos: u128,
) -> bool {
    attempts < max_retries && elapsed_nanos >= retry_timeout(attempts, exponential_backoff, interval_nanos)
}

/// Whether a message sent `attempts` times, last `elapsed_nanos` ago, is due
/// for a retry: attempts remain, and its retry timeout has passed.
pub fn retry_due(
    attempts: u32,
    max_retries: u32,
    exponential_backoff: bool,
    interval_nanos: u128,
    elapsed_nanos: u128,
) -> (r: bool)
    ensures
        r == retry_decision(attempts, max_retries, exponential_backoff, interval_nanos, elapsed_nanos),
{
    if attempts >= max_retries {
        return false;
    }
    proof {
        assert(pow2(0) == 1 && pow2(1) == 2 && pow2(2) == 4 && pow2(3) == 8 && pow2(4) == 16) by {
            reveal_with_fuel(pow2, 5);
        }
    }
    if exponential_backoff {
        let e = if attempts == 0 {
            0
        } else if attempts - 1 > 4 {
            4
        } else {
            attempts - 1
        };
        // The timeout may not fit in a u128: then it has not passed
        let factor: u128 = if e == 0 {
            1
        } else if e == 1 {
            2
        } else if e == 2 {
            4
        } else if e == 3 {
            8
        } else {
            16
        };
        match interval_nanos.checked_mul(factor) {
            Some(timeout) => elapsed_nanos >= timeout,
            None => false,
        }
    } else {
        elapsed_nanos >= interval_nanos
    }
}

/// A PUBLISH message awaiting acknowledgment.
#[derive(Debug, Clone)]
pub struct PendingPublish {
    /// Packet identifier.
    pub packet_id: u16,
    /// Topic name.
    pub topic: String,
    /// Message payload.
    pub payload: Bytes,
    /// QoS level.
    pub qos: QoS,
    /// Retain flag.
    pub retain: bool,
    /// When the message was first sent.
    pub first_sent: Instant,
    /// When the message was last sent or retried.
    pub last_sent: Instant,
    /// Number of transmission attempts.
    pub attempts: u32,
}

impl PendingPublish {
    /// A pending publish, sent once, now.
    pub fn new(packet_id: u16, topic: String, payload: Bytes, qos: QoS, retain: bool) -> (r: Self)
        ensures
            r.packet_id == packet_id,
            r.topic@ == topic@,
            bytes_seq(r.payload) == bytes_seq(payload),
            r.qos == qos,
            r.retain == retain,
            r.attempts == 1,
    {
        let now = instant_now();
        PendingPublish {
            packet_id,
            topic,
            payload,
            qos,
            retain,
            first_sent: now,
            last_sent: now,
            attempts: 1,
        }
    }

    /// Whether this message should be retried now: attempts remain and its
    /// retry timeout has passed (the elapsed time comes from the clock).
    pub fn should_retry(&self, config: &QoSConfig) -> (r: bool)
        ensures
            self.attempts >= config.max_retries ==> !r,
            exists|elapsed: u128|
                r == #[trigger] retry_decision(
                    self.attempts,
                    config.max_retries,
                    config.exponential_backoff,
                    duration_as_nanos(config.retry_interval),
                    elapsed,
                ),
    {
        let interval = duration_nanos(&config.retry_interval);
        let elapsed = elapsed_nanos(&self.last_sent);
        retry_due(self.attempts, config.max_retries, config.exponential_backoff, interval, elapsed)
    }

    /// Mark as retried: one more attempt, sent now.
    pub fn mark_retried(&mut self)
        requires
            old(self).attempts < u32::MAX,
        ensures
            final(self).attempts == old(self).attempts + 1,
            final(self).packet_id == old(self).packet_id,
            final(self).topic == old(self).topic,
            final(self).payload == old(self).payload,
            final(self).qos == old(self).qos,
            final(self).retain == old(self).retain,
            final(self).first_sent == old(self).first_sent,
    {
        self.last_sent = instant_now();
        self.attempts = self.attempts + 1;
    }

    /// Whether the maximum number of attempts was reached.
    pub fn is_expired(&self, config: &QoSConfig) -> (r: bool)
        ensures
            r == (self.attempts >= config.max_retries),
    {
        self.attempts >= config.max_retries
    }
}

/// Errors that can occur during QoS processing.
#[derive(Debug, Clone, PartialEq, Eq, Structural)]
pub enum QoSError {
    /// A packet with an unexpected packet identifier.
    PacketIdMismatch { expected: u16, received: u16 },
    /// An acknowledgment that was not expected.
    UnexpectedAck,
    /// The packet identifier is in use already.
    DuplicatePacketId(u16),
    /// The maximum number of retries was exceeded.
    MaxRetriesExceeded { packet_id: u16, attempts: u32 },
}

/// The message of a QoS error.
pub open spec fn qos_error_message(e: QoSError) -> Seq<char> {
    match e {
        QoSError::PacketIdMismatch { expected, received } => "packet ID mismatch: expected "@ + decimal(
            expected as nat,
        ) + ", received "@ + decimal(received as nat),
        QoSError::UnexpectedAck => "unexpected acknowledgment"@,
        QoSError::DuplicatePacketId(id) => "duplicate packet ID: "@ + decimal(id as nat),
        QoSError::MaxRetriesExceeded { packet_id, attempts } => "max retries exceeded for packet "@ + decimal(
            packet_id as nat,
        ) + ": "@ + decimal(attempts as nat) + " attempts"@,
    }
}

impl QoSError {
    /// The error's message.
    pub fn message(&self) -> (r: String)
        ensures
            r@ == qos_error_message(*self),
    {
        match self {
            QoSError::PacketIdMismatch { expected, received } => {
                let mut m = "packet ID mismatch: expected ".to_string();
                push_decimal(&mut m, *expected as u64);
                m.append(", received ");
                push_decimal(&mut m, *received as u64);
                m
            },
            QoSError::UnexpectedAck => "unexpected acknowledgment".to_string(),
            QoSError::DuplicatePacketId(id) => {
                let mut m = "duplicate packet ID: ".to_string();
                push_decimal(&mut m, *id as u64);
                m
            },
            QoSError::MaxRetriesExceeded { packet_id, attempts } => {
                let mut m = "max retries exceeded for packet ".to_string();
                push_decimal(&mut m, *packet_id as u64);
                m.append(": ");
                push_decimal(&mut m, *attempts as u64);
                m.append(" attempts");
                m
            },
        }
    }
}

/// QoS 1 outbound delivery state (the sender waits for PUBACK).
#[derive(Debug, Clone)]
pub enum QoS1State {
    /// PUBLISH sent, waiting for PUBACK.
    AwaitingPubAck(PendingPublish),
    /// PUBACK received, delivery complete.
    Complete,
}

impl QoS1State {
    /// A QoS 1 delivery that waits for its PUBACK.
    pub fn new(pending: PendingPublish) -> (r: Self)
        ensures
            r == QoS1State::AwaitingPubAck(pending),
    {
        QoS1State::AwaitingPubAck(pending)
    }

    /// Handle a PUBACK: the awaited identifier completes the delivery.
    pub fn on_puback(self, packet_id: u16) -> (r: Result<Self, QoSError>)
        ensures
            r == match self {
                QoS1State::AwaitingPubAck(p) => if p.packet_id == packet_id {
                    Ok(QoS1State::Complete)
                } else {
                    Err(QoSError::PacketIdMismatch { expected: p.packet_id, received: packet_id })
                },
                QoS1State::Complete => Err(QoSError::UnexpectedAck),
            },
    {
        match self {
            QoS1State::AwaitingPubAck(pending) => {
                if pending.packet_id == packet_id {
                    Ok(QoS1State::Complete)
                } else {
                    Err(QoSError::PacketIdMismatch { expected: pending.packet_id, received: packet_id })
                }
            },
            QoS1State::Complete => Err(QoSError::UnexpectedAck),
        }
    }

    /// Whether delivery is complete.
    pub fn is_complete(&self) -> (r: bool)
        ensures
            r == (*self is Complete),
    {
        match self {
            QoS1State::Complete => true,
            _ => false,
        }
    }

    /// The pending publish, mutably, while still awaiting PUBACK.
    pub fn pending_mut(&mut self) -> (r: Option<&mut PendingPublish>)
        ensures
            match *old(self) {
                QoS1State::AwaitingPubAck(p) => r is Some && *r->0 == p && *final(self)
                    == QoS1State::AwaitingPubAck(*final(r->0)),
                QoS1State::Complete => r is None && *final(self) == *old(self),
            },
    {
        match self {
            QoS1State::AwaitingPubAck(p) => Some(p),
            QoS1State::Complete => None,
        }
    }

    /// The pending publish, while still awaiting PUBACK.
    pub fn pending(&self) -> (r: Option<&PendingPublish>)
        ensures
            match *self {
                QoS1State::AwaitingPubAck(p) => r == Some(&p),
                QoS1State::Complete => r is None,
            },
    {
        match self {
            QoS1State::AwaitingPubAck(p) => Some(p),
            QoS1State::Complete => None,
        }
    }
}

/// QoS 2 outbound delivery state (sender): PUBLISH, PUBREC, PUBREL, PUBCOMP.
#[derive(Debug, Clone)]
pub enum QoS2OutboundState {
    /// PUBLISH sent, waiting for PUBREC.
    AwaitingPubRec(PendingPublish),
    /// PUBREC received, PUBREL sent, waiting for PUBCOMP.
    AwaitingPubComp { packet_id: u16, pubrel_sent: Instant, attempts: u32 },
    /// PUBCOMP received, delivery complete.
    Complete,
}

impl QoS2OutboundState {
    /// A QoS 2 delivery that waits for its PUBREC.
    pub fn new(pending: PendingPublish) -> (r: Self)
        ensures
            r == QoS2OutboundState::AwaitingPubRec(pending),
    {
        QoS2OutboundState::AwaitingPubRec(pending)
    }

    /// Handle a PUBREC: the awaited identifier moves on to awaiting PUBCOMP
    /// (PUBREL sent once, now); a duplicate PUBREC while awaiting PUBCOMP
    /// changes nothing.
    pub fn on_pubrec(self, packet_id: u16) -> (r: Result<Self, QoSError>)
        ensures
            match self {
                QoS2OutboundState::AwaitingPubRec(p) => if p.packet_id == packet_id {
                    r matches Ok(QoS2OutboundState::AwaitingPubComp { packet_id: id, attempts, .. })
                        && id == packet_id && attempts == 1
                } else {
                    r == Err::<Self, QoSError>(
                        QoSError::PacketIdMismatch { expected: p.packet_id, received: packet_id },
                    )
                },
                QoS2OutboundState::AwaitingPubComp { .. } => r == Ok::<Self, QoSError>(self),
                QoS2OutboundState::Complete => r == Err::<Self, QoSError>(QoSError::UnexpectedAck),
            },
    {
        match self {
            QoS2OutboundState::AwaitingPubRec(pending) => {
                if pending.packet_id == packet_id {
                    Ok(QoS2OutboundState::AwaitingPubComp { packet_id, pubrel_sent: instant_now(), attempts: 1 })
                } else {
                    Err(QoSError::PacketIdMismatch { expected: pending.packet_id, received: packet_id })
                }
            },
            QoS2OutboundState::AwaitingPubComp { .. } => Ok(self),
            QoS2OutboundState::Complete => Err(QoSError::UnexpectedAck),
        }
    }

    /// Handle a PUBCOMP: the awaited identifier completes the delivery.
    pub fn on_pubcomp(self, packet_id: u16) -> (r: Result<Self, QoSError>)
        ensures
            r == match self {
                QoS2OutboundState::AwaitingPubComp { packet_id: expected, .. } => if expected == packet_id {
                    Ok(QoS2OutboundState::Complete)
                } else {
                    Err(QoSError::PacketIdMismatch { expected, received: packet_id })
                },
                _ => Err(QoSError::UnexpectedAck),
            },
    {
        match self {
            QoS2OutboundState::AwaitingPubComp { packet_id: expected, .. } => {
                if expected == packet_id {
                    Ok(QoS2OutboundState::Complete)
                } else {
                    Err(QoSError::PacketIdMismatch { expected, received: packet_id })
                }
            },
            QoS2OutboundState::AwaitingPubRec(_) => Err(QoSError::UnexpectedAck),
            QoS2OutboundState::Complete => Err(QoSError::UnexpectedAck),
        }
    }

    /// Whether delivery is complete.
    pub fn is_complete(&self) -> (r: bool)
        ensures
            r == (*self is Complete),
    {
        match self {
            QoS2OutboundState::Complete => true,
            _ => false,
        }
    }

    /// The packet identifier, while the flow is open.
    pub fn packet_id(&self) -> (r: Option<u16>)
        ensures
            r == match *self {
                QoS2OutboundState::AwaitingPubRec(p) => Some(p.packet_id),
                QoS2OutboundState::AwaitingPubComp { packet_id, .. } => Some(packet_id),
                QoS2OutboundState::Complete => None,
            },
    {
        match self {
            QoS2OutboundState::AwaitingPubRec(p) => Some(p.packet_id),
            QoS2OutboundState::AwaitingPubComp { packet_id, .. } => Some(*packet_id),
            QoS2OutboundState::Complete => None,
        }
    }

    /// Whether the PUBREL should be retried now (only while awaiting
    /// PUBCOMP; the elapsed time comes from the clock).
    pub fn should_retry_pubrel(&self, config: &QoSConfig) -> (r: bool)
        ensures
            !(*self is AwaitingPubComp) ==> !r,
            (*self matches QoS2OutboundState::AwaitingPubComp { attempts, .. } && attempts
                >= config.max_retries) ==> !r,
            (*self matches QoS2OutboundState::AwaitingPubComp { attempts, .. }) ==> exists|elapsed: u128|
                r == #[trigger] retry_decision(
                    self->attempts,
                    config.max_retries,
                    config.exponential_backoff,
                    duration_as_nanos(config.retry_interval),
                    elapsed,
                ),
    {
        match self {
            QoS2OutboundState::AwaitingPubComp { pubrel_sent, attempts, .. } => {
                let interval = duration_nanos(&config.retry_interval);
                let elapsed = elapsed_nanos(pubrel_sent);
                retry_due(*attempts, config.max_retries, config.exponential_backoff, interval, elapsed)
            },
            _ => false,
        }
    }

    /// Mark the PUBREL as retried: one more attempt, sent now (the count
    /// stays at its maximum once there).
    pub fn mark_pubrel_retried(&mut self)
        ensures
            (*old(self) is AwaitingPubComp) ==> {
                &&& *final(self) is AwaitingPubComp
                &&& (*final(self))->packet_id == (*old(self))->packet_id
                &&& (*final(self))->attempts == if (*old(self))->attempts < u32::MAX {
                    ((*old(self))->attempts + 1) as u32
                } else {
                    (*old(self))->attempts
                }
            },
            !(*old(self) is AwaitingPubComp) ==> *final(self) == *old(self),
    {
        match self {
            QoS2OutboundState::AwaitingPubComp { packet_id, attempts, .. } => {
                let a = if *attempts < u32::MAX { *attempts + 1 } else { *attempts };
                *self = QoS2OutboundState::AwaitingPubComp { packet_id: *packet_id, pubrel_sent: instant_now(), attempts: a };
            },
            _ => {},
        }
    }
}

/// QoS 2 inbound delivery state (receiver): PUBLISH received and PUBREC sent,
/// then PUBREL received and PUBCOMP sent.
#[derive(Debug, Clone)]
pub enum QoS2InboundState {
    /// PUBREC sent, waiting for PUBREL (the message was delivered).
    AwaitingPubRel { packet_id: u16, pubrec_sent: Instant },
    /// PUBREL received, PUBCOMP sent, flow complete.
    Complete,
}

impl QoS2InboundState {
    /// The inbound flow after a PUBLISH: waiting for PUBREL.
    pub fn new(packet_id: u16) -> (r: Self)
        ensures
            r matches QoS2InboundState::AwaitingPubRel { packet_id: id, .. } && id == packet_id,
    {
        QoS2InboundState::AwaitingPubRel { packet_id, pubrec_sent: instant_now() }
    }

    /// Handle a PUBREL: the awaited identifier completes the flow; a
    /// duplicate PUBREL after completion changes nothing.
    pub fn on_pubrel(self, packet_id: u16) -> (r: Result<Self, QoSError>)
        ensures
            r == match self {
                QoS2InboundState::AwaitingPubRel { packet_id: expected, .. } => if expected == packet_id {
                    Ok(QoS2InboundState::Complete)
                } else {
                    Err(QoSError::PacketIdMismatch { expected, received: packet_id })
                },
                QoS2InboundState::Complete => Ok(QoS2InboundState::Complete),
            },
    {
        match self {
            QoS2InboundState::AwaitingPubRel { packet_id: expected, .. } => {
                if expected == packet_id {
                    Ok(QoS2InboundState::Complete)
                } else {
                    Err(QoSError::PacketIdMismatch { expected, received: packet_id })
                }
            },
            QoS2InboundState::Complete => Ok(self),
        }
    }

    /// Whether the flow is complete.
    pub fn is_complete(&self) -> (r: bool)
        ensures
            r == (*self is Complete),
    {
        match self {
            QoS2InboundState::Complete => true,
            _ => false,
        }
    }

    /// The packet identifier, while the flow is open.
    pub fn packet_id(&self) -> (r: Option<u16>)
        ensures
            r == match *self {
                QoS2InboundState::AwaitingPubRel { packet_id, .. } => Some(packet_id),
                QoS2InboundState::Complete => None,
            },
    {
        match self {
            QoS2InboundState::AwaitingPubRel { packet_id, .. } => Some(*packet_id),
            QoS2InboundState::Complete => None,
        }
    }
}

} // verus!
