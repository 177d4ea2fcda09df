//! The decisions of a connection's task. The task reads a packet (or learns
//! that the connection cannot go on), asks `connection_step` what to do,
//! sends the packets it is given and goes on in the phase it is given.

use vstd::prelude::*;

use crate::codec::packet::{Packet, PacketView};
use crate::server::client::{Client, ClientState};
use crate::server::handler::{packet_handled, packets_view, response_plan, HandleResultView, PacketHandler};

verus! {

/// Where a connection's task stands.
#[derive(Debug, Clone, Copy, PartialEq, Eq, Structural)]
pub enum ConnectionPhase {
    /// The first packet, which is to be a CONNECT, has not come yet.
    AwaitingConnect,
    /// The client is connected and listed among the server's clients.
    Connected,
    /// The task ends.
    Finished,
}

/// What happened on a connection.
#[derive(Debug)]
pub enum ConnectionEvent {
    /// A packet was read.
    Packet(Packet),
    /// The connection cannot go on: the peer closed it, reading or sending
    /// failed, the wait for CONNECT ran out, or the server shuts down.
    Ended,
}

/// What the task does next.
#[derive(Debug)]
pub struct ConnectionAction {
    /// The packets to send, in order.
    pub send: Vec<Packet>,
    /// The phase afterwards.
    pub next: ConnectionPhase,
    /// Whether the client leaves the server's list of clients; its
    /// connection is then reported closed to the packet handler.
    pub release: bool,
}

/// The packets sent for a handling result.
pub open spec fn planned_packets(r: HandleResultView) -> Seq<PacketView> {
    match r {
        HandleResultView::Response(p) => seq![p],
        HandleResultView::Responses(v) => v,
        _ => Seq::empty(),
    }
}

/// Whether a handling result ends the connection (a DISCONNECT, or a
/// protocol error).
pub open spec fn plan_ends(r: HandleResultView) -> bool {
    r is Disconnect || r is Error
}

/// The phase after handling result `r` in phase `phase`, when the client
/// has become `c1` and `expired` tells whether its keep-alive ran out: the
/// first packet leads on only if it connected the client; later, a
/// DISCONNECT, a protocol error or an expired keep-alive end the task.
pub open spec fn phase_after(phase: ConnectionPhase, c1: Client, r: HandleResultView, expired: bool) -> ConnectionPhase {
    if phase == ConnectionPhase::AwaitingConnect {
        if c1.state == ClientState::Connected {
            ConnectionPhase::Connected
        } else {
            ConnectionPhase::Finished
        }
    } else if plan_ends(r) || expired {
        ConnectionPhase::Finished
    } else {
        ConnectionPhase::Connected
    }
}

/// One step of a connection's task, in a phase before `Finished`.
///
/// On a packet, the handler handles it; the task sends what the handler
/// answered. After the first packet the task goes on only if the client is
/// now connected. Once connected, a DISCONNECT or a protocol error ends the
/// task after the answer is sent, and so does a keep-alive that has run out
/// (a check of the clock, after the packet). When the connection ends, a
/// connected client is released.
pub fn connection_step(
    handler: &mut PacketHandler,
    client: &mut Client,
    phase: ConnectionPhase,
    event: ConnectionEvent,
) -> (r: ConnectionAction)
    requires
        old(handler).wf(),
        old(client).session.wf(),
        old(client).stats.messages_published < u64::MAX,
        phase != ConnectionPhase::Finished,
    ensures
        final(handler).wf(),
        final(client).session.wf(),
        r.release == (phase == ConnectionPhase::Connected && r.next == ConnectionPhase::Finished),
        match event {
            ConnectionEvent::Ended => {
                &&& r.send@.len() == 0
                &&& r.next == ConnectionPhase::Finished
                &&& *final(handler) == *old(handler)
                &&& *final(client) == *old(client)
            },
            ConnectionEvent::Packet(p) => exists|v: HandleResultView|
                {
                    &&& #[trigger] packet_handled(*old(handler), *final(handler), *old(client), *final(client), p, v)
                    &&& packets_view(r.send@) == planned_packets(v)
                    &&& (r.next == phase_after(phase, *final(client), v, false) || (r.next
                        == phase_after(phase, *final(client), v, true) && final(client).keep_alive != 0))
                },
        },
{
    match event {
        ConnectionEvent::Ended => {
            let release = match phase {
                ConnectionPhase::Connected => true,
                _ => false,
            };
            ConnectionAction { send: Vec::new(), next: ConnectionPhase::Finished, release }
        },
        ConnectionEvent::Packet(packet) => {
            let ghost p = packet;
            let result = handler.handle(client, packet);
            let ghost v = result@;
            let (send, ends) = response_plan(result);
            proof {
                assert(packets_view(send@) =~= planned_packets(v));
                assert(ends == plan_ends(v));
            }
            let connecting = match phase {
                ConnectionPhase::AwaitingConnect => true,
                _ => false,
            };
            if connecting {
                let next = if client.is_connected() {
                    ConnectionPhase::Connected
                } else {
                    ConnectionPhase::Finished
                };
                assert(packet_handled(*old(handler), *handler, *old(client), *client, p, v));
                ConnectionAction { send, next, release: false }
            } else if ends {
                ConnectionAction { send, next: ConnectionPhase::Finished, release: true }
            } else if client.is_keep_alive_expired() {
                ConnectionAction { send, next: ConnectionPhase::Finished, release: true }
            } else {
                ConnectionAction { send, next: ConnectionPhase::Connected, release: false }
            }
        },
    }
}

} // verus!
