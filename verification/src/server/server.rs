//! Server-level values: its errors and statistics. Listening, accepting and
//! the per-connection loop are the application's part.

use vstd::prelude::*;

use crate::router::registry::total_entries;
use crate::router::router::MessageRouter;
use crate::topic_matcher::trie::capped_usize;
use crate::transport::connection::ConnectionError;

verus! {

/// Server errors.
#[derive(Debug)]
pub enum ServerError {
    /// An I/O error.
    Io(std::io::Error),
    /// A connection error.
    Connection(ConnectionError),
    /// The server is shutting down.
    ShuttingDown,
    /// The maximum number of connections is reached.
    MaxConnectionsReached,
    /// No CONNECT arrived in time.
    ConnectTimeout,
    /// A protocol error.
    Protocol(String),
}

/// Server statistics.
#[derive(Debug, Clone)]
pub struct ServerStats {
    /// Number of connected clients.
    pub connected_clients: usize,
    /// Total number of subscriptions.
    pub total_subscriptions: usize,
    /// Number of retained messages.
    pub retained_messages: usize,
}

impl ServerStats {
    /// The statistics of a server with `connected_clients` clients and
    /// router `router`.
    pub fn collect(connected_clients: usize, router: &MessageRouter) -> (r: Self)
        ensures
            r.connected_clients == connected_clients,
            r.total_subscriptions == capped_usize(total_entries(router.registry().stored_sets())),
            r.retained_messages == router.retained().messages().len(),
    {
        let router_stats = router.stats();
        ServerStats {
            connected_clients,
            total_subscriptions: router_stats.subscription_count,
            retained_messages: router_stats.retained_message_count,
        }
    }
}

} // verus!
