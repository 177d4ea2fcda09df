//! Message routing: the subscription registry, the retained messages and
//! the router that combines them.

pub mod registry;
pub mod retain;
pub mod router;


pub use registry::{Subscription, SubscriptionRegistry};
pub use retain::{RetainError, RetainStore, RetainedMessage};
pub use router::{MessageRouter, RouteResult, RoutedMessage, RouterError, RouterStats};
