//! MQTT topic handling: validation of topic names and filters, matching
//! with the `+` and `#` wildcards, and a trie of subscriptions.

pub mod validation;
pub mod filter;
pub mod trie;

pub use filter::{TopicFilter, TopicName};
pub use trie::TopicTrie;
pub use validation::{matches_filter, validate_topic_filter, validate_topic_name, TopicError};
