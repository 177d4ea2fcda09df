//! Tests of the in-memory store of sessions and pending messages.

use mqtt_broker::codec::QoS;
use mqtt_broker::persistence::{
    MemoryStore, MessageStore, PendingMessage, PersistedSession, PersistenceError, Qos2State,
    SessionStore,
};

#[test]
fn test_save_and_load_session() {
    let mut store = MemoryStore::new();

    let session = PersistedSession::new("client1");
    store.save_session(session.clone()).unwrap();

    let loaded = store.load_session("client1").unwrap();
    assert!(loaded.is_some());
    assert_eq!(loaded.unwrap().client_id, "client1");
}

#[test]
fn test_load_nonexistent_session() {
    let mut store = MemoryStore::new();
    let loaded = store.load_session("nonexistent").unwrap();
    assert!(loaded.is_none());
}

#[test]
fn test_delete_session() {
    let mut store = MemoryStore::new();

    let session = PersistedSession::new("client1");
    store.save_session(session).unwrap();

    assert!(store.session_exists("client1").unwrap());

    let deleted = store.delete_session("client1").unwrap();
    assert!(deleted);

    assert!(!store.session_exists("client1").unwrap());

    // Delete again should return false
    let deleted = store.delete_session("client1").unwrap();
    assert!(!deleted);
}

#[test]
fn test_update_session() {
    let mut store = MemoryStore::new();

    let mut session = PersistedSession::new("client1");
    store.save_session(session.clone()).unwrap();

    // Update with subscriptions
    session.subscriptions.push(("test/topic".to_string(), QoS::AtLeastOnce));
    store.save_session(session).unwrap();

    let loaded = store.load_session("client1").unwrap().unwrap();
    assert_eq!(loaded.subscriptions.len(), 1);
}

#[test]
fn test_list_sessions() {
    let mut store = MemoryStore::new();

    store.save_session(PersistedSession::new("client1")).unwrap();
    store.save_session(PersistedSession::new("client2")).unwrap();
    store.save_session(PersistedSession::new("client3")).unwrap();

    let sessions = store.list_sessions().unwrap();
    assert_eq!(sessions.len(), 3);
}

#[test]
fn test_session_capacity() {
    let mut store = MemoryStore::with_limits(2, 100);

    store.save_session(PersistedSession::new("client1")).unwrap();
    store.save_session(PersistedSession::new("client2")).unwrap();

    // Third should fail
    let result = store.save_session(PersistedSession::new("client3"));
    assert!(matches!(result, Err(PersistenceError::StorageFull)));

    // But updating existing should work
    store.save_session(PersistedSession::new("client1")).unwrap();
}

#[test]
fn test_session_expiry() {
    let mut store = MemoryStore::new();

    let mut session = PersistedSession::new("client1");
    session.expiry_interval = 0; // Never expires
    assert!(!session.is_expired());

    // With expiry set, check logic
    let mut session2 = PersistedSession::new("client2");
    session2.expiry_interval = 3600; // 1 hour
    assert!(!session2.is_expired()); // Just created
}

#[test]
fn test_store_and_get_pending() {
    let mut store = MemoryStore::new();

    let msg = PendingMessage::new(
        1,
        "test/topic",
        b"hello".to_vec(),
        QoS::AtLeastOnce,
        false,
    );
    store.store_pending("client1", msg).unwrap();

    let loaded = store.get_pending("client1", 1).unwrap();
    assert!(loaded.is_some());
    let loaded = loaded.unwrap();
    assert_eq!(loaded.packet_id, 1);
    assert_eq!(loaded.topic, "test/topic");
    assert_eq!(loaded.payload, b"hello");
}

#[test]
fn test_get_nonexistent_pending() {
    let mut store = MemoryStore::new();

    let loaded = store.get_pending("client1", 1).unwrap();
    assert!(loaded.is_none());
}

#[test]
fn test_remove_pending() {
    let mut store = MemoryStore::new();

    let msg = PendingMessage::new(1, "topic", vec![], QoS::AtLeastOnce, false);
    store.store_pending("client1", msg).unwrap();

    let removed = store.remove_pending("client1", 1).unwrap();
    assert!(removed);

    let loaded = store.get_pending("client1", 1).unwrap();
    assert!(loaded.is_none());

    // Remove again should return false
    let removed = store.remove_pending("client1", 1).unwrap();
    assert!(!removed);
}

#[test]
fn test_update_pending() {
    let mut store = MemoryStore::new();

    let mut msg = PendingMessage::new(1, "topic", vec![], QoS::AtLeastOnce, false);
    store.store_pending("client1", msg.clone()).unwrap();

    // Update delivery attempts
    msg.delivery_attempts = 5;
    store.update_pending("client1", msg).unwrap();

    let loaded = store.get_pending("client1", 1).unwrap().unwrap();
    assert_eq!(loaded.delivery_attempts, 5);
}

#[test]
fn test_update_nonexistent_pending() {
    let mut store = MemoryStore::new();

    let msg = PendingMessage::new(1, "topic", vec![], QoS::AtLeastOnce, false);

    // Should fail - no session
    let result = store.update_pending("client1", msg.clone());
    assert!(matches!(result, Err(PersistenceError::SessionNotFound { .. })));

    // Add a different message, then try to update nonexistent
    let msg2 = PendingMessage::new(2, "topic", vec![], QoS::AtLeastOnce, false);
    store.store_pending("client1", msg2).unwrap();

    let result = store.update_pending("client1", msg);
    assert!(matches!(result, Err(PersistenceError::MessageNotFound { .. })));
}

#[test]
fn test_get_all_pending() {
    let mut store = MemoryStore::new();

    for i in 1..=5 {
        let msg = PendingMessage::new(i, &format!("topic/{}", i), vec![], QoS::AtLeastOnce, false);
        store.store_pending("client1", msg).unwrap();
    }

    let all = store.get_all_pending("client1").unwrap();
    assert_eq!(all.len(), 5);
}

#[test]
fn test_clear_pending() {
    let mut store = MemoryStore::new();

    for i in 1..=5 {
        let msg = PendingMessage::new(i, "topic", vec![], QoS::AtLeastOnce, false);
        store.store_pending("client1", msg).unwrap();
    }

    let cleared = store.clear_pending("client1").unwrap();
    assert_eq!(cleared, 5);

    let count = store.pending_count("client1").unwrap();
    assert_eq!(count, 0);
}

#[test]
fn test_pending_capacity() {
    let mut store = MemoryStore::with_limits(100, 3);

    for i in 1..=3 {
        let msg = PendingMessage::new(i, "topic", vec![], QoS::AtLeastOnce, false);
        store.store_pending("client1", msg).unwrap();
    }

    // Fourth should fail
    let msg = PendingMessage::new(4, "topic", vec![], QoS::AtLeastOnce, false);
    let result = store.store_pending("client1", msg);
    assert!(matches!(result, Err(PersistenceError::StorageFull)));
}

#[test]
fn test_pending_count() {
    let mut store = MemoryStore::new();

    assert_eq!(store.pending_count("client1").unwrap(), 0);

    for i in 1..=3 {
        let msg = PendingMessage::new(i, "topic", vec![], QoS::AtLeastOnce, false);
        store.store_pending("client1", msg).unwrap();
    }

    assert_eq!(store.pending_count("client1").unwrap(), 3);
}

#[test]
fn test_qos2_state() {
    // QoS 2 messages should start with WaitingPubrec state
    let msg = PendingMessage::new(1, "topic", vec![], QoS::ExactlyOnce, false);
    assert_eq!(msg.qos2_state, Some(Qos2State::WaitingPubrec));

    // QoS 1 messages should have no QoS 2 state
    let msg = PendingMessage::new(2, "topic", vec![], QoS::AtLeastOnce, false);
    assert_eq!(msg.qos2_state, None);
}

#[test]
fn test_delete_session_clears_pending() {
    let mut store = MemoryStore::new();

    store.save_session(PersistedSession::new("client1")).unwrap();
    
    for i in 1..=3 {
        let msg = PendingMessage::new(i, "topic", vec![], QoS::AtLeastOnce, false);
        store.store_pending("client1", msg).unwrap();
    }

    // Delete session should also clear pending
    store.delete_session("client1").unwrap();

    assert_eq!(store.pending_count("client1").unwrap(), 0);
}

#[test]
fn test_default() {
    let mut store = MemoryStore::default();
    assert_eq!(store.session_count(), 0);
    assert_eq!(store.total_pending_count(), 0);
}

#[test]
fn test_clear() {
    let mut store = MemoryStore::new();

    store.save_session(PersistedSession::new("client1")).unwrap();
    let msg = PendingMessage::new(1, "topic", vec![], QoS::AtLeastOnce, false);
    store.store_pending("client1", msg).unwrap();

    assert_eq!(store.session_count(), 1);
    assert_eq!(store.total_pending_count(), 1);

    store.clear();

    assert_eq!(store.session_count(), 0);
    assert_eq!(store.total_pending_count(), 0);
}

#[test]
fn persistence_error_messages() {
    assert_eq!(
        PersistenceError::SessionNotFound { client_id: "c1".to_string() }.message(),
        "Session not found: c1"
    );
    assert_eq!(PersistenceError::MessageNotFound { packet_id: 42 }.message(), "Message not found: packet_id=42");
    assert_eq!(
        PersistenceError::StorageError { message: "disk".to_string() }.message(),
        "Storage error: disk"
    );
    assert_eq!(
        PersistenceError::SerializationError { message: "bad".to_string() }.message(),
        "Serialization error: bad"
    );
    assert_eq!(PersistenceError::StorageFull.message(), "Storage full");
}
