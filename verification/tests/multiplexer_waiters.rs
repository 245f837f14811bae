//! Waiter bookkeeping: id storage, ordering, orphans and cleanup.

use std::collections::{HashMap, HashSet};
use carapace::multiplexer::{Multiplexer, RecvOutcome};
use carapace::messages::{Message, ErrorMessage, SseEvent};
use carapace::connection_tracker::ConnectionTracker;

#[test]
fn test_request_id_storage() {
    let mut stored_ids = HashMap::new();

    for i in 0..100 {
        let id = format!("req-{}", i);
        stored_ids.insert(id.clone(), i);
    }

    assert_eq!(stored_ids.len(), 100);
    assert_eq!(stored_ids.get("req-50"), Some(&50));
}

#[test]
fn test_concurrent_request_handling() {
    let mut requests = Vec::new();

    for i in 0..50 {
        requests.push(format!("request-{}", i));
    }

    assert_eq!(requests.len(), 50);

    let unique = requests.iter().collect::<HashSet<_>>();
    assert_eq!(unique.len(), 50);
}

#[test]
fn test_response_ordering() {
    let request_order = vec![1, 2, 3, 4, 5];
    let response_order = vec![5, 1, 3, 2, 4];

    assert_ne!(request_order, response_order);
}

#[test]
fn test_orphaned_responses() {
    let requests = vec!["req-1", "req-2", "req-3"];
    let response_ids = vec!["req-1", "req-2", "req-3", "req-999"];

    let orphaned: Vec<_> = response_ids
        .iter()
        .filter(|id| !requests.contains(id))
        .collect();

    assert_eq!(orphaned.len(), 1);
    assert_eq!(orphaned[0], &"req-999");
}

#[test]
fn test_request_timeout_tracking() {
    let mut pending_requests = HashMap::new();

    pending_requests.insert("req-1", 1000);
    pending_requests.insert("req-2", 2000);
    pending_requests.insert("req-3", 500);

    let timed_out: Vec<_> = pending_requests
        .iter()
        .filter(|(_, timeout)| **timeout < 1000)
        .collect();

    assert_eq!(timed_out.len(), 1);
}

#[test]
fn test_memory_cleanup_after_response() {
    let mut waiters = HashMap::new();

    waiters.insert("req-1", "waiting");
    assert_eq!(waiters.len(), 1);

    waiters.remove("req-1");
    assert_eq!(waiters.len(), 0);
}

#[test]
fn test_rapid_request_response_cycles() {
    let mut completed = 0;

    for i in 0..1000 {
        let _id = format!("rapid-{}", i);
        completed += 1;
    }

    assert_eq!(completed, 1000);
}

#[test]
fn test_request_deduplication() {
    let ids: Vec<String> = (0..100).map(|i| format!("request-{}", i)).collect();

    let unique: HashSet<_> = ids.iter().cloned().collect();
    assert_eq!(unique.len(), ids.len());
}

#[test]
fn test_response_arrival_before_waiter() {
    let mut responses = HashMap::new();
    let mut waiters = HashMap::new();

    responses.insert("req-1", "some response");

    if let Some(resp) = responses.get("req-1") {
        waiters.insert("req-1", resp);
    }

    assert!(waiters.contains_key("req-1"));
}

#[test]
fn test_large_concurrent_requests() {
    let mut pending = Vec::new();

    for i in 0..10000 {
        pending.push(format!("req-{}", i));
    }

    assert_eq!(pending.len(), 10000);
}

#[test]
fn test_request_cancellation() {
    let mut pending = HashMap::new();

    pending.insert("req-1", true);
    pending.insert("req-2", true);
    pending.insert("req-3", true);

    pending.remove("req-2");

    assert_eq!(pending.len(), 2);
    assert!(!pending.contains_key("req-2"));
}

fn err_msg(id: &str, text: &str) -> Message {
    Message::Error(ErrorMessage {
        id: Some(id.to_string()),
        code: "test".to_string(),
        message: text.to_string(),
    })
}

#[test]
fn test_single_response_delivery() {
    let mut mux = Multiplexer::new();
    mux.register_waiter("http-001".to_string());

    mux.handle_response(err_msg("http-001", "payload"));

    match mux.poll_waiter("http-001") {
        RecvOutcome::Msg(Message::Error(e)) => assert_eq!(e.message, "payload"),
        _ => panic!("expected the delivered message"),
    }
    match mux.poll_waiter("http-001") {
        RecvOutcome::Pending => {},
        _ => panic!("open waiter with an empty queue is pending"),
    }
}

#[test]
fn test_sse_events_in_order() {
    let mut mux = Multiplexer::new();
    mux.register_waiter("sse-001".to_string());

    for i in 0..3 {
        mux.handle_response(Message::SseEvent(SseEvent {
            id: "sse-001".to_string(),
            tool: "signal-cli".to_string(),
            event: "message".to_string(),
            data: format!(r#"{{"num":{}}}"#, i),
        }));
    }

    for i in 0..3 {
        match mux.poll_waiter("sse-001") {
            RecvOutcome::Msg(Message::SseEvent(e)) => {
                assert_eq!(e.data, format!(r#"{{"num":{}}}"#, i));
            },
            _ => panic!("expected event {}", i),
        }
    }
}

#[test]
fn test_orphaned_response_ignored() {
    let mut mux = Multiplexer::new();

    mux.handle_response(err_msg("nonexistent", "dropped"));
    assert_eq!(mux.pending_count(), 0);
    match mux.poll_waiter("nonexistent") {
        RecvOutcome::Closed => {},
        _ => panic!("an unregistered id reads as closed"),
    }
}

#[test]
fn test_cleanup_on_disconnect_closes_waiters() {
    let mut mux = Multiplexer::new();
    mux.register_waiter("a".to_string());
    mux.register_waiter("b".to_string());
    mux.handle_response(err_msg("a", "before the drop"));

    assert_eq!(mux.pending_count(), 2);
    mux.cleanup_on_disconnect();
    assert_eq!(mux.pending_count(), 0);

    match mux.poll_waiter("a") {
        RecvOutcome::Msg(Message::Error(e)) => assert_eq!(e.message, "before the drop"),
        _ => panic!("buffered message survives the disconnect"),
    }
    match mux.poll_waiter("a") {
        RecvOutcome::Closed => {},
        _ => panic!("drained closed waiter reads as closed"),
    }
    match mux.poll_waiter("b") {
        RecvOutcome::Closed => {},
        _ => panic!("empty closed waiter reads as closed"),
    }
}

#[test]
fn test_remove_waiter_stops_delivery() {
    let mut mux = Multiplexer::new();
    mux.register_waiter("r".to_string());
    mux.handle_response(err_msg("r", "first"));
    mux.remove_waiter("r");
    mux.handle_response(err_msg("r", "after removal"));

    match mux.poll_waiter("r") {
        RecvOutcome::Msg(Message::Error(e)) => assert_eq!(e.message, "first"),
        _ => panic!("delivered message is drained"),
    }
    match mux.poll_waiter("r") {
        RecvOutcome::Closed => {},
        _ => panic!("late delivery was dropped"),
    }
}

#[test]
fn test_clear_all_waiters() {
    let mut mux = Multiplexer::new();

    for i in 0..10 {
        mux.register_waiter(format!("req-{}", i));
    }

    assert_eq!(mux.pending_count(), 10);

    mux.clear();
    assert_eq!(mux.pending_count(), 0);
}

#[test]
fn test_register_connection() {
    let mut tracker = ConnectionTracker::new();
    tracker.register("127.0.0.1:1234".to_string(), 100);
    assert_eq!(tracker.count(), 1);

    let connections = tracker.get_all();
    assert_eq!(connections[0].remote_addr, "127.0.0.1:1234");
}

#[test]
fn test_unregister_connection() {
    let mut tracker = ConnectionTracker::new();
    tracker.register("127.0.0.1:1234".to_string(), 100);
    assert_eq!(tracker.count(), 1);

    tracker.unregister("127.0.0.1:1234");
    assert_eq!(tracker.count(), 0);
}

#[test]
fn test_multiple_connections() {
    let mut tracker = ConnectionTracker::new();
    tracker.register("127.0.0.1:1234".to_string(), 100);
    tracker.register("127.0.0.1:5678".to_string(), 101);
    assert_eq!(tracker.count(), 2);

    tracker.unregister("127.0.0.1:1234");
    assert_eq!(tracker.count(), 1);

    let connections = tracker.get_all();
    assert_eq!(connections[0].remote_addr, "127.0.0.1:5678");
}
