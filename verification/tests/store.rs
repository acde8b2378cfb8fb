use network_logger::json::JsonValue;
use network_logger::simple::{SimpleState, MAX_EVENTS, MAX_LOGS};
use network_logger::types::{Blocklist, ExtensionEvent, LogEntry, NetworkLog};

fn batch(session: &str) -> LogEntry {
    LogEntry {
        client_id: None,
        session_id: session.to_string(),
        timestamp: "t".to_string(),
        user_agent: "ua".to_string(),
        logs: vec![NetworkLog {
            request_id: "r".to_string(),
            url: "https://example.com/".to_string(),
            method: "GET".to_string(),
            request_type: "other".to_string(),
            blocked: false,
            block_reason: None,
        }],
    }
}

fn event(session: &str) -> ExtensionEvent {
    ExtensionEvent {
        client_id: Some("c1".to_string()),
        session_id: session.to_string(),
        timestamp: "t".to_string(),
        user_agent: "ua".to_string(),
        event_type: "custom".to_string(),
        data: JsonValue::Null,
    }
}

#[test]
fn capacities_are_one_thousand_and_five_hundred() {
    assert_eq!(MAX_LOGS, 1000);
    assert_eq!(MAX_EVENTS, 500);
}

#[test]
fn new_store_is_empty_with_default_blocklist() {
    let state = SimpleState::new();
    assert!(state.get_logs().is_empty());
    assert!(state.get_extension_events().is_empty());
    assert_eq!(
        state.get_blocklist(),
        Blocklist {
            url_patterns: vec![
                ".*tracker\\..*".to_string(),
                ".*analytics\\..*".to_string(),
                ".*doubleclick\\..*".to_string(),
            ],
            youtube_channels: vec!["@spam".to_string()],
        }
    );
}

#[test]
fn logs_come_back_in_the_order_added() {
    let mut state = SimpleState::new();
    state.add_log(batch("a"));
    state.add_log(batch("b"));
    state.add_log(batch("c"));
    let logs = state.get_logs();
    assert_eq!(logs, vec![batch("a"), batch("b"), batch("c")]);
}

#[test]
fn logs_hold_exactly_one_thousand_at_capacity() {
    let mut state = SimpleState::new();
    for i in 0..1000 {
        state.add_log(batch(&format!("s{}", i)));
    }
    let logs = state.get_logs();
    assert_eq!(logs.len(), 1000);
    assert_eq!(logs[0].session_id, "s0");
    assert_eq!(logs[999].session_id, "s999");
}

#[test]
fn logs_keep_the_most_recent_thousand() {
    let mut state = SimpleState::new();
    for i in 0..1003 {
        state.add_log(batch(&format!("s{}", i)));
    }
    let logs = state.get_logs();
    assert_eq!(logs.len(), 1000);
    for (k, entry) in logs.iter().enumerate() {
        assert_eq!(entry.session_id, format!("s{}", k + 3));
    }
}

#[test]
fn events_keep_the_most_recent_five_hundred() {
    let mut state = SimpleState::new();
    for i in 0..1234 {
        state.add_extension_event(event(&format!("e{}", i)));
    }
    let events = state.get_extension_events();
    assert_eq!(events.len(), 500);
    for (k, held) in events.iter().enumerate() {
        assert_eq!(held.session_id, format!("e{}", k + 734));
    }
}

#[test]
fn fewer_events_than_capacity_are_all_kept() {
    let mut state = SimpleState::new();
    for i in 0..7 {
        state.add_extension_event(event(&format!("e{}", i)));
    }
    let events = state.get_extension_events();
    assert_eq!(events.len(), 7);
    assert_eq!(events[0], event("e0"));
    assert_eq!(events[6], event("e6"));
}

#[test]
fn update_blocklist_replaces_without_merging() {
    let mut state = SimpleState::new();
    let posted = Blocklist {
        url_patterns: vec!["(unclosed".to_string()],
        youtube_channels: Vec::new(),
    };
    state.update_blocklist(posted.clone());
    assert_eq!(state.get_blocklist(), posted);
}

#[test]
fn reads_hand_out_copies() {
    let mut state = SimpleState::new();
    state.add_log(batch("a"));
    let mut copy = state.get_logs();
    copy[0].session_id = "changed".to_string();
    copy.clear();
    assert_eq!(state.get_logs(), vec![batch("a")]);
}

#[test]
fn collections_do_not_touch_each_other() {
    let mut state = SimpleState::new();
    state.add_log(batch("a"));
    state.add_extension_event(event("e"));
    state.update_blocklist(Blocklist { url_patterns: Vec::new(), youtube_channels: Vec::new() });
    assert_eq!(state.get_logs().len(), 1);
    assert_eq!(state.get_extension_events().len(), 1);
    assert!(state.get_blocklist().url_patterns.is_empty());
}

#[test]
fn each_collection_stands_alone() {
    let mut logs = network_logger::simple::LogStore::new();
    let mut events = network_logger::simple::EventStore::new();
    assert!(logs.list().is_empty());
    assert!(events.list().is_empty());
    for i in 0..1001 {
        logs.add(batch(&format!("s{}", i)));
    }
    for i in 0..501 {
        events.add(event(&format!("e{}", i)));
    }
    let held = logs.list();
    assert_eq!(held.len(), 1000);
    assert_eq!(held[0].session_id, "s1");
    assert_eq!(held[999].session_id, "s1000");
    let held = events.list();
    assert_eq!(held.len(), 500);
    assert_eq!(held[0].session_id, "e1");
    assert_eq!(held[499].session_id, "e500");
}

#[test]
fn the_store_is_its_three_collections() {
    let mut state = SimpleState::new();
    state.add_log(batch("a"));
    state.add_extension_event(event("e"));
    assert_eq!(state.logs.list(), state.get_logs());
    assert_eq!(state.extension_events.list(), state.get_extension_events());
    assert_eq!(state.blocklist, network_logger::simple::starting_blocklist());
}
