use network_logger::handlers::dashboard::{
    domain_from_url, extract_domains, filter_from_query, get_dashboard_clients_simple,
    get_dashboard_events_simple, get_dashboard_packet_simple, list_clients, list_events,
    locate_event, not_found, position_below,
};
use network_logger::json::JsonValue;
use network_logger::reply::Reply;
use network_logger::simple::EventStore;
use network_logger::types::ExtensionEvent;

fn object(members: Vec<(&str, JsonValue)>) -> JsonValue {
    JsonValue::Object(members.into_iter().map(|(k, v)| (k.to_string(), v)).collect())
}

fn event(session: &str, client: Option<&str>, data: JsonValue) -> ExtensionEvent {
    ExtensionEvent {
        client_id: client.map(|c| c.to_string()),
        session_id: session.to_string(),
        timestamp: "t".to_string(),
        user_agent: "ua".to_string(),
        event_type: "custom".to_string(),
        data,
    }
}

fn stored(session: &str, packet_id: &str, category: &str) -> ExtensionEvent {
    event(
        session,
        None,
        object(vec![
            ("packet_id", JsonValue::text(packet_id)),
            ("category", JsonValue::text(category)),
        ]),
    )
}

fn records(reply: &Reply) -> Vec<JsonValue> {
    assert_eq!(reply.status, 200);
    match &reply.body {
        JsonValue::Object(members) => {
            assert_eq!(members.len(), 1);
            assert_eq!(members[0].0, "events");
            match &members[0].1 {
                JsonValue::Array(records) => records.clone(),
                other => panic!("not an array: {:?}", other),
            }
        }
        other => panic!("not an object: {:?}", other),
    }
}

fn ids(reply: &Reply) -> Vec<String> {
    records(reply).iter().map(|r| r.str_at("packet_id").unwrap().to_string()).collect()
}

#[test]
fn domain_from_url_strips_scheme_port_path_and_query() {
    assert_eq!(
        domain_from_url("https://ads.tracker.com:8443/x?y=1"),
        Some("ads.tracker.com".to_string())
    );
}

#[test]
fn domain_from_url_handles_plain_hosts() {
    assert_eq!(domain_from_url("example.com"), Some("example.com".to_string()));
    assert_eq!(domain_from_url("  example.com/path  "), Some("example.com".to_string()));
    assert_eq!(domain_from_url("example.com?x=1"), Some("example.com".to_string()));
    assert_eq!(domain_from_url("example.com#top"), Some("example.com".to_string()));
    assert_eq!(domain_from_url("example.com:80"), Some("example.com".to_string()));
    assert_eq!(domain_from_url("http://münchen.example/straße"), Some("münchen.example".to_string()));
}

#[test]
fn domain_from_url_gives_nothing_for_empty_results() {
    assert_eq!(domain_from_url(""), None);
    assert_eq!(domain_from_url("   \t\n"), None);
    assert_eq!(domain_from_url("https://"), None);
    assert_eq!(domain_from_url("https:///path"), None);
    assert_eq!(domain_from_url("/only/a/path"), None);
    assert_eq!(domain_from_url(":8080"), None);
    assert_eq!(domain_from_url("http:// :80/"), None);
    assert_eq!(domain_from_url("?q"), None);
}

#[test]
fn domain_from_url_strips_a_leading_scheme_only() {
    assert_eq!(domain_from_url("example.com/r?u=http://evil.com"), Some("example.com".to_string()));
    assert_eq!(domain_from_url("example.com/redirect?to=http://other/"), Some("example.com".to_string()));
    assert_eq!(domain_from_url("example.com?next=ftp://x"), Some("example.com".to_string()));
    assert_eq!(domain_from_url("example.com#a://b"), Some("example.com".to_string()));
    assert_eq!(domain_from_url("/path/to://x"), None);
    assert_eq!(domain_from_url("https://example.com/r?u=http://evil.com"), Some("example.com".to_string()));
    assert_eq!(domain_from_url("://example.com"), Some("example.com".to_string()));
}

#[test]
fn domain_from_url_cuts_at_the_first_colon() {
    assert_eq!(domain_from_url("a://b://c/d"), Some("b".to_string()));
    assert_eq!(domain_from_url("user:pass@example.com"), Some("user".to_string()));
    assert_eq!(domain_from_url("http://host :80/x"), Some("host".to_string()));
    assert_eq!(domain_from_url(":/x"), None);
    assert_eq!(domain_from_url("a:/"), Some("a".to_string()));
}

#[test]
fn extract_domains_prefers_url_over_host() {
    let data = object(vec![
        ("url", JsonValue::text("https://page.example/index.html")),
        ("host", JsonValue::text("other.example")),
        ("scriptUrl", JsonValue::text("https://cdn.example:443/lib.js")),
    ]);
    assert_eq!(extract_domains(&data), ("page.example".to_string(), "cdn.example".to_string()));
}

#[test]
fn extract_domains_falls_back_to_host() {
    let data = object(vec![("url", JsonValue::text("   ")), ("host", JsonValue::text("h.example:8080"))]);
    assert_eq!(extract_domains(&data), ("h.example".to_string(), String::new()));
    let data = object(vec![("url", JsonValue::count(3)), ("host", JsonValue::text("h.example"))]);
    assert_eq!(extract_domains(&data), ("h.example".to_string(), String::new()));
    let data = object(vec![("host", JsonValue::text("h.example"))]);
    assert_eq!(extract_domains(&data), ("h.example".to_string(), String::new()));
}

#[test]
fn extract_domains_is_empty_without_sources() {
    assert_eq!(extract_domains(&object(Vec::new())), (String::new(), String::new()));
    assert_eq!(extract_domains(&JsonValue::Null), (String::new(), String::new()));
    assert_eq!(
        extract_domains(&JsonValue::text("https://a.example/")),
        (String::new(), String::new())
    );
}

#[test]
fn filter_from_query_reads_the_first_filter_piece() {
    assert_eq!(filter_from_query(""), "all");
    assert_eq!(filter_from_query("filter=security"), "security");
    assert_eq!(filter_from_query("a=1&filter=javascript&filter=security"), "javascript");
    assert_eq!(filter_from_query("filter"), "all");
    assert_eq!(filter_from_query("filter="), "");
    assert_eq!(filter_from_query("filter=a=b"), "a=b");
    assert_eq!(filter_from_query("xfilter=security"), "all");
    assert_eq!(filter_from_query("Filter=security"), "all");
    assert_eq!(filter_from_query("&&filter=x&"), "x");
    assert_eq!(filter_from_query("a&b=c"), "all");
}

#[test]
fn events_are_listed_newest_first() {
    let events = vec![stored("s0", "pkt-a", "general"), stored("s1", "pkt-b", "security"), stored("s2", "pkt-c", "javascript")];
    assert_eq!(ids(&list_events(&events, "all")), vec!["pkt-c", "pkt-b", "pkt-a"]);
    assert_eq!(ids(&list_events(&events, "anything")), vec!["pkt-c", "pkt-b", "pkt-a"]);
    assert_eq!(ids(&list_events(&events, "security")), vec!["pkt-b"]);
    assert_eq!(ids(&list_events(&events, "javascript")), vec!["pkt-c"]);
    assert_eq!(ids(&list_events(&events, "general")), vec!["pkt-c", "pkt-b", "pkt-a"]);
    assert!(records(&list_events(&Vec::new(), "all")).is_empty());
}

#[test]
fn listed_record_has_the_nine_members() {
    let mut held = event(
        "sess",
        Some("client-7"),
        object(vec![
            ("url", JsonValue::text("https://page.example/a")),
            ("scriptUrl", JsonValue::text("https://cdn.example/x.js")),
            ("packet_id", JsonValue::text("sec-20240131-235959-3")),
            ("category", JsonValue::text("javascript")),
        ]),
    );
    held.event_type = "javascript_execution".to_string();
    let listed = records(&list_events(&vec![held], "all"));
    assert_eq!(
        listed,
        vec![object(vec![
            ("packet_id", JsonValue::text("sec-20240131-235959-3")),
            ("event_type", JsonValue::text("javascript_execution")),
            ("category", JsonValue::text("javascript")),
            ("page_domain", JsonValue::text("page.example")),
            ("script_domain", JsonValue::text("cdn.example")),
            ("client_id", JsonValue::text("client-7")),
            ("session_id", JsonValue::text("sess")),
            ("timestamp", JsonValue::text("t")),
            ("user_agent", JsonValue::text("ua")),
        ])]
    );
}

#[test]
fn events_without_packet_id_are_listed_by_position() {
    let events = vec![
        event("s0", None, JsonValue::Null),
        stored("s1", "pkt-b", "security"),
        event("s2", None, object(vec![("packet_id", JsonValue::text(""))])),
        event("s3", None, object(vec![("packet_id", JsonValue::count(5))])),
    ];
    assert_eq!(ids(&list_events(&events, "all")), vec!["evt-0", "evt-1", "pkt-b", "evt-3"]);
    let listed = records(&list_events(&events, "all"));
    assert_eq!(listed[3].str_at("category"), Some("general"));
    assert_eq!(listed[3].get("client_id"), Some(&JsonValue::Null));
    assert_eq!(listed[3].str_at("page_domain"), Some(""));
}

#[test]
fn positions_count_events_that_the_filter_hides() {
    let events = vec![
        event("s0", None, object(vec![("category", JsonValue::text("security"))])),
        stored("s1", "pkt-b", "general"),
        event("s2", None, object(vec![("category", JsonValue::text("security"))])),
    ];
    assert_eq!(ids(&list_events(&events, "security")), vec!["evt-0", "evt-2"]);
}

#[test]
fn evt_zero_is_the_event_just_stored() {
    let mut store = EventStore::new();
    let only = event("s0", None, JsonValue::Null);
    store.add(only.clone());
    assert_eq!(get_dashboard_packet_simple(&store, "evt-0"), Ok(only));
}

#[test]
fn evt_n_counts_from_the_newest() {
    let mut store = EventStore::new();
    store.add(stored("s0", "pkt-a", "general"));
    store.add(stored("s1", "pkt-b", "general"));
    store.add(stored("s2", "pkt-c", "general"));
    assert_eq!(get_dashboard_packet_simple(&store, "evt-0"), Ok(stored("s2", "pkt-c", "general")));
    assert_eq!(get_dashboard_packet_simple(&store, "evt-2"), Ok(stored("s0", "pkt-a", "general")));
    assert_eq!(get_dashboard_packet_simple(&store, "evt-002"), Ok(stored("s0", "pkt-a", "general")));
    assert_eq!(get_dashboard_packet_simple(&store, "evt-+1"), Ok(stored("s1", "pkt-b", "general")));
    assert_eq!(get_dashboard_packet_simple(&store, "pkt-b"), Ok(stored("s1", "pkt-b", "general")));
}

#[test]
fn unknown_identifiers_answer_404() {
    let mut store = EventStore::new();
    assert_eq!(get_dashboard_packet_simple(&store, "evt-0"), Err(not_found("evt-0")));
    store.add(stored("s0", "pkt-a", "general"));
    for id in ["evt-1", "evt-", "evt-+", "evt--1", "evt-1x", "evt- 0", "EVT-0", "evt-99999999999999999999999999", "pkt-z", ""] {
        assert_eq!(get_dashboard_packet_simple(&store, id), Err(not_found(id)), "{:?}", id);
    }
    assert_eq!(
        not_found("pkt-z"),
        Reply {
            status: 404,
            body: object(vec![
                ("error", JsonValue::text("packet not found")),
                ("packet_id", JsonValue::text("pkt-z")),
            ]),
        }
    );
}

#[test]
fn evt_form_out_of_range_is_looked_up_as_a_packet_id() {
    let events = vec![stored("s0", "evt-7", "general"), stored("s1", "evt-0", "general")];
    assert_eq!(locate_event(&events, "evt-7"), Some(0));
    assert_eq!(locate_event(&events, "evt-0"), Some(1));
    assert_eq!(locate_event(&events, "evt-1"), Some(0));
    assert_eq!(locate_event(&events, "evt-2"), None);
}

#[test]
fn the_newest_event_of_a_packet_id_is_found() {
    let events = vec![stored("old", "same", "general"), stored("new", "same", "general"), stored("x", "other", "general")];
    assert_eq!(locate_event(&events, "same"), Some(1));
    assert_eq!(locate_event(&events, "other"), Some(2));
    assert_eq!(locate_event(&events, "none"), None);
    let typed = vec![event("n", None, object(vec![("packet_id", JsonValue::count(1))]))];
    assert_eq!(locate_event(&typed, "1"), None);
}

#[test]
fn position_below_reads_evt_numbers() {
    assert_eq!(position_below("evt-0", 1), Some(0));
    assert_eq!(position_below("evt-0", 0), None);
    assert_eq!(position_below("evt-41", 42), Some(41));
    assert_eq!(position_below("evt-42", 42), None);
    assert_eq!(position_below("evt-+0007", 42), Some(7));
    assert_eq!(position_below("evt-18446744073709551616", usize::MAX), None);
    assert_eq!(position_below("evt-18446744073709551614", usize::MAX), Some(18446744073709551614));
    assert_eq!(position_below("evt-1é", 42), None);
    assert_eq!(position_below("evt", 42), None);
    assert_eq!(position_below("évt-1", 42), None);
}

#[test]
fn clients_are_listed_once_each() {
    let events = vec![
        event("s0", Some("b"), JsonValue::Null),
        event("s1", None, JsonValue::Null),
        event("s2", Some(""), JsonValue::Null),
        event("s3", Some("a"), JsonValue::Null),
        event("s4", Some("b"), JsonValue::Null),
    ];
    assert_eq!(
        list_clients(&events),
        Reply {
            status: 200,
            body: object(vec![(
                "clients",
                JsonValue::Array(vec![JsonValue::text("b"), JsonValue::text("a")])
            )]),
        }
    );
}

#[test]
fn clients_of_an_empty_store_are_none() {
    let store = EventStore::new();
    assert_eq!(
        get_dashboard_clients_simple(&store),
        Reply { status: 200, body: object(vec![("clients", JsonValue::Array(Vec::new()))]) }
    );
}

#[test]
fn dashboard_reads_the_store() {
    let mut store = EventStore::new();
    store.add(event("s0", Some("c1"), object(vec![("category", JsonValue::text("security"))])));
    store.add(event("s1", Some("c2"), JsonValue::Null));
    assert_eq!(ids(&get_dashboard_events_simple(&store, "x=1&filter=security")), vec!["evt-1"]);
    assert_eq!(ids(&get_dashboard_events_simple(&store, "filter=all")), vec!["evt-0", "evt-1"]);
    let clients = get_dashboard_clients_simple(&store);
    assert_eq!(
        clients.body.get("clients"),
        Some(&JsonValue::Array(vec![JsonValue::text("c1"), JsonValue::text("c2")]))
    );
}
