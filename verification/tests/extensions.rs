use network_logger::handlers::dashboard::{
    get_dashboard_events_simple, get_dashboard_packet_simple,
};
use network_logger::handlers::extensions::{
    category_for, event_received, insert_packet_and_category, post_extensions_production,
    post_extensions_simple, post_security_production, post_security_simple, prepare_event,
    tag_event,
};
use network_logger::json::{JsonNumber, JsonValue};
use network_logger::packet_id::PacketCounter;
use network_logger::reply::{invalid_json, Reply, Step};
use network_logger::simple::EventStore;
use network_logger::types::ExtensionEvent;

fn event(event_type: &str, data: JsonValue) -> ExtensionEvent {
    ExtensionEvent {
        client_id: None,
        session_id: "s1".to_string(),
        timestamp: "t".to_string(),
        user_agent: "ua".to_string(),
        event_type: event_type.to_string(),
        data,
    }
}

fn object(members: Vec<(&str, JsonValue)>) -> JsonValue {
    JsonValue::Object(members.into_iter().map(|(k, v)| (k.to_string(), v)).collect())
}

fn listed_ids(reply: &Reply) -> Vec<String> {
    match reply.body.get("events") {
        Some(JsonValue::Array(records)) => {
            records.iter().map(|r| r.str_at("packet_id").unwrap().to_string()).collect()
        }
        _ => panic!("no events in {:?}", reply),
    }
}

#[test]
fn category_follows_path_and_event_type() {
    assert_eq!(category_for("javascript_execution", false), "javascript");
    assert_eq!(category_for("extension_installed", false), "general");
    assert_eq!(category_for("", false), "general");
    assert_eq!(category_for("JavaScript_Execution", false), "general");
    assert_eq!(category_for("javascript_execution", true), "security");
    assert_eq!(category_for("chatgpt_file_upload", true), "security");
}

#[test]
fn enrich_adds_both_members_to_an_object() {
    let data = object(vec![("url", JsonValue::text("https://a.example/"))]);
    let out = insert_packet_and_category(event("custom", data), "sec-1", "general");
    assert_eq!(
        out,
        event(
            "custom",
            object(vec![
                ("url", JsonValue::text("https://a.example/")),
                ("packet_id", JsonValue::text("sec-1")),
                ("category", JsonValue::text("general")),
            ])
        )
    );
}

#[test]
fn enrich_of_an_empty_object_gives_the_two_members() {
    let out = insert_packet_and_category(event("custom", object(Vec::new())), "p", "c");
    assert_eq!(
        out.data,
        object(vec![("packet_id", JsonValue::text("p")), ("category", JsonValue::text("c"))])
    );
}

#[test]
fn enrich_overwrites_members_that_the_client_sent() {
    let data = object(vec![
        ("category", JsonValue::text("forged")),
        ("keep", JsonValue::Bool(true)),
        ("packet_id", JsonValue::count(7)),
    ]);
    let out = insert_packet_and_category(event("custom", data), "sec-9", "security");
    assert_eq!(
        out.data,
        object(vec![
            ("category", JsonValue::text("security")),
            ("keep", JsonValue::Bool(true)),
            ("packet_id", JsonValue::text("sec-9")),
        ])
    );
}

#[test]
fn enrich_twice_keeps_the_key_set() {
    let data = object(vec![("a", JsonValue::count(1)), ("b", JsonValue::Null)]);
    let once = insert_packet_and_category(event("custom", data), "first", "general");
    let twice = insert_packet_and_category(once.clone(), "second", "javascript");
    let keys = |value: &JsonValue| -> Vec<String> {
        match value {
            JsonValue::Object(members) => members.iter().map(|m| m.0.clone()).collect(),
            _ => panic!("not an object"),
        }
    };
    assert_eq!(keys(&twice.data), keys(&once.data));
    assert_eq!(keys(&twice.data), vec!["a", "b", "packet_id", "category"]);
    assert_eq!(twice.data.str_at("packet_id"), Some("second"));
    assert_eq!(twice.data.str_at("category"), Some("javascript"));
    assert_eq!(twice.data.get("a"), Some(&JsonValue::count(1)));
    assert_eq!(twice.data.get("b"), Some(&JsonValue::Null));
}

#[test]
fn enrich_wraps_data_that_is_no_object() {
    let scalars = vec![
        JsonValue::Null,
        JsonValue::Bool(false),
        JsonValue::Number(JsonNumber::NegInt(-3)),
        JsonValue::text("plain"),
        JsonValue::Array(vec![JsonValue::count(1), object(vec![("x", JsonValue::Null)])]),
    ];
    for scalar in scalars {
        let out = insert_packet_and_category(event("custom", scalar.clone()), "p", "general");
        assert_eq!(
            out.data,
            object(vec![
                ("packet_id", JsonValue::text("p")),
                ("category", JsonValue::text("general")),
                ("data", scalar),
            ])
        );
    }
}

#[test]
fn enrich_leaves_the_rest_of_the_event_alone() {
    let mut input = event("custom", JsonValue::Null);
    input.client_id = Some("c9".to_string());
    let out = insert_packet_and_category(input.clone(), "p", "general");
    assert_eq!(out.client_id, input.client_id);
    assert_eq!(out.session_id, input.session_id);
    assert_eq!(out.timestamp, input.timestamp);
    assert_eq!(out.user_agent, input.user_agent);
    assert_eq!(out.event_type, input.event_type);
}

#[test]
fn event_received_names_the_packet() {
    assert_eq!(
        event_received("sec-20240131-235959-4", "10.0.0.1"),
        Reply {
            status: 200,
            body: object(vec![
                ("success", JsonValue::Bool(true)),
                ("packet_id", JsonValue::text("sec-20240131-235959-4")),
                ("client_ip", JsonValue::text("10.0.0.1")),
            ]),
        }
    );
}

#[test]
fn tag_event_enriches_and_answers() {
    let (tagged, reply) =
        tag_event(event("javascript_execution", object(Vec::new())), "sec-x-1", false, "ip");
    assert_eq!(tagged.data.str_at("packet_id"), Some("sec-x-1"));
    assert_eq!(tagged.data.str_at("category"), Some("javascript"));
    assert_eq!(reply, event_received("sec-x-1", "ip"));
    let (forced, _) =
        tag_event(event("javascript_execution", object(Vec::new())), "sec-x-2", true, "ip");
    assert_eq!(forced.data.str_at("category"), Some("security"));
}

#[test]
fn posted_javascript_event_is_listed_under_javascript_only() {
    let mut store = EventStore::new();
    let mut counter = PacketCounter::new();
    let reply = post_extensions_simple(
        &mut store,
        &mut counter,
        "127.0.0.1",
        Ok(event("javascript_execution", object(Vec::new()))),
    );
    assert_eq!(reply.status, 200);
    assert_eq!(reply.body.get("success"), Some(&JsonValue::Bool(true)));
    let packet_id = reply.body.str_at("packet_id").unwrap().to_string();
    assert!(packet_id.starts_with("sec-"), "{}", packet_id);
    assert!(packet_id.ends_with("-0"), "{}", packet_id);
    assert_eq!(reply.body.str_at("client_ip"), Some("127.0.0.1"));

    let javascript = get_dashboard_events_simple(&store, "filter=javascript");
    assert_eq!(listed_ids(&javascript), vec![packet_id.clone()]);
    let security = get_dashboard_events_simple(&store, "filter=security");
    assert!(listed_ids(&security).is_empty());
    let all = get_dashboard_events_simple(&store, "");
    assert_eq!(listed_ids(&all), vec![packet_id]);
}

#[test]
fn posted_event_is_stored_enriched() {
    let mut store = EventStore::new();
    let mut counter = PacketCounter::new();
    let reply = post_extensions_simple(
        &mut store,
        &mut counter,
        "ip",
        Ok(event("extension_installed", JsonValue::text("v1"))),
    );
    let packet_id = reply.body.str_at("packet_id").unwrap().to_string();
    let held = store.list();
    assert_eq!(
        held,
        vec![event(
            "extension_installed",
            object(vec![
                ("packet_id", JsonValue::text(&packet_id)),
                ("category", JsonValue::text("general")),
                ("data", JsonValue::text("v1")),
            ])
        )]
    );
    assert_eq!(get_dashboard_packet_simple(&store, &packet_id), Ok(held[0].clone()));
}

#[test]
fn security_report_is_stored_as_security() {
    let mut store = EventStore::new();
    let mut counter = PacketCounter::new();
    let reply = post_security_simple(
        &mut store,
        &mut counter,
        "ip",
        Ok(event("javascript_execution", object(Vec::new()))),
    );
    assert_eq!(reply.status, 200);
    let held = store.list();
    assert_eq!(held.len(), 1);
    assert_eq!(held[0].data.str_at("category"), Some("security"));
    assert_eq!(held[0].data.str_at("packet_id"), reply.body.str_at("packet_id"));
    assert_eq!(listed_ids(&get_dashboard_events_simple(&store, "filter=security")).len(), 1);
    assert!(listed_ids(&get_dashboard_events_simple(&store, "filter=javascript")).is_empty());
}

#[test]
fn events_that_did_not_decode_issue_no_identifier() {
    let mut store = EventStore::new();
    let mut counter = PacketCounter::new();
    let reply =
        post_extensions_simple(&mut store, &mut counter, "ip", Err("trailing comma".to_string()));
    assert_eq!(reply, invalid_json("trailing comma"));
    let reply = post_security_simple(&mut store, &mut counter, "ip", Err("eof".to_string()));
    assert_eq!(reply, invalid_json("eof"));
    assert!(store.list().is_empty());
    assert_eq!(counter.take(), "0");
}

#[test]
fn both_paths_share_the_numbering() {
    let mut store = EventStore::new();
    let mut counter = PacketCounter::new();
    let a = post_extensions_simple(&mut store, &mut counter, "ip", Ok(event("x", JsonValue::Null)));
    let b = post_security_simple(&mut store, &mut counter, "ip", Ok(event("x", JsonValue::Null)));
    let c = post_extensions_simple(&mut store, &mut counter, "ip", Ok(event("x", JsonValue::Null)));
    assert!(a.body.str_at("packet_id").unwrap().ends_with("-0"));
    assert!(b.body.str_at("packet_id").unwrap().ends_with("-1"));
    assert!(c.body.str_at("packet_id").unwrap().ends_with("-2"));
}

#[test]
fn production_steps_hand_the_enriched_event_back() {
    let mut counter = PacketCounter::new();
    let step = post_extensions_production(
        &mut counter,
        "ip",
        Ok(event("javascript_execution", object(Vec::new()))),
    );
    match step {
        Step::Store { item, on_success } => {
            let packet_id = on_success.body.str_at("packet_id").unwrap().to_string();
            assert!(packet_id.starts_with("sec-") && packet_id.ends_with("-0"));
            assert_eq!(on_success, event_received(&packet_id, "ip"));
            assert_eq!(item.data.str_at("packet_id"), Some(packet_id.as_str()));
            assert_eq!(item.data.str_at("category"), Some("javascript"));
        }
        Step::Answer(reply) => panic!("unexpected answer {:?}", reply),
    }
    let step = post_security_production(&mut counter, "ip", Ok(event("x", JsonValue::Null)));
    match step {
        Step::Store { item, on_success } => {
            assert!(on_success.body.str_at("packet_id").unwrap().ends_with("-1"));
            assert_eq!(item.data.str_at("category"), Some("security"));
            assert_eq!(item.data.get("data"), Some(&JsonValue::Null));
        }
        Step::Answer(reply) => panic!("unexpected answer {:?}", reply),
    }
}

#[test]
fn production_steps_refuse_a_body_that_did_not_decode() {
    let mut counter = PacketCounter::new();
    assert_eq!(
        post_extensions_production(&mut counter, "ip", Err("bad".to_string())),
        Step::Answer(invalid_json("bad"))
    );
    assert_eq!(
        post_security_production(&mut counter, "ip", Err("bad".to_string())),
        Step::Answer(invalid_json("bad"))
    );
    assert_eq!(
        prepare_event(&mut counter, "ip", Err("bad".to_string()), true),
        Step::Answer(invalid_json("bad"))
    );
    assert_eq!(counter.take(), "0");
}
