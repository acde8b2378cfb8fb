//! Receiving extension and security events: each gets a packet identifier
//! and a category before it is stored.

use vstd::prelude::*;
use crate::json::{
    insert_member, lemma_members_map_push, lemma_set_member, members_map, members_view,
    no_members, push_member, set_member, unique_keys, Json, JsonValue,
};
use crate::packet_id::{
    is_stamp, lemma_packet_ids_differ, next_packet_id, packet_id_text, PacketCounter,
};
use crate::reply::{invalid_json, invalid_json_reply, Reply, ReplyView, Step};
use crate::simple::{append_bounded, EventStore, MAX_EVENTS};
use crate::text::str_eq;
use crate::types::{ExtensionEvent, ExtensionEventView};

verus! {

/// The category of an event: `security` for one that came in as a security
/// report, else `javascript` for a script execution, else `general`.
pub open spec fn category_of(event_type: Seq<char>, security: bool) -> Seq<char> {
    if security {
        "security"@
    } else if event_type == "javascript_execution"@ {
        "javascript"@
    } else {
        "general"@
    }
}

/// The data of an event once its packet identifier and category are in it.
/// An object gets the two members, over any it had of those names; any other
/// value is put under `data` beside them in a new object.
pub open spec fn enrich(data: Json, packet_id: Seq<char>, category: Seq<char>) -> Json {
    match data {
        Json::Object(members) => Json::Object(
            set_member(
                set_member(members, "packet_id"@, Json::Text(packet_id)),
                "category"@,
                Json::Text(category),
            ),
        ),
        other => Json::Object(
            seq![
                ("packet_id"@, Json::Text(packet_id)),
                ("category"@, Json::Text(category)),
                ("data"@, other),
            ],
        ),
    }
}

/// An event once its packet identifier and category are in its data.
pub open spec fn enriched(
    event: ExtensionEventView,
    packet_id: Seq<char>,
    category: Seq<char>,
) -> ExtensionEventView {
    ExtensionEventView { data: enrich(event.data, packet_id, category), ..event }
}

/// The answer to an event that was received: status 200 and its packet
/// identifier.
pub open spec fn event_reply(packet_id: Seq<char>, client_ip: Seq<char>) -> ReplyView {
    ReplyView {
        status: 200,
        body: Json::Object(
            seq![
                ("success"@, Json::Bool(true)),
                ("packet_id"@, Json::Text(packet_id)),
                ("client_ip"@, Json::Text(client_ip)),
            ],
        ),
    }
}

proof fn lemma_member_names_differ()
    ensures
        "packet_id"@ != "category"@,
        "packet_id"@ != "data"@,
        "category"@ != "data"@,
{
    reveal_strlit("packet_id");
    reveal_strlit("category");
    reveal_strlit("data");
    assert("packet_id"@.len() == 9);
    assert("category"@.len() == 8);
    assert("data"@.len() == 4);
}

/// Enriched data is an object that holds the packet identifier and the
/// category as texts.
pub proof fn lemma_enrich_members(data: Json, packet_id: Seq<char>, category: Seq<char>)
    ensures
        enrich(data, packet_id, category) is Object,
        enrich(data, packet_id, category).text_at("packet_id"@) == Some(packet_id),
        enrich(data, packet_id, category).text_at("category"@) == Some(category),
{
    lemma_member_names_differ();
    match data {
        Json::Object(members) => {
            let first = set_member(members, "packet_id"@, Json::Text(packet_id));
            lemma_set_member(members, "packet_id"@, Json::Text(packet_id));
            lemma_set_member(first, "category"@, Json::Text(category));
        },
        other => {
            lemma_scalar_members(other, packet_id, category);
        },
    }
}

proof fn lemma_scalar_members(other: Json, packet_id: Seq<char>, category: Seq<char>)
    ensures
        members_map(
            seq![
                ("packet_id"@, Json::Text(packet_id)),
                ("category"@, Json::Text(category)),
                ("data"@, other),
            ],
        ) == Map::<Seq<char>, Json>::empty().insert("packet_id"@, Json::Text(packet_id)).insert(
            "category"@,
            Json::Text(category),
        ).insert("data"@, other),
{
    let a = ("packet_id"@, Json::Text(packet_id));
    let b = ("category"@, Json::Text(category));
    let c = ("data"@, other);
    let s0 = Seq::<(Seq<char>, Json)>::empty();
    lemma_members_map_push(s0, a.0, a.1);
    lemma_members_map_push(s0.push(a), b.0, b.1);
    lemma_members_map_push(s0.push(a).push(b), c.0, c.1);
    assert(seq![a, b, c] =~= s0.push(a).push(b).push(c));
}

/// Enriching an object that was enriched before puts the new packet
/// identifier and category in place of the old: the object keeps its keys,
/// gains no second member of a key, and keeps every other member.
pub proof fn lemma_enrich_again(
    data: Json,
    first_id: Seq<char>,
    first_category: Seq<char>,
    second_id: Seq<char>,
    second_category: Seq<char>,
)
    requires
        data is Object,
    ensures
        ({
            let once = enrich(data, first_id, first_category);
            let twice = enrich(once, second_id, second_category);
            &&& twice.fields().dom() == once.fields().dom()
            &&& twice.fields() == data.fields().insert(
                "packet_id"@,
                Json::Text(second_id),
            ).insert("category"@, Json::Text(second_category))
            &&& twice->Object_0.len() == once->Object_0.len()
            &&& unique_keys(data->Object_0) ==> unique_keys(twice->Object_0)
            &&& forall|key: Seq<char>|
                key != "packet_id"@ && key != "category"@ ==> twice.get(key) == data.get(key)
        }),
{
    lemma_member_names_differ();
    let id_key = "packet_id"@;
    let cat_key = "category"@;
    let m0 = data->Object_0;
    let m1 = set_member(m0, id_key, Json::Text(first_id));
    let m2 = set_member(m1, cat_key, Json::Text(first_category));
    let m3 = set_member(m2, id_key, Json::Text(second_id));
    let m4 = set_member(m3, cat_key, Json::Text(second_category));
    lemma_set_member(m0, id_key, Json::Text(first_id));
    lemma_set_member(m1, cat_key, Json::Text(first_category));
    lemma_set_member(m2, id_key, Json::Text(second_id));
    lemma_set_member(m3, cat_key, Json::Text(second_category));
    let once = enrich(data, first_id, first_category);
    let twice = enrich(once, second_id, second_category);
    assert(once == Json::Object(m2));
    assert(twice == Json::Object(m4));
    assert(members_map(m4).dom() =~= members_map(m2).dom());
    assert(members_map(m4) =~= members_map(m0).insert(id_key, Json::Text(second_id)).insert(
        cat_key,
        Json::Text(second_category),
    ));
}

/// Enriching a value that is no object gives an object of exactly three
/// members: the packet identifier, the category, and the value itself under
/// `data`.
pub proof fn lemma_enrich_scalar(data: Json, packet_id: Seq<char>, category: Seq<char>)
    requires
        !(data is Object),
    ensures
        ({
            let wrapped = enrich(data, packet_id, category);
            &&& wrapped is Object
            &&& wrapped->Object_0.len() == 3
            &&& unique_keys(wrapped->Object_0)
            &&& wrapped.fields().dom() == set!["packet_id"@, "category"@, "data"@]
            &&& wrapped.get("packet_id"@) == Some(Json::Text(packet_id))
            &&& wrapped.get("category"@) == Some(Json::Text(category))
            &&& wrapped.get("data"@) == Some(data)
        }),
{
    lemma_member_names_differ();
    lemma_scalar_members(data, packet_id, category);
    let wrapped = enrich(data, packet_id, category);
    assert(wrapped.fields().dom() =~= set!["packet_id"@, "category"@, "data"@]);
}

/// The category of an event.
pub fn category_for(event_type: &str, security: bool) -> (category: &'static str)
    ensures
        category@ == category_of(event_type@, security),
{
    if security {
        "security"
    } else if str_eq(event_type, "javascript_execution") {
        "javascript"
    } else {
        "general"
    }
}

/// Puts the packet identifier and the category into the data of an event.
pub fn insert_packet_and_category(event: ExtensionEvent, packet_id: &str, category: &str) -> (out:
    ExtensionEvent)
    ensures
        out@ == enriched(event@, packet_id@, category@),
{
    let ExtensionEvent { client_id, session_id, timestamp, user_agent, event_type, data } = event;
    let data = match data {
        JsonValue::Object(mut entries) => {
            insert_member(&mut entries, String::from_str("packet_id"), JsonValue::text(packet_id));
            insert_member(&mut entries, String::from_str("category"), JsonValue::text(category));
            JsonValue::Object(entries)
        },
        other => {
            let ghost model = other@;
            let mut entries = no_members();
            push_member(&mut entries, "packet_id", JsonValue::text(packet_id));
            push_member(&mut entries, "category", JsonValue::text(category));
            push_member(&mut entries, "data", other);
            assert(members_view(entries@) =~= enrich(model, packet_id@, category@)->Object_0);
            JsonValue::Object(entries)
        },
    };
    ExtensionEvent { client_id, session_id, timestamp, user_agent, event_type, data }
}

/// Builds the answer to an event that was received.
pub fn event_received(packet_id: &str, client_ip: &str) -> (reply: Reply)
    ensures
        reply@ == event_reply(packet_id@, client_ip@),
{
    let mut members = no_members();
    push_member(&mut members, "success", JsonValue::Bool(true));
    push_member(&mut members, "packet_id", JsonValue::text(packet_id));
    push_member(&mut members, "client_ip", JsonValue::text(client_ip));
    assert(members_view(members@) =~= event_reply(packet_id@, client_ip@).body->Object_0);
    Reply { status: 200, body: JsonValue::Object(members) }
}

/// Makes an event ready for the store under the packet identifier issued
/// for it: the event with identifier and category in its data, and the
/// answer that names the identifier.
pub fn tag_event(event: ExtensionEvent, packet_id: &str, security: bool, client_ip: &str) -> (out: (
    ExtensionEvent,
    Reply,
))
    ensures
        out.0@ == enriched(event@, packet_id@, category_of(event@.event_type, security)),
        out.1@ == event_reply(packet_id@, client_ip@),
{
    let category = category_for(event.event_type.as_str(), security);
    let tagged = insert_packet_and_category(event, packet_id, category);
    (tagged, event_received(packet_id, client_ip))
}

/// What is to be done with a decoded event, given the number that its packet
/// identifier will carry: some timestamp of eight digits, a hyphen and six
/// digits completes the identifier, the event goes to the store with
/// identifier and category in its data, and the answer names the
/// identifier.
pub open spec fn event_step(
    step: Step<ExtensionEvent>,
    event: ExtensionEventView,
    number: nat,
    security: bool,
    client_ip: Seq<char>,
) -> bool {
    exists|stamp: Seq<char>|
        {
            let id = #[trigger] packet_id_text(stamp, number);
            &&& is_stamp(stamp)
            &&& step matches Step::Store { item, on_success }
            &&& item@ == enriched(event, id, category_of(event.event_type, security))
            &&& on_success@ == event_reply(id, client_ip)
        }
}

/// Receives an event where the store is a database.
///
/// `parsed` is the decoded body, or what the decoder said against it. A body
/// that did not decode is answered with status 400 and no identifier is
/// issued. An event is given the next packet identifier and its category
/// (`security` if `security` is set) and is handed back to be stored.
pub fn prepare_event(
    counter: &mut PacketCounter,
    client_ip: &str,
    parsed: Result<ExtensionEvent, String>,
    security: bool,
) -> (step: Step<ExtensionEvent>)
    ensures
        match parsed {
            Ok(event) => {
                &&& event_step(step, event@, old(counter).upcoming(), security, client_ip@)
                &&& final(counter).upcoming() == old(counter).upcoming() + 1
            },
            Err(detail) => {
                &&& step matches Step::Answer(reply)
                &&& reply@ == invalid_json_reply(detail@)
                &&& final(counter).upcoming() == old(counter).upcoming()
            },
        },
{
    match parsed {
        Err(detail) => Step::Answer(invalid_json(detail.as_str())),
        Ok(event) => {
            let ghost number = counter.upcoming();
            let packet_id = next_packet_id(counter);
            let (item, on_success) = tag_event(event, packet_id.as_str(), security, client_ip);
            proof {
                let stamp = choose|stamp: Seq<char>|
                    is_stamp(stamp) && packet_id@ == #[trigger] packet_id_text(stamp, number);
                assert(is_stamp(stamp) && packet_id@ == packet_id_text(stamp, number));
            }
            Step::Store { item, on_success }
        },
    }
}

/// What the store and the answer are after a decoded event came in, given
/// the number that its packet identifier carries.
pub open spec fn event_stored(
    held_before: Seq<ExtensionEventView>,
    held_after: Seq<ExtensionEventView>,
    reply: ReplyView,
    event: ExtensionEventView,
    number: nat,
    security: bool,
    client_ip: Seq<char>,
) -> bool {
    exists|stamp: Seq<char>|
        {
            let id = #[trigger] packet_id_text(stamp, number);
            &&& is_stamp(stamp)
            &&& reply == event_reply(id, client_ip)
            &&& held_after == append_bounded(
                held_before,
                enriched(event, id, category_of(event.event_type, security)),
                MAX_EVENTS as nat,
            )
        }
}

/// Carries out a step in simple mode: an event that is handed over goes to
/// the end of the store and its answer is given; an answer that is ready is
/// given as it is and the store stays.
pub fn store_prepared(events: &mut EventStore, step: Step<ExtensionEvent>) -> (reply: Reply)
    ensures
        match step {
            Step::Answer(ready) => {
                &&& reply == ready
                &&& final(events)@ == old(events)@
            },
            Step::Store { item, on_success } => {
                &&& reply == on_success
                &&& final(events)@ == append_bounded(old(events)@, item@, MAX_EVENTS as nat)
            },
        },
{
    match step {
        Step::Answer(ready) => ready,
        Step::Store { item, on_success } => {
            events.add(item);
            on_success
        },
    }
}

fn receive_event(
    events: &mut EventStore,
    counter: &mut PacketCounter,
    client_ip: &str,
    parsed: Result<ExtensionEvent, String>,
    security: bool,
) -> (reply: Reply)
    ensures
        match parsed {
            Ok(event) => {
                &&& event_stored(
                    old(events)@,
                    final(events)@,
                    reply@,
                    event@,
                    old(counter).upcoming(),
                    security,
                    client_ip@,
                )
                &&& final(counter).upcoming() == old(counter).upcoming() + 1
            },
            Err(detail) => {
                &&& reply@ == invalid_json_reply(detail@)
                &&& final(events)@ == old(events)@
                &&& final(counter).upcoming() == old(counter).upcoming()
            },
        },
{
    let ghost number = counter.upcoming();
    let step = prepare_event(counter, client_ip, parsed, security);
    proof {
        if parsed is Ok {
            let event = parsed->Ok_0@;
            let stamp = choose|stamp: Seq<char>|
                {
                    let id = #[trigger] packet_id_text(stamp, number);
                    &&& is_stamp(stamp)
                    &&& step matches Step::Store { item, on_success }
                    &&& item@ == enriched(event, id, category_of(event.event_type, security))
                    &&& on_success@ == event_reply(id, client_ip@)
                };
            assert(is_stamp(stamp) && step->Store_item@ == enriched(
                event,
                packet_id_text(stamp, number),
                category_of(event.event_type, security),
            ));
        }
    }
    store_prepared(events, step)
}

/// Receives an extension event in simple mode: the event is given the next
/// packet identifier and the category `javascript` or `general`, and is
/// stored. A body that did not decode is answered with status 400 and
/// changes nothing.
pub fn post_extensions_simple(
    events: &mut EventStore,
    counter: &mut PacketCounter,
    client_ip: &str,
    parsed: Result<ExtensionEvent, String>,
) -> (reply: Reply)
    ensures
        match parsed {
            Ok(event) => {
                &&& event_stored(
                    old(events)@,
                    final(events)@,
                    reply@,
                    event@,
                    old(counter).upcoming(),
                    false,
                    client_ip@,
                )
                &&& final(counter).upcoming() == old(counter).upcoming() + 1
            },
            Err(detail) => {
                &&& reply@ == invalid_json_reply(detail@)
                &&& final(events)@ == old(events)@
                &&& final(counter).upcoming() == old(counter).upcoming()
            },
        },
{
    receive_event(events, counter, client_ip, parsed, false)
}

/// Receives a security report in simple mode: as an extension event, but
/// the category is `security` whatever the event type.
pub fn post_security_simple(
    events: &mut EventStore,
    counter: &mut PacketCounter,
    client_ip: &str,
    parsed: Result<ExtensionEvent, String>,
) -> (reply: Reply)
    ensures
        match parsed {
            Ok(event) => {
                &&& event_stored(
                    old(events)@,
                    final(events)@,
                    reply@,
                    event@,
                    old(counter).upcoming(),
                    true,
                    client_ip@,
                )
                &&& final(counter).upcoming() == old(counter).upcoming() + 1
            },
            Err(detail) => {
                &&& reply@ == invalid_json_reply(detail@)
                &&& final(events)@ == old(events)@
                &&& final(counter).upcoming() == old(counter).upcoming()
            },
        },
{
    receive_event(events, counter, client_ip, parsed, true)
}

/// Receives an extension event where the store is a database: the event,
/// with its packet identifier and the category `javascript` or `general`, is
/// handed back to be written, with the answer for when it has been.
pub fn post_extensions_production(
    counter: &mut PacketCounter,
    client_ip: &str,
    parsed: Result<ExtensionEvent, String>,
) -> (step: Step<ExtensionEvent>)
    ensures
        match parsed {
            Ok(event) => {
                &&& event_step(step, event@, old(counter).upcoming(), false, client_ip@)
                &&& final(counter).upcoming() == old(counter).upcoming() + 1
            },
            Err(detail) => {
                &&& step matches Step::Answer(reply)
                &&& reply@ == invalid_json_reply(detail@)
                &&& final(counter).upcoming() == old(counter).upcoming()
            },
        },
{
    prepare_event(counter, client_ip, parsed, false)
}

/// Receives a security report where the store is a database: as an
/// extension event, but the category is `security`.
pub fn post_security_production(
    counter: &mut PacketCounter,
    client_ip: &str,
    parsed: Result<ExtensionEvent, String>,
) -> (step: Step<ExtensionEvent>)
    ensures
        match parsed {
            Ok(event) => {
                &&& event_step(step, event@, old(counter).upcoming(), true, client_ip@)
                &&& final(counter).upcoming() == old(counter).upcoming() + 1
            },
            Err(detail) => {
                &&& step matches Step::Answer(reply)
                &&& reply@ == invalid_json_reply(detail@)
                &&& final(counter).upcoming() == old(counter).upcoming()
            },
        },
{
    prepare_event(counter, client_ip, parsed, true)
}

/// Whether the events carry packet identifiers that one counter issued in
/// turn: event `i` holds, as the text of its `packet_id`, the identifier of
/// `stamps[i]` and `numbers[i]`; the numbers go up along the list and stay
/// below `upcoming`.
pub open spec fn issued_in_turn(
    events: Seq<ExtensionEventView>,
    stamps: Seq<Seq<char>>,
    numbers: Seq<nat>,
    upcoming: nat,
) -> bool {
    &&& stamps.len() == events.len()
    &&& numbers.len() == events.len()
    &&& forall|i: int|
        0 <= i < events.len() ==> (#[trigger] events[i]).data.text_at("packet_id"@) == Some(
            packet_id_text(stamps[i], numbers[i]),
        )
    &&& forall|i: int| 0 <= i < events.len() ==> #[trigger] numbers[i] < upcoming
    &&& forall|i: int, j: int|
        0 <= i < j < events.len() ==> #[trigger] numbers[i] < #[trigger] numbers[j]
}

/// A store whose events were issued their identifiers in turn stays so when
/// an event comes in under the upcoming number: the identifiers held are
/// those of the most recent events, their numbers still go up, and the
/// counter has moved past all of them.
pub proof fn lemma_issued_in_turn_step(
    held: Seq<ExtensionEventView>,
    stamps: Seq<Seq<char>>,
    numbers: Seq<nat>,
    upcoming: nat,
    event: ExtensionEventView,
    stamp: Seq<char>,
    category: Seq<char>,
)
    requires
        issued_in_turn(held, stamps, numbers, upcoming),
    ensures
        issued_in_turn(
            append_bounded(
                held,
                enriched(event, packet_id_text(stamp, upcoming), category),
                MAX_EVENTS as nat,
            ),
            append_bounded(stamps, stamp, MAX_EVENTS as nat),
            append_bounded(numbers, upcoming, MAX_EVENTS as nat),
            upcoming + 1,
        ),
{
    let id = packet_id_text(stamp, upcoming);
    let tagged = enriched(event, id, category);
    lemma_enrich_members(event.data, id, category);
    let cap = MAX_EVENTS as nat;
    let after = append_bounded(held, tagged, cap);
    let stamps_after = append_bounded(stamps, stamp, cap);
    let numbers_after = append_bounded(numbers, upcoming, cap);
    let grown = held.push(tagged);
    let drop = if grown.len() <= cap {
        0int
    } else {
        grown.len() - cap
    };
    assert forall|i: int| 0 <= i < after.len() implies after[i] == grown[i + drop]
        && stamps_after[i] == stamps.push(stamp)[i + drop] && numbers_after[i] == numbers.push(
        upcoming,
    )[i + drop] by {}
    assert forall|i: int| 0 <= i < after.len() implies (#[trigger] after[i]).data.text_at(
        "packet_id"@,
    ) == Some(packet_id_text(stamps_after[i], numbers_after[i])) by {
        if i + drop < held.len() {
            assert(held[i + drop].data.text_at("packet_id"@) == Some(
                packet_id_text(stamps[i + drop], numbers[i + drop]),
            ));
        }
    }
    assert forall|i: int| 0 <= i < after.len() implies #[trigger] numbers_after[i] < upcoming
        + 1 by {
        if i + drop < held.len() {
            assert(numbers[i + drop] < upcoming);
        }
    }
    assert forall|i: int, j: int| 0 <= i < j < after.len() implies #[trigger] numbers_after[i]
        < #[trigger] numbers_after[j] by {
        if j + drop < held.len() {
            assert(numbers[i + drop] < numbers[j + drop]);
        } else {
            assert(numbers[i + drop] < upcoming);
        }
    }
}

/// Events that were issued their identifiers in turn carry identifiers that
/// differ from one another.
pub proof fn lemma_issued_ids_are_unique(
    events: Seq<ExtensionEventView>,
    stamps: Seq<Seq<char>>,
    numbers: Seq<nat>,
    upcoming: nat,
)
    requires
        issued_in_turn(events, stamps, numbers, upcoming),
    ensures
        forall|i: int, j: int|
            0 <= i < j < events.len() ==> (#[trigger] events[i]).data.text_at("packet_id"@) != (
            #[trigger] events[j]).data.text_at("packet_id"@),
{
    assert forall|i: int, j: int| 0 <= i < j < events.len() implies (
    #[trigger] events[i]).data.text_at("packet_id"@) != (#[trigger] events[j]).data.text_at(
        "packet_id"@,
    ) by {
        assert(numbers[i] < numbers[j]);
        lemma_packet_ids_differ(stamps[i], numbers[i], stamps[j], numbers[j]);
    }
}

} // verus!
