//! The read side: events as the dashboard lists them, one event by its
//! identifier, and the clients that were seen.

use vstd::prelude::*;
use vstd::hash_set::StringHashSet;
use crate::json::{items_view, members_view, no_members, push_member, Json, JsonValue};
use crate::reply::{Reply, ReplyView};
use crate::simple::{events_view, EventStore};
use crate::text::{
    all_digits, chars_of, decimal, decimal_string, digit_value, digits_value, first_index_of,
    index_of_char, is_digit, is_part, is_whitespace, least_index, lemma_first_index_found,
    lemma_least_index, lemma_least_index_found, lemma_part_of_part, lemma_trimmed, str_eq,
    trim, trimmed,
};
use crate::types::{opt_text, ExtensionEvent, ExtensionEventView};

verus! {

/// Whether `c` ends the host part of a URL: the start of a path, of a query
/// or of a fragment.
pub open spec fn is_delimiter(c: char) -> bool {
    c == '/' || c == '?' || c == '#'
}

/// The place of the first delimiter in `s`, or the length of `s`.
pub open spec fn first_delimiter(s: Seq<char>) -> int {
    least_index(s.len() as int, |i: int| is_delimiter(s[i]))
}

/// Whether `://` stands at place `i` of `s`.
pub open spec fn is_scheme_mark(s: Seq<char>, i: int) -> bool {
    &&& 0 <= i
    &&& i + 3 <= s.len()
    &&& s[i] == ':'
    &&& s[i + 1] == '/'
    &&& s[i + 2] == '/'
}

/// The place of the first `://` in `s`, or the length of `s`.
pub open spec fn scheme_mark(s: Seq<char>) -> int {
    least_index(s.len() as int, |i: int| is_scheme_mark(s, i))
}

/// Whether `s` begins with a scheme: `://` stands in it, and none of `/`,
/// `?` and `#` stands before that. A `://` further on, in a path or a
/// query, is no scheme.
pub open spec fn has_leading_scheme(s: Seq<char>) -> bool {
    scheme_mark(s) < s.len() && scheme_mark(s) < first_delimiter(s)
}

/// `s` without its leading scheme and the `://` after it; all of `s` where
/// it begins with none.
pub open spec fn after_scheme(s: Seq<char>) -> Seq<char> {
    if has_leading_scheme(s) {
        s.skip(scheme_mark(s) + 3)
    } else {
        s
    }
}

/// What stands in `rest` before the first of `/`, `?` and `#`, and there
/// before the first `:`.
pub open spec fn host_name(rest: Seq<char>) -> Seq<char> {
    let host = rest.take(first_delimiter(rest));
    host.take(first_index_of(host, ':'))
}

/// The domain that a URL names, if any: of the trimmed text, what follows
/// the leading scheme, up to the first of `/`, `?` and `#`, up to the first
/// `:`, trimmed again; nothing where the text or the result is empty.
pub open spec fn domain_of(url: Seq<char>) -> Option<Seq<char>> {
    let text = trimmed(url);
    if text.len() == 0 {
        None
    } else {
        let domain = trimmed(host_name(after_scheme(text)));
        if domain.len() == 0 {
            None
        } else {
            Some(domain)
        }
    }
}

proof fn lemma_host_name_clean(rest: Seq<char>)
    ensures
        forall|i: int|
            0 <= i < host_name(rest).len() ==> !is_delimiter(#[trigger] host_name(rest)[i])
                && host_name(rest)[i] != ':',
{
    let cut = first_delimiter(rest);
    let holds = |i: int| is_delimiter(rest[i]);
    lemma_least_index_found(rest.len() as int, holds);
    let host = rest.take(cut);
    lemma_first_index_found(host, ':');
    let name = host_name(rest);
    assert forall|i: int| 0 <= i < name.len() implies !is_delimiter(#[trigger] name[i]) && name[i]
        != ':' by {
        assert(name[i] == host[i]);
        assert(host[i] == rest[i]);
        assert(!holds(i));
    }
}

proof fn lemma_part_is_clean(name: Seq<char>, part: Seq<char>)
    requires
        forall|i: int|
            0 <= i < name.len() ==> !is_delimiter(#[trigger] name[i]) && name[i] != ':',
        exists|from: int, to: int|
            0 <= from <= to <= name.len() && part == #[trigger] name.subrange(from, to),
    ensures
        forall|i: int|
            0 <= i < part.len() ==> !is_delimiter(#[trigger] part[i]) && part[i] != ':',
{
    let (from, to) = choose|from: int, to: int|
        0 <= from <= to <= name.len() && part == #[trigger] name.subrange(from, to);
    assert forall|i: int| 0 <= i < part.len() implies !is_delimiter(#[trigger] part[i]) && part[i]
        != ':' by {
        assert(part[i] == name[from + i]);
    }
}

/// A domain is not empty, neither starts nor ends with white space, and
/// holds none of `/`, `?`, `#` and `:`.
pub proof fn lemma_domain_shape(url: Seq<char>)
    ensures
        match domain_of(url) {
            Some(domain) => {
                &&& domain.len() > 0
                &&& !is_whitespace(domain.first())
                &&& !is_whitespace(domain.last())
                &&& forall|i: int|
                    0 <= i < domain.len() ==> !is_delimiter(#[trigger] domain[i]) && domain[i]
                        != ':'
            },
            None => true,
        },
{
    let text = trimmed(url);
    if text.len() > 0 {
        let name = host_name(after_scheme(text));
        lemma_host_name_clean(after_scheme(text));
        lemma_trimmed(name);
        lemma_part_is_clean(name, trimmed(name));
    }
}

/// `first_delimiter` is `at` where a delimiter stands at `at`, or `at` is
/// the length of `s`, and none stands before `at`.
pub proof fn lemma_first_delimiter(s: Seq<char>, at: int)
    requires
        0 <= at <= s.len(),
        at < s.len() ==> is_delimiter(s[at]),
        forall|k: int| 0 <= k < at ==> !is_delimiter(#[trigger] s[k]),
    ensures
        first_delimiter(s) == at,
{
    lemma_least_index(s.len() as int, |i: int| is_delimiter(s[i]), at);
}

/// `scheme_mark` is `at` where `://` stands at `at`, or `at` is the length
/// of `s`, and `://` stands nowhere before `at`.
pub proof fn lemma_scheme_mark(s: Seq<char>, at: int)
    requires
        0 <= at <= s.len(),
        at < s.len() ==> is_scheme_mark(s, at),
        forall|k: int| 0 <= k < at ==> !#[trigger] is_scheme_mark(s, k),
    ensures
        scheme_mark(s) == at,
{
    lemma_least_index(s.len() as int, |i: int| is_scheme_mark(s, i), at);
}

/// A `://` that comes after a `/`, `?` or `#` is left where it is: the text
/// has no leading scheme.
pub proof fn lemma_mark_after_delimiter(text: Seq<char>)
    requires
        first_delimiter(text) < scheme_mark(text),
    ensures
        after_scheme(text) == text,
        host_name(after_scheme(text)) == host_name(text),
{
}

proof fn lemma_after_scheme_is_part(text: Seq<char>)
    ensures
        is_part(after_scheme(text), text),
{
    let holds = |i: int| is_scheme_mark(text, i);
    lemma_least_index_found(text.len() as int, holds);
    if has_leading_scheme(text) {
        let mark = scheme_mark(text);
        assert(holds(mark));
        assert(after_scheme(text) == text.subrange(mark + 3, text.len() as int));
    } else {
        assert(after_scheme(text) =~= text.subrange(0, text.len() as int));
    }
}

proof fn lemma_host_name_is_part(rest: Seq<char>)
    ensures
        is_part(host_name(rest), rest),
{
    lemma_least_index_found(rest.len() as int, |i: int| is_delimiter(rest[i]));
    let host = rest.take(first_delimiter(rest));
    lemma_first_index_found(host, ':');
    assert(host_name(rest) =~= rest.subrange(0, first_index_of(host, ':')));
}

/// A domain is a stretch of the text it was taken from: nothing is added
/// to it and nothing within it is left out.
pub proof fn lemma_domain_is_part(url: Seq<char>)
    ensures
        match domain_of(url) {
            Some(domain) => is_part(domain, url),
            None => true,
        },
{
    let text = trimmed(url);
    if text.len() > 0 {
        let rest = after_scheme(text);
        let name = host_name(rest);
        lemma_trimmed(url);
        lemma_after_scheme_is_part(text);
        lemma_host_name_is_part(rest);
        lemma_trimmed(name);
        lemma_part_of_part(trimmed(name), name, rest);
        lemma_part_of_part(trimmed(name), rest, text);
        lemma_part_of_part(trimmed(name), text, url);
    }
}

fn index_of_delimiter(s: &str) -> (at: usize)
    ensures
        at == first_delimiter(s@),
        at <= s@.len(),
{
    let chars = chars_of(s);
    let mut i: usize = 0;
    while i < chars.len() && !(chars[i] == '/' || chars[i] == '?' || chars[i] == '#')
        invariant
            i <= chars.len(),
            chars@ == s@,
            forall|k: int| 0 <= k < i ==> !is_delimiter(s@[k]),
        decreases chars.len() - i,
    {
        i += 1;
    }
    proof {
        lemma_first_delimiter(s@, i as int);
    }
    i
}

fn index_of_scheme_mark(s: &str) -> (at: usize)
    ensures
        at == scheme_mark(s@),
        at < s@.len() ==> at + 3 <= s@.len(),
        at <= s@.len(),
{
    let chars = chars_of(s);
    let len: usize = chars.len();
    let mut i: usize = 0;
    while i < len && !(len - i >= 3 && chars[i] == ':' && chars[i + 1] == '/' && chars[i + 2]
        == '/')
        invariant
            i <= len,
            len == chars.len(),
            chars@ == s@,
            forall|k: int| 0 <= k < i ==> !is_scheme_mark(s@, k),
        decreases len - i,
    {
        i += 1;
    }
    proof {
        lemma_scheme_mark(s@, i as int);
    }
    i
}

fn after_scheme_mark(text: &str) -> (rest: &str)
    ensures
        rest@ == after_scheme(text@),
{
    let mark = index_of_scheme_mark(text);
    let len = text.unicode_len();
    if mark < len && mark < index_of_delimiter(text) {
        text.substring_char(mark + 3, len)
    } else {
        text
    }
}

fn host_name_of(rest: &str) -> (name: &str)
    ensures
        name@ == host_name(rest@),
{
    let host = rest.substring_char(0, index_of_delimiter(rest));
    host.substring_char(0, index_of_char(host, ':'))
}

/// The domain that a URL names, if any.
pub fn domain_from_url(s: &str) -> (domain: Option<String>)
    ensures
        opt_text(domain) == domain_of(s@),
{
    let text = trim(s);
    if text.unicode_len() == 0 {
        return None;
    }
    let name = trim(host_name_of(after_scheme_mark(text)));
    if name.unicode_len() == 0 {
        None
    } else {
        Some(String::from_str(name))
    }
}

/// The domain named by the text under `key` of an event's data, if any.
pub open spec fn domain_at(data: Json, key: Seq<char>) -> Option<Seq<char>> {
    match data.text_at(key) {
        Some(url) => domain_of(url),
        None => None,
    }
}

/// The domain of the page that an event came from: that of `url`, else that
/// of `host`, else empty.
pub open spec fn page_domain(data: Json) -> Seq<char> {
    match domain_at(data, "url"@) {
        Some(domain) => domain,
        None => match domain_at(data, "host"@) {
            Some(domain) => domain,
            None => Seq::empty(),
        },
    }
}

/// The domain of the script that an event names: that of `scriptUrl`, else
/// empty.
pub open spec fn script_domain(data: Json) -> Seq<char> {
    match domain_at(data, "scriptUrl"@) {
        Some(domain) => domain,
        None => Seq::empty(),
    }
}

fn domain_under(data: &JsonValue, key: &str) -> (domain: Option<String>)
    ensures
        opt_text(domain) == domain_at(data@, key@),
{
    match data.str_at(key) {
        Some(url) => domain_from_url(url),
        None => None,
    }
}

/// The page domain and the script domain of an event's data.
pub fn extract_domains(data: &JsonValue) -> (domains: (String, String))
    ensures
        domains.0@ == page_domain(data@),
        domains.1@ == script_domain(data@),
{
    let page = match domain_under(data, "url") {
        Some(domain) => domain,
        None => match domain_under(data, "host") {
            Some(domain) => domain,
            None => String::new(),
        },
    };
    let script = match domain_under(data, "scriptUrl") {
        Some(domain) => domain,
        None => String::new(),
    };
    (page, script)
}

/// The filter that a query string asks for: the value of the first of its
/// `&`-separated pieces that has a `=` with `filter` before it; `all` where
/// there is none.
pub open spec fn filter_of_query(query: Seq<char>) -> Seq<char>
    decreases query.len(),
{
    let end = first_index_of(query, '&');
    let piece = query.take(end);
    let eq = first_index_of(piece, '=');
    if eq < piece.len() && piece.take(eq) == "filter"@ {
        piece.skip(eq + 1)
    } else if 0 <= end < query.len() {
        filter_of_query(query.skip(end + 1))
    } else {
        "all"@
    }
}

/// The filter that a query string asks for.
pub fn filter_from_query(query: &str) -> (filter: String)
    ensures
        filter@ == filter_of_query(query@),
{
    let mut rest: &str = query;
    loop
        invariant
            filter_of_query(query@) == filter_of_query(rest@),
        decreases rest@.len(),
    {
        let rest_len = rest.unicode_len();
        let end = index_of_char(rest, '&');
        let piece = rest.substring_char(0, end);
        let piece_len = piece.unicode_len();
        let eq = index_of_char(piece, '=');
        if eq < piece_len && str_eq(piece.substring_char(0, eq), "filter") {
            return String::from_str(piece.substring_char(eq + 1, piece_len));
        }
        if end < rest_len {
            rest = rest.substring_char(end + 1, rest_len);
        } else {
            return String::from_str("all");
        }
    }
}

/// The category that an event was stored with; `general` where its data
/// names none.
pub open spec fn category_in(data: Json) -> Seq<char> {
    match data.text_at("category"@) {
        Some(category) => category,
        None => "general"@,
    }
}

/// Whether an event of `category` is listed under `filter`: `security` and
/// `javascript` list their own category, any other filter lists all.
pub open spec fn passes_filter(filter: Seq<char>, category: Seq<char>) -> bool {
    if filter == "security"@ {
        category == "security"@
    } else if filter == "javascript"@ {
        category == "javascript"@
    } else {
        true
    }
}

/// The identifier that an event is listed under: its packet identifier, or
/// `evt-` and its position from the newest where it has none.
pub open spec fn listed_id(data: Json, position: nat) -> Seq<char> {
    match data.text_at("packet_id"@) {
        Some(id) => if id.len() > 0 {
            id
        } else {
            seq!['e', 'v', 't', '-'] + decimal(position)
        },
        None => seq!['e', 'v', 't', '-'] + decimal(position),
    }
}

/// An optional text as JSON: the text, or null.
pub open spec fn opt_text_json(text: Option<Seq<char>>) -> Json {
    match text {
        Some(t) => Json::Text(t),
        None => Json::Null,
    }
}

/// The record that the dashboard lists for an event at `position` from the
/// newest.
pub open spec fn dashboard_record(event: ExtensionEventView, position: nat) -> Json {
    Json::Object(
        seq![
            ("packet_id"@, Json::Text(listed_id(event.data, position))),
            ("event_type"@, Json::Text(event.event_type)),
            ("category"@, Json::Text(category_in(event.data))),
            ("page_domain"@, Json::Text(page_domain(event.data))),
            ("script_domain"@, Json::Text(script_domain(event.data))),
            ("client_id"@, opt_text_json(event.client_id)),
            ("session_id"@, Json::Text(event.session_id)),
            ("timestamp"@, Json::Text(event.timestamp)),
            ("user_agent"@, Json::Text(event.user_agent)),
        ],
    )
}

/// The records of those of the `count` newest events that pass the filter,
/// newest first. An event keeps its position from the newest whether or not
/// the events before it are listed.
pub open spec fn dashboard_records(
    events: Seq<ExtensionEventView>,
    filter: Seq<char>,
    count: nat,
) -> Seq<Json>
    decreases count,
{
    if count == 0 {
        Seq::empty()
    } else {
        let position = (count - 1) as nat;
        let newer = dashboard_records(events, filter, position);
        let event = events[events.len() - count];
        if passes_filter(filter, category_in(event.data)) {
            newer.push(dashboard_record(event, position))
        } else {
            newer
        }
    }
}

/// The answer that lists the events: status 200 and the records under
/// `events`.
pub open spec fn events_reply(events: Seq<ExtensionEventView>, filter: Seq<char>) -> ReplyView {
    ReplyView {
        status: 200,
        body: Json::Object(
            seq![("events"@, Json::Array(dashboard_records(events, filter, events.len())))],
        ),
    }
}

fn filter_admits(filter: &str, category: &str) -> (yes: bool)
    ensures
        yes == passes_filter(filter@, category@),
{
    if str_eq(filter, "security") {
        str_eq(category, "security")
    } else if str_eq(filter, "javascript") {
        str_eq(category, "javascript")
    } else {
        true
    }
}

fn opt_text_value(text: &Option<String>) -> (value: JsonValue)
    ensures
        value@ == opt_text_json(opt_text(*text)),
{
    match text {
        Some(t) => JsonValue::String(t.clone()),
        None => JsonValue::Null,
    }
}

fn listed_packet_id(data: &JsonValue, position: usize) -> (id: String)
    ensures
        id@ == listed_id(data@, position as nat),
{
    proof {
        reveal_strlit("evt-");
    }
    let stored = match data.str_at("packet_id") {
        Some(id) => if id.unicode_len() > 0 {
            Some(id)
        } else {
            None
        },
        None => None,
    };
    match stored {
        Some(id) => String::from_str(id),
        None => {
            let mut id = String::from_str("evt-");
            id.append(decimal_string(position as u64).as_str());
            assert(id@ =~= seq!['e', 'v', 't', '-'] + decimal(position as nat));
            id
        },
    }
}

fn stored_category(data: &JsonValue) -> (category: String)
    ensures
        category@ == category_in(data@),
{
    match data.str_at("category") {
        Some(c) => String::from_str(c),
        None => String::from_str("general"),
    }
}

fn assemble_record(
    packet_id: JsonValue,
    event_type: JsonValue,
    category: JsonValue,
    page: JsonValue,
    script: JsonValue,
    client_id: JsonValue,
    session_id: JsonValue,
    timestamp: JsonValue,
    user_agent: JsonValue,
) -> (record: JsonValue)
    ensures
        record@ == Json::Object(
            seq![
                ("packet_id"@, packet_id@),
                ("event_type"@, event_type@),
                ("category"@, category@),
                ("page_domain"@, page@),
                ("script_domain"@, script@),
                ("client_id"@, client_id@),
                ("session_id"@, session_id@),
                ("timestamp"@, timestamp@),
                ("user_agent"@, user_agent@),
            ],
        ),
{
    let mut members = no_members();
    push_member(&mut members, "packet_id", packet_id);
    push_member(&mut members, "event_type", event_type);
    push_member(&mut members, "category", category);
    push_member(&mut members, "page_domain", page);
    push_member(&mut members, "script_domain", script);
    push_member(&mut members, "client_id", client_id);
    push_member(&mut members, "session_id", session_id);
    push_member(&mut members, "timestamp", timestamp);
    push_member(&mut members, "user_agent", user_agent);
    assert(members_view(members@) =~= seq![
        ("packet_id"@, packet_id@),
        ("event_type"@, event_type@),
        ("category"@, category@),
        ("page_domain"@, page@),
        ("script_domain"@, script@),
        ("client_id"@, client_id@),
        ("session_id"@, session_id@),
        ("timestamp"@, timestamp@),
        ("user_agent"@, user_agent@),
    ]);
    JsonValue::Object(members)
}

fn record_of(event: &ExtensionEvent, position: usize) -> (record: JsonValue)
    ensures
        record@ == dashboard_record(event@, position as nat),
{
    let packet_id = JsonValue::string(listed_packet_id(&event.data, position));
    let event_type = JsonValue::string(event.event_type.clone());
    let category = JsonValue::string(stored_category(&event.data));
    let (page, script) = extract_domains(&event.data);
    let client_id = opt_text_value(&event.client_id);
    let session_id = JsonValue::string(event.session_id.clone());
    let timestamp = JsonValue::string(event.timestamp.clone());
    let user_agent = JsonValue::string(event.user_agent.clone());
    assemble_record(
        packet_id,
        event_type,
        category,
        JsonValue::string(page),
        JsonValue::string(script),
        client_id,
        session_id,
        timestamp,
        user_agent,
    )
}

/// Lists events as the dashboard shows them: newest first, those that pass
/// `filter`.
pub fn list_events(events: &Vec<ExtensionEvent>, filter: &str) -> (reply: Reply)
    ensures
        reply@ == events_reply(events_view(events@), filter@),
{
    let ghost model = events_view(events@);
    let len: usize = events.len();
    let mut records: Vec<JsonValue> = Vec::new();
    let mut position: usize = 0;
    while position < len
        invariant
            position <= len,
            len == events.len(),
            model == events_view(events@),
            items_view(records@) == dashboard_records(model, filter@, position as nat),
        decreases len - position,
    {
        let event = &events[len - 1 - position];
        assert(event@ == model[len - (position + 1)]);
        let category = stored_category(&event.data);
        if filter_admits(filter, category.as_str()) {
            let record = record_of(event, position);
            let ghost before = items_view(records@);
            records.push(record);
            assert(items_view(records@) =~= before.push(record@));
        }
        position += 1;
    }
    let mut members = no_members();
    push_member(&mut members, "events", JsonValue::Array(records));
    assert(members_view(members@) =~= events_reply(model, filter@).body->Object_0);
    Reply { status: 200, body: JsonValue::Object(members) }
}

/// Answers the dashboard's request for the events: those held, newest
/// first, that pass the filter which the query string asks for.
pub fn get_dashboard_events_simple(events: &EventStore, query: &str) -> (reply: Reply)
    ensures
        reply@ == events_reply(events@, filter_of_query(query@)),
{
    let filter = filter_from_query(query);
    let held = events.list();
    list_events(&held, filter.as_str())
}

/// The position that an identifier of the form `evt-N` names: `N` is one
/// decimal digit or more, with or without a `+` before them.
pub open spec fn evt_number(id: Seq<char>) -> Option<nat> {
    if id.len() > 4 && id.take(4) == seq!['e', 'v', 't', '-'] {
        let digits = if id[4] == '+' {
            id.skip(5)
        } else {
            id.skip(4)
        };
        if digits.len() > 0 && all_digits(digits) {
            Some(digits_value(digits))
        } else {
            None
        }
    } else {
        None
    }
}

/// Whether an event carries `id` as its packet identifier.
pub open spec fn has_packet_id(event: ExtensionEventView, id: Seq<char>) -> bool {
    event.data.text_at("packet_id"@) == Some(id)
}

/// The place of the newest event that carries `id`, or -1 where none does.
pub open spec fn newest_with_id(events: Seq<ExtensionEventView>, id: Seq<char>) -> int
    decreases events.len(),
{
    if events.len() == 0 {
        -1
    } else if has_packet_id(events.last(), id) {
        events.len() - 1
    } else {
        newest_with_id(events.drop_last(), id)
    }
}

/// The place in `events` of the event that `id` names, or -1 where it names
/// none: for `evt-N` with `N` below the number of events, the event at
/// position `N` from the newest; else the newest event that carries `id` as
/// its packet identifier.
pub open spec fn find_event(events: Seq<ExtensionEventView>, id: Seq<char>) -> int {
    match evt_number(id) {
        Some(n) => if n < events.len() {
            events.len() - 1 - n
        } else {
            newest_with_id(events, id)
        },
        None => newest_with_id(events, id),
    }
}

/// The answer to a request for an event that is not held: status 404.
pub open spec fn not_found_reply(id: Seq<char>) -> ReplyView {
    ReplyView {
        status: 404,
        body: Json::Object(
            seq![("error"@, Json::Text("packet not found"@)), ("packet_id"@, Json::Text(id))],
        ),
    }
}

/// A longer run of digits denotes no smaller number than its start.
pub proof fn lemma_digits_value_grows(s: Seq<char>, n: int)
    requires
        0 <= n <= s.len(),
    ensures
        digits_value(s.take(n)) <= digits_value(s),
    decreases s.len() - n,
{
    if n < s.len() {
        lemma_digits_value_grows(s, n + 1);
        assert(s.take(n + 1).drop_last() =~= s.take(n));
    } else {
        assert(s.take(n) =~= s);
    }
}

fn digit_of(c: char) -> (d: Option<usize>)
    ensures
        match d {
            Some(v) => is_digit(c) && v == digit_value(c),
            None => !is_digit(c),
        },
{
    if c == '0' {
        Some(0)
    } else if c == '1' {
        Some(1)
    } else if c == '2' {
        Some(2)
    } else if c == '3' {
        Some(3)
    } else if c == '4' {
        Some(4)
    } else if c == '5' {
        Some(5)
    } else if c == '6' {
        Some(6)
    } else if c == '7' {
        Some(7)
    } else if c == '8' {
        Some(8)
    } else if c == '9' {
        Some(9)
    } else {
        None
    }
}

/// The position that `id` names as `evt-N`, where it is below `bound`.
pub fn position_below(id: &str, bound: usize) -> (position: Option<usize>)
    ensures
        match position {
            Some(n) => evt_number(id@) == Some(n as nat) && n < bound,
            None => match evt_number(id@) {
                Some(n) => n >= bound,
                None => true,
            },
        },
{
    let chars = chars_of(id);
    let len: usize = chars.len();
    if len <= 4 || chars[0] != 'e' || chars[1] != 'v' || chars[2] != 't' || chars[3] != '-' {
        assert(id@.len() > 4 ==> id@.take(4)[0] == id@[0] && id@.take(4)[1] == id@[1] && id@.take(
            4,
        )[2] == id@[2] && id@.take(4)[3] == id@[3]);
        return None;
    }
    assert(id@.take(4) =~= seq!['e', 'v', 't', '-']);
    let start: usize = if chars[4] == '+' {
        5
    } else {
        4
    };
    let ghost digits = id@.skip(start as int);
    if start == len {
        return None;
    }
    let mut value: usize = 0;
    let mut i: usize = start;
    assert(digits.take(0) =~= Seq::<char>::empty());
    while i < len
        invariant
            start <= i <= len,
            len == chars.len(),
            chars@ == id@,
            digits == id@.skip(start as int),
            id@.len() > 4,
            id@.take(4) == seq!['e', 'v', 't', '-'],
            start == if id@[4] == '+' {
                5int
            } else {
                4int
            },
            all_digits(digits.take(i - start)),
            value == digits_value(digits.take(i - start)),
            i > start ==> value < bound,
        decreases len - i,
    {
        let ghost seen = digits.take(i - start);
        let ghost next = digits.take(i + 1 - start);
        proof {
            assert(next.drop_last() =~= seen);
            assert(next.last() == chars[i as int]);
        }
        match digit_of(chars[i]) {
            None => {
                assert(!is_digit(digits[i - start]));
                return None;
            },
            Some(d) => {
                proof {
                    assert forall|k: int| 0 <= k < next.len() implies is_digit(
                        #[trigger] next[k],
                    ) by {
                        if k < seen.len() {
                            assert(seen[k] == next[k]);
                        }
                    }
                    lemma_digits_value_grows(digits, i + 1 - start);
                }
                let grown = match value.checked_mul(10) {
                    Some(tens) => tens.checked_add(d),
                    None => None,
                };
                match grown {
                    Some(v) => {
                        if v >= bound {
                            return None;
                        }
                        value = v;
                    },
                    None => {
                        return None;
                    },
                }
            },
        }
        i += 1;
    }
    assert(digits.take(len - start) =~= digits);
    Some(value)
}

fn carries_id(event: &ExtensionEvent, id: &str) -> (yes: bool)
    ensures
        yes == has_packet_id(event@, id@),
{
    match event.data.str_at("packet_id") {
        Some(stored) => str_eq(stored, id),
        None => false,
    }
}

/// The place in `events` of the event that `id` names, if it names one.
pub fn locate_event(events: &Vec<ExtensionEvent>, id: &str) -> (place: Option<usize>)
    ensures
        match place {
            Some(at) => at == find_event(events_view(events@), id@) && at < events.len(),
            None => find_event(events_view(events@), id@) == -1,
        },
{
    let ghost model = events_view(events@);
    let len: usize = events.len();
    match position_below(id, len) {
        Some(n) => {
            return Some(len - 1 - n);
        },
        None => {},
    }
    let mut i: usize = len;
    assert(model.take(len as int) =~= model);
    assert(find_event(model, id@) == newest_with_id(model, id@));
    while i > 0
        invariant
            i <= len,
            len == events.len(),
            model == events_view(events@),
            find_event(model, id@) == newest_with_id(model, id@),
            newest_with_id(model, id@) == newest_with_id(model.take(i as int), id@),
        decreases i,
    {
        i -= 1;
        proof {
            assert(model.take(i + 1).drop_last() =~= model.take(i as int));
            assert(model.take(i + 1).last() == events[i as int]@);
        }
        if carries_id(&events[i], id) {
            return Some(i);
        }
    }
    assert(model.take(0) =~= Seq::<ExtensionEventView>::empty());
    None
}

/// Builds the answer to a request for an event that is not held.
pub fn not_found(id: &str) -> (reply: Reply)
    ensures
        reply@ == not_found_reply(id@),
{
    let mut members = no_members();
    push_member(&mut members, "error", JsonValue::text("packet not found"));
    push_member(&mut members, "packet_id", JsonValue::text(id));
    assert(members_view(members@) =~= not_found_reply(id@).body->Object_0);
    Reply { status: 404, body: JsonValue::Object(members) }
}

/// Answers the dashboard's request for one event: the event that the
/// identifier names, or status 404 where it names none.
pub fn get_dashboard_packet_simple(events: &EventStore, packet_id: &str) -> (found: Result<
    ExtensionEvent,
    Reply,
>)
    ensures
        match found {
            Ok(event) => {
                let at = find_event(events@, packet_id@);
                &&& 0 <= at < events@.len()
                &&& event@ == events@[at]
            },
            Err(reply) => {
                &&& find_event(events@, packet_id@) == -1
                &&& reply@ == not_found_reply(packet_id@)
            },
        },
{
    let held = events.list();
    match locate_event(&held, packet_id) {
        Some(at) => Ok(held[at].clone()),
        None => Err(not_found(packet_id)),
    }
}

/// The client identifiers that occur among the events, each once, in the
/// order in which they first occur. An event without a client identifier, or
/// with an empty one, adds none.
pub open spec fn distinct_clients(events: Seq<ExtensionEventView>) -> Seq<Seq<char>>
    decreases events.len(),
{
    if events.len() == 0 {
        Seq::empty()
    } else {
        let earlier = distinct_clients(events.drop_last());
        match events.last().client_id {
            Some(id) => if id.len() > 0 && !earlier.contains(id) {
                earlier.push(id)
            } else {
                earlier
            },
            None => earlier,
        }
    }
}

/// The texts of a list as JSON strings.
pub open spec fn texts_json(texts: Seq<Seq<char>>) -> Seq<Json> {
    texts.map_values(|t: Seq<char>| Json::Text(t))
}

/// The answer that lists the clients: status 200 and their identifiers
/// under `clients`.
pub open spec fn clients_reply(events: Seq<ExtensionEventView>) -> ReplyView {
    ReplyView {
        status: 200,
        body: Json::Object(
            seq![("clients"@, Json::Array(texts_json(distinct_clients(events))))],
        ),
    }
}

/// The list of clients names each client once, and names exactly the
/// identifiers that are not empty and occur among the events.
pub proof fn lemma_distinct_clients(events: Seq<ExtensionEventView>)
    ensures
        distinct_clients(events).no_duplicates(),
        forall|id: Seq<char>| #[trigger]
            distinct_clients(events).contains(id) <==> id.len() > 0 && exists|i: int|
                0 <= i < events.len() && (#[trigger] events[i]).client_id == Some(id),
    decreases events.len(),
{
    if events.len() > 0 {
        let earlier_events = events.drop_last();
        let earlier = distinct_clients(earlier_events);
        let all = distinct_clients(events);
        let last = events.len() - 1;
        lemma_distinct_clients(earlier_events);
        assert forall|id: Seq<char>| #[trigger]
            all.contains(id) <==> id.len() > 0 && exists|i: int|
                0 <= i < events.len() && (#[trigger] events[i]).client_id == Some(id) by {
            if all.contains(id) {
                if earlier.contains(id) {
                    let i = choose|i: int|
                        0 <= i < earlier_events.len() && (#[trigger] earlier_events[i]).client_id
                            == Some(id);
                    assert(events[i].client_id == Some(id));
                } else {
                    let k = choose|k: int| 0 <= k < all.len() && all[k] == id;
                    assert(all == earlier.push(id)) by {
                        if k < earlier.len() {
                            assert(earlier[k] == id);
                        }
                    }
                    assert(events[last].client_id == Some(id));
                }
            }
            if id.len() > 0 && exists|i: int|
                0 <= i < events.len() && (#[trigger] events[i]).client_id == Some(id) {
                let i = choose|i: int|
                    0 <= i < events.len() && (#[trigger] events[i]).client_id == Some(id);
                if i < last {
                    assert(earlier_events[i].client_id == Some(id));
                    assert(earlier.contains(id));
                    let k = choose|k: int| 0 <= k < earlier.len() && earlier[k] == id;
                    assert(all[k] == id);
                } else {
                    if earlier.contains(id) {
                        let k = choose|k: int| 0 <= k < earlier.len() && earlier[k] == id;
                        assert(all[k] == id);
                    } else {
                        assert(all[earlier.len() as int] == id);
                    }
                }
            }
        }
    }
}

/// Lists the clients seen among the events.
pub fn list_clients(events: &Vec<ExtensionEvent>) -> (reply: Reply)
    ensures
        reply@ == clients_reply(events_view(events@)),
{
    let ghost model = events_view(events@);
    let ghost mut names: Seq<Seq<char>> = Seq::empty();
    let mut seen = StringHashSet::new();
    let mut clients: Vec<JsonValue> = Vec::new();
    let mut i: usize = 0;
    assert(model.take(0) =~= Seq::<ExtensionEventView>::empty());
    assert(items_view(clients@) =~= texts_json(names));
    while i < events.len()
        invariant
            i <= events.len(),
            model == events_view(events@),
            names == distinct_clients(model.take(i as int)),
            forall|id: Seq<char>| seen@.contains(id) <==> names.contains(id),
            items_view(clients@) == texts_json(names),
        decreases events.len() - i,
    {
        proof {
            assert(model.take(i + 1).drop_last() =~= model.take(i as int));
            assert(model.take(i + 1).last() == events[i as int]@);
        }
        match &events[i].client_id {
            Some(id) => {
                if id.as_str().unicode_len() > 0 && !seen.contains(id.as_str()) {
                    let ghost before = items_view(clients@);
                    seen.insert(id.clone());
                    clients.push(JsonValue::string(id.clone()));
                    proof {
                        let grown = names.push(id@);
                        assert forall|other: Seq<char>| seen@.contains(other) <==> grown.contains(
                            other,
                        ) by {
                            if names.contains(other) {
                                let k = choose|k: int| 0 <= k < names.len() && names[k] == other;
                                assert(grown[k] == other);
                            }
                            if other == id@ {
                                assert(grown[names.len() as int] == other);
                            }
                            if grown.contains(other) {
                                let k = choose|k: int| 0 <= k < grown.len() && grown[k] == other;
                                if k < names.len() {
                                    assert(names[k] == other);
                                }
                            }
                        }
                        assert(items_view(clients@) =~= before.push(Json::Text(id@)));
                        assert(texts_json(grown) =~= texts_json(names).push(Json::Text(id@)));
                        names = grown;
                    }
                }
            },
            None => {},
        }
        i += 1;
    }
    assert(model.take(i as int) =~= model);
    let mut members = no_members();
    push_member(&mut members, "clients", JsonValue::Array(clients));
    assert(members_view(members@) =~= clients_reply(model).body->Object_0);
    Reply { status: 200, body: JsonValue::Object(members) }
}

/// Answers the dashboard's request for the clients: the identifiers, each
/// once, of the clients that the events held come from.
pub fn get_dashboard_clients_simple(events: &EventStore) -> (reply: Reply)
    ensures
        reply@ == clients_reply(events@),
{
    let held = events.list();
    list_clients(&held)
}

} // verus!
