//! Receiving and listing batches of network logs.

use vstd::prelude::*;
use vstd::hash_set::StringHashSet;
use crate::json::{members_view, no_members, push_member, Json, JsonNumber, JsonValue};
use crate::reply::{invalid_json, invalid_json_reply, Reply, ReplyView, Step};
use crate::simple::{append_bounded, entries_view, LogStore, MAX_LOGS};
use crate::types::{LogEntry, LogEntryView, NetworkLogView};

verus! {

/// How many of the logs were blocked requests.
pub open spec fn blocked_count(logs: Seq<NetworkLogView>) -> nat {
    logs.filter(|l: NetworkLogView| l.blocked).len()
}

/// The URLs that occur among the logs.
pub open spec fn url_set(logs: Seq<NetworkLogView>) -> Set<Seq<char>> {
    Set::new(|u: Seq<char>| exists|i: int| 0 <= i < logs.len() && (#[trigger] logs[i]).url == u)
}

/// The counts reported for one batch.
#[derive(Clone, Copy, Debug, PartialEq, Eq, Structural)]
pub struct BatchSummary {
    pub logs_count: usize,
    pub blocked_count: usize,
    pub unique_urls: usize,
}

/// The answer to a batch that was received: status 200 and its counts.
pub open spec fn logs_reply(summary: BatchSummary, client_ip: Seq<char>) -> ReplyView {
    ReplyView {
        status: 200,
        body: Json::Object(
            seq![
                ("success"@, Json::Bool(true)),
                ("logs_count"@, Json::Number(JsonNumber::PosInt(summary.logs_count as u64))),
                ("blocked_count"@, Json::Number(JsonNumber::PosInt(summary.blocked_count as u64))),
                ("unique_urls"@, Json::Number(JsonNumber::PosInt(summary.unique_urls as u64))),
                ("client_ip"@, Json::Text(client_ip)),
            ],
        ),
    }
}

/// The counts of a batch.
pub open spec fn batch_summary(logs: Seq<NetworkLogView>) -> BatchSummary {
    BatchSummary {
        logs_count: logs.len() as usize,
        blocked_count: blocked_count(logs) as usize,
        unique_urls: url_set(logs).len() as usize,
    }
}

/// What the store holds after a batch came in: a batch without logs is
/// answered and not kept.
pub open spec fn logs_after(held: Seq<LogEntryView>, entry: LogEntryView) -> Seq<LogEntryView> {
    if entry.logs.len() == 0 {
        held
    } else {
        append_bounded(held, entry, MAX_LOGS as nat)
    }
}

proof fn lemma_blocked_count_step(logs: Seq<NetworkLogView>, i: int)
    requires
        0 <= i < logs.len(),
    ensures
        blocked_count(logs.take(i + 1)) == blocked_count(logs.take(i)) + if logs[i].blocked {
            1nat
        } else {
            0nat
        },
{
    reveal(Seq::filter);
    assert(logs.take(i + 1).drop_last() =~= logs.take(i));
}

proof fn lemma_url_set_step(logs: Seq<NetworkLogView>, i: int)
    requires
        0 <= i < logs.len(),
    ensures
        url_set(logs.take(i + 1)) == url_set(logs.take(i)).insert(logs[i].url),
{
    let next = logs.take(i + 1);
    let prev = logs.take(i);
    assert forall|u: Seq<char>| url_set(next).contains(u) implies url_set(prev).insert(
        logs[i].url,
    ).contains(u) by {
        let k = choose|k: int| 0 <= k < next.len() && (#[trigger] next[k]).url == u;
        if k < i {
            assert(prev[k].url == u);
        }
    }
    assert forall|u: Seq<char>| url_set(prev).insert(logs[i].url).contains(u) implies url_set(
        next,
    ).contains(u) by {
        if u == logs[i].url {
            assert(next[i].url == u);
        } else {
            let k = choose|k: int| 0 <= k < prev.len() && (#[trigger] prev[k]).url == u;
            assert(next[k].url == u);
        }
    }
    assert(url_set(next) =~= url_set(prev).insert(logs[i].url));
}

/// Counts the logs of a batch, the blocked ones among them, and the
/// different URLs.
pub fn summarize_batch(entry: &LogEntry) -> (summary: BatchSummary)
    ensures
        summary == batch_summary(entry@.logs),
        summary.logs_count == entry@.logs.len(),
        summary.blocked_count == blocked_count(entry@.logs),
        summary.unique_urls == url_set(entry@.logs).len(),
{
    let ghost logs = entry@.logs;
    let mut blocked: usize = 0;
    let mut urls = StringHashSet::new();
    let mut i: usize = 0;
    proof {
        reveal(Seq::filter);
        assert(logs.take(0) =~= Seq::<NetworkLogView>::empty());
        assert(url_set(logs.take(0)) =~= Set::<Seq<char>>::empty());
    }
    while i < entry.logs.len()
        invariant
            i <= entry.logs.len(),
            logs == entry@.logs,
            logs.len() == entry.logs.len(),
            blocked == blocked_count(logs.take(i as int)),
            blocked <= i,
            urls@ == url_set(logs.take(i as int)),
            urls@.finite(),
            urls@.len() <= i,
        decreases entry.logs.len() - i,
    {
        proof {
            lemma_blocked_count_step(logs, i as int);
            lemma_url_set_step(logs, i as int);
            assert(logs[i as int] == entry.logs[i as int]@);
        }
        if entry.logs[i].blocked {
            blocked += 1;
        }
        urls.insert(entry.logs[i].url.clone());
        i += 1;
    }
    assert(logs.take(i as int) =~= logs);
    BatchSummary { logs_count: entry.logs.len(), blocked_count: blocked, unique_urls: urls.len() }
}

/// Builds the answer to a batch that was received.
pub fn logs_received(summary: BatchSummary, client_ip: &str) -> (reply: Reply)
    ensures
        reply@ == logs_reply(summary, client_ip@),
{
    let mut members = no_members();
    push_member(&mut members, "success", JsonValue::Bool(true));
    push_member(&mut members, "logs_count", JsonValue::count(summary.logs_count as u64));
    push_member(&mut members, "blocked_count", JsonValue::count(summary.blocked_count as u64));
    push_member(&mut members, "unique_urls", JsonValue::count(summary.unique_urls as u64));
    push_member(&mut members, "client_ip", JsonValue::text(client_ip));
    assert(members_view(members@) =~= logs_reply(summary, client_ip@).body->Object_0);
    Reply { status: 200, body: JsonValue::Object(members) }
}

/// Receives a batch of network logs in simple mode.
///
/// `parsed` is the decoded body, or what the decoder said against it. A
/// body that did not decode is answered with status 400 and the store is
/// left as it was. A batch is answered with status 200 and its counts; it is
/// kept in the store unless it holds no logs.
pub fn post_logs_simple(logs: &mut LogStore, client_ip: &str, parsed: Result<LogEntry, String>) -> (reply:
    Reply)
    ensures
        match parsed {
            Ok(entry) => {
                &&& reply@ == logs_reply(batch_summary(entry@.logs), client_ip@)
                &&& final(logs)@ == logs_after(old(logs)@, entry@)
            },
            Err(detail) => {
                &&& reply@ == invalid_json_reply(detail@)
                &&& final(logs)@ == old(logs)@
            },
        },
{
    match parsed {
        Err(detail) => invalid_json(detail.as_str()),
        Ok(entry) => {
            let summary = summarize_batch(&entry);
            if entry.logs.len() > 0 {
                logs.add(entry);
            }
            logs_received(summary, client_ip)
        },
    }
}

/// Lists the batches held, oldest first.
pub fn get_logs_simple(logs: &LogStore) -> (held: Vec<LogEntry>)
    ensures
        entries_view(held@) == logs@,
        held@.len() <= MAX_LOGS,
{
    logs.list()
}

/// Receives a batch of network logs where the store is a database: the
/// batch is handed back to be written, with the answer for when it has been.
/// A body that did not decode is answered with status 400.
pub fn post_logs_production(client_ip: &str, parsed: Result<LogEntry, String>) -> (step: Step<
    LogEntry,
>)
    ensures
        match parsed {
            Ok(entry) => {
                &&& step matches Step::Store { item, on_success }
                &&& item == entry
                &&& on_success@ == logs_reply(batch_summary(entry@.logs), client_ip@)
            },
            Err(detail) => {
                &&& step matches Step::Answer(reply)
                &&& reply@ == invalid_json_reply(detail@)
            },
        },
{
    match parsed {
        Err(detail) => Step::Answer(invalid_json(detail.as_str())),
        Ok(entry) => {
            let summary = summarize_batch(&entry);
            Step::Store { item: entry, on_success: logs_received(summary, client_ip) }
        },
    }
}

} // verus!
