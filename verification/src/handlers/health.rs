//! The liveness probe.

use vstd::prelude::*;
use crate::json::{members_view, no_members, push_member, Json, JsonValue};
use crate::reply::{Reply, ReplyView};

verus! {

/// The answer to the liveness probe: status 200, the word `healthy`, the
/// time of the answer and the address of the client.
pub open spec fn health_reply(timestamp: Seq<char>, client_ip: Seq<char>) -> ReplyView {
    ReplyView {
        status: 200,
        body: Json::Object(
            seq![
                ("status"@, Json::Text("healthy"@)),
                ("timestamp"@, Json::Text(timestamp)),
                ("client_ip"@, Json::Text(client_ip)),
            ],
        ),
    }
}

/// Answers the liveness probe. `timestamp` is the present moment as the
/// caller wrote it.
pub fn health_check(client_ip: &str, timestamp: &str) -> (reply: Reply)
    ensures
        reply@ == health_reply(timestamp@, client_ip@),
{
    let mut members = no_members();
    push_member(&mut members, "status", JsonValue::text("healthy"));
    push_member(&mut members, "timestamp", JsonValue::text(timestamp));
    push_member(&mut members, "client_ip", JsonValue::text(client_ip));
    assert(members_view(members@) =~= health_reply(timestamp@, client_ip@).body->Object_0);
    Reply { status: 200, body: JsonValue::Object(members) }
}

} // verus!
