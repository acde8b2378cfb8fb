//! What a request handler answers: a status code and a JSON body.

use vstd::prelude::*;
use crate::json::{members_view, no_members, push_member, Json, JsonValue};

verus! {

/// The answer to one request.
#[derive(Debug, PartialEq, Eq)]
pub struct Reply {
    pub status: u16,
    pub body: JsonValue,
}

/// The model of a [`Reply`].
pub struct ReplyView {
    pub status: u16,
    pub body: Json,
}

impl View for Reply {
    type V = ReplyView;

    open spec fn view(&self) -> ReplyView {
        ReplyView { status: self.status, body: self.body@ }
    }
}

/// The answer to a body that is no JSON of the expected form: status 400,
/// with what the decoder said of it.
pub open spec fn invalid_json_reply(detail: Seq<char>) -> ReplyView {
    ReplyView {
        status: 400,
        body: Json::Object(
            seq![
                ("success"@, Json::Bool(false)),
                ("error"@, Json::Text("Invalid JSON: "@ + detail)),
            ],
        ),
    }
}

/// The answer to a request that the database failed: status 500, with what
/// the database said of it.
pub open spec fn database_error_reply(detail: Seq<char>, client_ip: Seq<char>) -> ReplyView {
    ReplyView {
        status: 500,
        body: Json::Object(
            seq![
                ("success"@, Json::Bool(false)),
                ("error"@, Json::Text("Database error: "@ + detail)),
                ("client_ip"@, Json::Text(client_ip)),
            ],
        ),
    }
}

/// The answer to a write that was carried out: status 200 and a message.
pub open spec fn stored_reply(message: Seq<char>, client_ip: Seq<char>) -> ReplyView {
    ReplyView {
        status: 200,
        body: Json::Object(
            seq![
                ("success"@, Json::Bool(true)),
                ("message"@, Json::Text(message)),
                ("client_ip"@, Json::Text(client_ip)),
            ],
        ),
    }
}

/// Builds the answer to a body that is no JSON of the expected form.
pub fn invalid_json(detail: &str) -> (reply: Reply)
    ensures
        reply@ == invalid_json_reply(detail@),
{
    let mut error = String::from_str("Invalid JSON: ");
    error.append(detail);
    let mut members = no_members();
    push_member(&mut members, "success", JsonValue::Bool(false));
    push_member(&mut members, "error", JsonValue::String(error));
    assert(members_view(members@) =~= invalid_json_reply(detail@).body->Object_0);
    Reply { status: 400, body: JsonValue::Object(members) }
}

/// Builds the answer to a request that the database failed.
pub fn database_error(detail: &str, client_ip: &str) -> (reply: Reply)
    ensures
        reply@ == database_error_reply(detail@, client_ip@),
{
    let mut error = String::from_str("Database error: ");
    error.append(detail);
    let mut members = no_members();
    push_member(&mut members, "success", JsonValue::Bool(false));
    push_member(&mut members, "error", JsonValue::String(error));
    push_member(&mut members, "client_ip", JsonValue::text(client_ip));
    assert(members_view(members@) =~= database_error_reply(detail@, client_ip@).body->Object_0);
    Reply { status: 500, body: JsonValue::Object(members) }
}

/// Builds the answer to a write that was carried out.
pub fn stored(message: &str, client_ip: &str) -> (reply: Reply)
    ensures
        reply@ == stored_reply(message@, client_ip@),
{
    let mut members = no_members();
    push_member(&mut members, "success", JsonValue::Bool(true));
    push_member(&mut members, "message", JsonValue::text(message));
    push_member(&mut members, "client_ip", JsonValue::text(client_ip));
    assert(members_view(members@) =~= stored_reply(message@, client_ip@).body->Object_0);
    Reply { status: 200, body: JsonValue::Object(members) }
}

/// What a handler asks for where the store is a database: the answer is
/// ready, or an item is to be written first and `on_success` is the answer
/// once it has been.
#[derive(Debug, PartialEq, Eq)]
pub enum Step<T> {
    Answer(Reply),
    Store { item: T, on_success: Reply },
}

/// The answer once the database was asked to write: `on_success` where it
/// did, status 500 with what it said where it failed.
pub fn after_store(on_success: Reply, client_ip: &str, outcome: Result<(), String>) -> (reply:
    Reply)
    ensures
        match outcome {
            Ok(_) => reply == on_success,
            Err(detail) => reply@ == database_error_reply(detail@, client_ip@),
        },
{
    match outcome {
        Ok(_) => on_success,
        Err(detail) => database_error(detail.as_str(), client_ip),
    }
}

} // verus!
