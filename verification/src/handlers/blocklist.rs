//! Reading and replacing the blocklist.

use vstd::prelude::*;
use crate::reply::{
    database_error, database_error_reply, invalid_json, invalid_json_reply, stored, stored_reply,
    Reply, Step,
};
use crate::types::Blocklist;

verus! {

/// A copy of the blocklist in force.
pub fn get_blocklist_simple(current: &Blocklist) -> (blocklist: Blocklist)
    ensures
        blocklist@ == current@,
{
    current.clone()
}

/// Replaces the blocklist in simple mode.
///
/// `parsed` is the decoded body, or what the decoder said against it. A
/// body that did not decode is answered with status 400 and the blocklist
/// stays. A blocklist takes the place of the one in force, whole and as it
/// is: its patterns are not looked at.
pub fn post_blocklist_simple(
    current: &mut Blocklist,
    client_ip: &str,
    parsed: Result<Blocklist, String>,
) -> (reply: Reply)
    ensures
        match parsed {
            Ok(blocklist) => {
                &&& reply@ == stored_reply("Blocklist updated"@, client_ip@)
                &&& final(current)@ == blocklist@
            },
            Err(detail) => {
                &&& reply@ == invalid_json_reply(detail@)
                &&& final(current)@ == old(current)@
            },
        },
{
    match parsed {
        Err(detail) => invalid_json(detail.as_str()),
        Ok(blocklist) => {
            *current = blocklist;
            stored("Blocklist updated", client_ip)
        },
    }
}

/// Answers a request for the blocklist where the store is a database:
/// `outcome` is what the database gave, the blocklist or what it said of its
/// failure, which is answered with status 500.
pub fn get_blocklist_production(client_ip: &str, outcome: Result<Blocklist, String>) -> (found:
    Result<Blocklist, Reply>)
    ensures
        match outcome {
            Ok(blocklist) => found == Ok::<Blocklist, Reply>(blocklist),
            Err(detail) => {
                &&& found matches Err(reply)
                &&& reply@ == database_error_reply(detail@, client_ip@)
            },
        },
{
    match outcome {
        Ok(blocklist) => Ok(blocklist),
        Err(detail) => Err(database_error(detail.as_str(), client_ip)),
    }
}

/// Replaces the blocklist where the store is a database: the blocklist is
/// handed back to be written, with the answer for when it has been. A body
/// that did not decode is answered with status 400.
pub fn post_blocklist_production(client_ip: &str, parsed: Result<Blocklist, String>) -> (step:
    Step<Blocklist>)
    ensures
        match parsed {
            Ok(blocklist) => {
                &&& step matches Step::Store { item, on_success }
                &&& item == blocklist
                &&& on_success@ == stored_reply("Blocklist updated"@, client_ip@)
            },
            Err(detail) => {
                &&& step matches Step::Answer(reply)
                &&& reply@ == invalid_json_reply(detail@)
            },
        },
{
    match parsed {
        Err(detail) => Step::Answer(invalid_json(detail.as_str())),
        Ok(blocklist) => Step::Store {
            item: blocklist,
            on_success: stored("Blocklist updated", client_ip),
        },
    }
}

} // verus!
