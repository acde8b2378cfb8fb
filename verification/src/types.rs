//! The records that the store holds: batches of network logs, the blocklist,
//! and extension events. Each has a model, reached with `@`.

use vstd::prelude::*;
use crate::json::{Json, JsonValue};

verus! {

/// The model of an optional text.
pub open spec fn opt_text(text: Option<String>) -> Option<Seq<char>> {
    match text {
        Some(t) => Some(t@),
        None => None,
    }
}

/// The models of a list of texts.
pub open spec fn texts_view(texts: Seq<String>) -> Seq<Seq<char>> {
    texts.map_values(|t: String| t@)
}

/// Copies an optional text.
pub fn clone_opt_text(text: &Option<String>) -> (copy: Option<String>)
    ensures
        opt_text(copy) == opt_text(*text),
{
    match text {
        Some(t) => Some(t.clone()),
        None => None,
    }
}

/// Copies a list of texts.
pub fn clone_texts(texts: &Vec<String>) -> (copy: Vec<String>)
    ensures
        texts_view(copy@) == texts_view(texts@),
{
    let mut copy: Vec<String> = Vec::new();
    let mut i: usize = 0;
    while i < texts.len()
        invariant
            i <= texts.len(),
            copy.len() == i,
            forall|k: int| 0 <= k < i ==> (#[trigger] copy[k])@ == texts[k]@,
        decreases texts.len() - i,
    {
        copy.push(texts[i].clone());
        i += 1;
    }
    assert(texts_view(copy@) =~= texts_view(texts@));
    copy
}

/// The request identifier given to a network log that arrives without one:
/// the empty text.
pub fn default_string() -> (text: String)
    ensures
        text@ == Seq::<char>::empty(),
{
    String::new()
}

/// The request type given to a network log that arrives without one.
pub fn default_request_type() -> (text: String)
    ensures
        text@ == "other"@,
{
    String::from_str("other")
}

/// One HTTP request that a monitored page made.
#[derive(Debug, PartialEq, Eq)]
pub struct NetworkLog {
    pub request_id: String,
    pub url: String,
    pub method: String,
    pub request_type: String,
    pub blocked: bool,
    pub block_reason: Option<String>,
}

/// The model of a [`NetworkLog`].
pub struct NetworkLogView {
    pub request_id: Seq<char>,
    pub url: Seq<char>,
    pub method: Seq<char>,
    pub request_type: Seq<char>,
    pub blocked: bool,
    pub block_reason: Option<Seq<char>>,
}

impl View for NetworkLog {
    type V = NetworkLogView;

    open spec fn view(&self) -> NetworkLogView {
        NetworkLogView {
            request_id: self.request_id@,
            url: self.url@,
            method: self.method@,
            request_type: self.request_type@,
            blocked: self.blocked,
            block_reason: opt_text(self.block_reason),
        }
    }
}

impl Clone for NetworkLog {
    fn clone(&self) -> (copy: Self)
        ensures
            copy@ == self@,
    {
        NetworkLog {
            request_id: self.request_id.clone(),
            url: self.url.clone(),
            method: self.method.clone(),
            request_type: self.request_type.clone(),
            blocked: self.blocked,
            block_reason: clone_opt_text(&self.block_reason),
        }
    }
}

/// The models of a list of network logs.
pub open spec fn logs_view(logs: Seq<NetworkLog>) -> Seq<NetworkLogView> {
    logs.map_values(|l: NetworkLog| l@)
}

/// One batch of network logs, as one extension session submitted it.
#[derive(Debug, PartialEq, Eq)]
pub struct LogEntry {
    pub client_id: Option<String>,
    pub session_id: String,
    pub timestamp: String,
    pub user_agent: String,
    pub logs: Vec<NetworkLog>,
}

/// The model of a [`LogEntry`].
pub struct LogEntryView {
    pub client_id: Option<Seq<char>>,
    pub session_id: Seq<char>,
    pub timestamp: Seq<char>,
    pub user_agent: Seq<char>,
    pub logs: Seq<NetworkLogView>,
}

impl View for LogEntry {
    type V = LogEntryView;

    open spec fn view(&self) -> LogEntryView {
        LogEntryView {
            client_id: opt_text(self.client_id),
            session_id: self.session_id@,
            timestamp: self.timestamp@,
            user_agent: self.user_agent@,
            logs: logs_view(self.logs@),
        }
    }
}

impl Clone for LogEntry {
    fn clone(&self) -> (copy: Self)
        ensures
            copy@ == self@,
    {
        let mut logs: Vec<NetworkLog> = Vec::new();
        let mut i: usize = 0;
        while i < self.logs.len()
            invariant
                i <= self.logs.len(),
                logs.len() == i,
                forall|k: int| 0 <= k < i ==> (#[trigger] logs[k])@ == self.logs[k]@,
            decreases self.logs.len() - i,
        {
            logs.push(self.logs[i].clone());
            i += 1;
        }
        assert(logs_view(logs@) =~= logs_view(self.logs@));
        LogEntry {
            client_id: clone_opt_text(&self.client_id),
            session_id: self.session_id.clone(),
            timestamp: self.timestamp.clone(),
            user_agent: self.user_agent.clone(),
            logs,
        }
    }
}

/// The filtering configuration in force: URL patterns and channel handles,
/// each in the order given.
#[derive(Debug, PartialEq, Eq)]
pub struct Blocklist {
    pub url_patterns: Vec<String>,
    pub youtube_channels: Vec<String>,
}

/// The model of a [`Blocklist`].
pub struct BlocklistView {
    pub url_patterns: Seq<Seq<char>>,
    pub youtube_channels: Seq<Seq<char>>,
}

impl View for Blocklist {
    type V = BlocklistView;

    open spec fn view(&self) -> BlocklistView {
        BlocklistView {
            url_patterns: texts_view(self.url_patterns@),
            youtube_channels: texts_view(self.youtube_channels@),
        }
    }
}

impl Clone for Blocklist {
    fn clone(&self) -> (copy: Self)
        ensures
            copy@ == self@,
    {
        Blocklist {
            url_patterns: clone_texts(&self.url_patterns),
            youtube_channels: clone_texts(&self.youtube_channels),
        }
    }
}

/// A telemetry event of an extension, or a security report. `data` is any
/// JSON value.
#[derive(Debug, PartialEq, Eq)]
pub struct ExtensionEvent {
    pub client_id: Option<String>,
    pub session_id: String,
    pub timestamp: String,
    pub user_agent: String,
    pub event_type: String,
    pub data: JsonValue,
}

/// The model of an [`ExtensionEvent`].
pub struct ExtensionEventView {
    pub client_id: Option<Seq<char>>,
    pub session_id: Seq<char>,
    pub timestamp: Seq<char>,
    pub user_agent: Seq<char>,
    pub event_type: Seq<char>,
    pub data: Json,
}

impl View for ExtensionEvent {
    type V = ExtensionEventView;

    open spec fn view(&self) -> ExtensionEventView {
        ExtensionEventView {
            client_id: opt_text(self.client_id),
            session_id: self.session_id@,
            timestamp: self.timestamp@,
            user_agent: self.user_agent@,
            event_type: self.event_type@,
            data: self.data@,
        }
    }
}

impl Clone for ExtensionEvent {
    fn clone(&self) -> (copy: Self)
        ensures
            copy@ == self@,
    {
        ExtensionEvent {
            client_id: clone_opt_text(&self.client_id),
            session_id: self.session_id.clone(),
            timestamp: self.timestamp.clone(),
            user_agent: self.user_agent.clone(),
            event_type: self.event_type.clone(),
            data: self.data.clone(),
        }
    }
}

} // verus!
