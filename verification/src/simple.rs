//! The in-memory store: the most recent log batches, the most recent events,
//! and the blocklist in force.
//!
//! Each collection has a fixed capacity. A write is never refused: the new
//! item goes to the end and the oldest items leave from the front.
//!
//! The three collections are types of their own, so that a server can keep
//! each behind its own lock; `SimpleState` is the three together.

use vstd::prelude::*;
use crate::types::{
    Blocklist, BlocklistView, ExtensionEvent, ExtensionEventView, LogEntry, LogEntryView,
};

verus! {

/// How many log batches the store keeps.
pub const MAX_LOGS: usize = 1000;

/// How many events the store keeps.
pub const MAX_EVENTS: usize = 500;

/// The most recent `cap` items of `items`, in their order.
pub open spec fn keep_recent<T>(items: Seq<T>, cap: nat) -> Seq<T> {
    if items.len() <= cap {
        items
    } else {
        items.subrange(items.len() - cap, items.len() as int)
    }
}

/// What a collection of capacity `cap` holds after `item` was added to it.
pub open spec fn append_bounded<T>(items: Seq<T>, item: T, cap: nat) -> Seq<T> {
    keep_recent(items.push(item), cap)
}

/// What a collection of capacity `cap` holds after each of `added` was added
/// to it in turn.
pub open spec fn append_all_bounded<T>(items: Seq<T>, added: Seq<T>, cap: nat) -> Seq<T>
    decreases added.len(),
{
    if added.len() == 0 {
        items
    } else {
        append_bounded(append_all_bounded(items, added.drop_last(), cap), added.last(), cap)
    }
}

/// The models of a list of log batches.
pub open spec fn entries_view(entries: Seq<LogEntry>) -> Seq<LogEntryView> {
    entries.map_values(|e: LogEntry| e@)
}

/// The models of a list of events.
pub open spec fn events_view(events: Seq<ExtensionEvent>) -> Seq<ExtensionEventView> {
    events.map_values(|e: ExtensionEvent| e@)
}

/// The blocklist that a new store starts with.
pub open spec fn default_blocklist() -> BlocklistView {
    BlocklistView {
        url_patterns: seq![".*tracker\\..*"@, ".*analytics\\..*"@, ".*doubleclick\\..*"@],
        youtube_channels: seq!["@spam"@],
    }
}

/// A run of additions to a collection that was within its capacity leaves
/// the most recent `cap` of all its items, old and new, in their order.
pub proof fn lemma_append_all_bounded<T>(items: Seq<T>, added: Seq<T>, cap: nat)
    requires
        items.len() <= cap,
    ensures
        append_all_bounded(items, added, cap) == keep_recent(items + added, cap),
        append_all_bounded(items, added, cap).len() <= cap,
    decreases added.len(),
{
    if added.len() == 0 {
        assert(items + added =~= items);
    } else {
        lemma_append_all_bounded(items, added.drop_last(), cap);
        assert((items + added.drop_last()).push(added.last()) =~= items + added);
        assert(append_all_bounded(items, added, cap) =~= keep_recent(items + added, cap));
    }
}

/// After any `n` batches were added to an empty store, it holds the most
/// recent `min(n, MAX_LOGS)` of them, oldest first.
pub proof fn lemma_logs_after_appends(added: Seq<LogEntryView>)
    ensures
        append_all_bounded(Seq::empty(), added, MAX_LOGS as nat) == keep_recent(
            added,
            MAX_LOGS as nat,
        ),
        append_all_bounded(Seq::empty(), added, MAX_LOGS as nat).len() == if added.len()
            <= MAX_LOGS {
            added.len()
        } else {
            MAX_LOGS as nat
        },
{
    lemma_append_all_bounded(Seq::empty(), added, MAX_LOGS as nat);
    assert(Seq::<LogEntryView>::empty() + added =~= added);
}

/// After any `n` events were added to an empty store, it holds the most
/// recent `min(n, MAX_EVENTS)` of them, oldest first.
pub proof fn lemma_events_after_appends(added: Seq<ExtensionEventView>)
    ensures
        append_all_bounded(Seq::empty(), added, MAX_EVENTS as nat) == keep_recent(
            added,
            MAX_EVENTS as nat,
        ),
        append_all_bounded(Seq::empty(), added, MAX_EVENTS as nat).len() == if added.len()
            <= MAX_EVENTS {
            added.len()
        } else {
            MAX_EVENTS as nat
        },
{
    lemma_append_all_bounded(Seq::empty(), added, MAX_EVENTS as nat);
    assert(Seq::<ExtensionEventView>::empty() + added =~= added);
}

/// Adds `item` at the end of `items` and then drops items from the front
/// until no more than `cap` are left.
pub fn push_bounded<T>(items: &mut Vec<T>, item: T, cap: usize)
    ensures
        final(items)@ == append_bounded(old(items)@, item, cap as nat),
{
    items.push(item);
    if items.len() > cap {
        let excess: usize = items.len() - cap;
        let kept = items.split_off(excess);
        *items = kept;
    }
}

/// The log batches held: the most recent `MAX_LOGS`, oldest first.
pub struct LogStore {
    entries: Vec<LogEntry>,
}

impl View for LogStore {
    type V = Seq<LogEntryView>;

    closed spec fn view(&self) -> Seq<LogEntryView> {
        entries_view(self.entries@)
    }
}

impl LogStore {
    #[verifier::type_invariant]
    spec fn within_capacity(self) -> bool {
        self.entries@.len() <= MAX_LOGS
    }

    /// No batches.
    pub fn new() -> (store: Self)
        ensures
            store@ == Seq::<LogEntryView>::empty(),
    {
        let store = LogStore { entries: Vec::new() };
        assert(store@ =~= Seq::<LogEntryView>::empty());
        store
    }

    /// Adds a batch at the end; beyond `MAX_LOGS` batches the oldest leave.
    pub fn add(&mut self, entry: LogEntry)
        ensures
            final(self)@ == append_bounded(old(self)@, entry@, MAX_LOGS as nat),
            final(self)@.len() <= MAX_LOGS,
    {
        proof {
            use_type_invariant(&*self);
        }
        let ghost before = self.entries@;
        let mut entries: Vec<LogEntry> = Vec::new();
        core::mem::swap(&mut self.entries, &mut entries);
        push_bounded(&mut entries, entry, MAX_LOGS);
        self.entries = entries;
        assert(entries_view(self.entries@) =~= append_bounded(
            entries_view(before),
            entry@,
            MAX_LOGS as nat,
        ));
    }

    /// A copy of the batches held, oldest first.
    pub fn list(&self) -> (logs: Vec<LogEntry>)
        ensures
            entries_view(logs@) == self@,
            logs@.len() <= MAX_LOGS,
    {
        proof {
            use_type_invariant(self);
        }
        let mut logs: Vec<LogEntry> = Vec::new();
        let mut i: usize = 0;
        while i < self.entries.len()
            invariant
                i <= self.entries.len(),
                logs.len() == i,
                forall|k: int| 0 <= k < i ==> (#[trigger] logs[k])@ == self.entries[k]@,
            decreases self.entries.len() - i,
        {
            logs.push(self.entries[i].clone());
            i += 1;
        }
        assert(entries_view(logs@) =~= entries_view(self.entries@));
        logs
    }
}

/// The events held: the most recent `MAX_EVENTS`, oldest first.
pub struct EventStore {
    events: Vec<ExtensionEvent>,
}

impl View for EventStore {
    type V = Seq<ExtensionEventView>;

    closed spec fn view(&self) -> Seq<ExtensionEventView> {
        events_view(self.events@)
    }
}

impl EventStore {
    #[verifier::type_invariant]
    spec fn within_capacity(self) -> bool {
        self.events@.len() <= MAX_EVENTS
    }

    /// No events.
    pub fn new() -> (store: Self)
        ensures
            store@ == Seq::<ExtensionEventView>::empty(),
    {
        let store = EventStore { events: Vec::new() };
        assert(store@ =~= Seq::<ExtensionEventView>::empty());
        store
    }

    /// Adds an event at the end; beyond `MAX_EVENTS` events the oldest
    /// leave.
    pub fn add(&mut self, event: ExtensionEvent)
        ensures
            final(self)@ == append_bounded(old(self)@, event@, MAX_EVENTS as nat),
            final(self)@.len() <= MAX_EVENTS,
    {
        proof {
            use_type_invariant(&*self);
        }
        let ghost before = self.events@;
        let mut events: Vec<ExtensionEvent> = Vec::new();
        core::mem::swap(&mut self.events, &mut events);
        push_bounded(&mut events, event, MAX_EVENTS);
        self.events = events;
        assert(events_view(self.events@) =~= append_bounded(
            events_view(before),
            event@,
            MAX_EVENTS as nat,
        ));
    }

    /// A copy of the events held, oldest first.
    pub fn list(&self) -> (events: Vec<ExtensionEvent>)
        ensures
            events_view(events@) == self@,
            events@.len() <= MAX_EVENTS,
    {
        proof {
            use_type_invariant(self);
        }
        let mut events: Vec<ExtensionEvent> = Vec::new();
        let mut i: usize = 0;
        while i < self.events.len()
            invariant
                i <= self.events.len(),
                events.len() == i,
                forall|k: int| 0 <= k < i ==> (#[trigger] events[k])@ == self.events[k]@,
            decreases self.events.len() - i,
        {
            events.push(self.events[i].clone());
            i += 1;
        }
        assert(events_view(events@) =~= events_view(self.events@));
        events
    }
}

/// The blocklist that a new store starts with.
pub fn starting_blocklist() -> (blocklist: Blocklist)
    ensures
        blocklist@ == default_blocklist(),
{
    let mut url_patterns: Vec<String> = Vec::new();
    url_patterns.push(String::from_str(".*tracker\\..*"));
    url_patterns.push(String::from_str(".*analytics\\..*"));
    url_patterns.push(String::from_str(".*doubleclick\\..*"));
    let mut youtube_channels: Vec<String> = Vec::new();
    youtube_channels.push(String::from_str("@spam"));
    let blocklist = Blocklist { url_patterns, youtube_channels };
    assert(blocklist@.url_patterns =~= default_blocklist().url_patterns);
    assert(blocklist@.youtube_channels =~= default_blocklist().youtube_channels);
    blocklist
}

/// The store: the three collections together.
pub struct SimpleState {
    pub logs: LogStore,
    pub blocklist: Blocklist,
    pub extension_events: EventStore,
}

impl SimpleState {
    /// The log batches held, oldest first.
    pub open spec fn spec_logs(&self) -> Seq<LogEntryView> {
        self.logs@
    }

    /// The events held, oldest first.
    pub open spec fn spec_events(&self) -> Seq<ExtensionEventView> {
        self.extension_events@
    }

    /// The blocklist in force.
    pub open spec fn spec_blocklist(&self) -> BlocklistView {
        self.blocklist@
    }

    /// An empty store with the default blocklist.
    pub fn new() -> (state: Self)
        ensures
            state.spec_logs() == Seq::<LogEntryView>::empty(),
            state.spec_events() == Seq::<ExtensionEventView>::empty(),
            state.spec_blocklist() == default_blocklist(),
    {
        SimpleState {
            logs: LogStore::new(),
            blocklist: starting_blocklist(),
            extension_events: EventStore::new(),
        }
    }

    /// Adds a batch at the end; beyond `MAX_LOGS` batches the oldest leave.
    pub fn add_log(&mut self, entry: LogEntry)
        ensures
            final(self).spec_logs() == append_bounded(
                old(self).spec_logs(),
                entry@,
                MAX_LOGS as nat,
            ),
            final(self).spec_logs().len() <= MAX_LOGS,
            final(self).spec_events() == old(self).spec_events(),
            final(self).spec_blocklist() == old(self).spec_blocklist(),
    {
        self.logs.add(entry);
    }

    /// A copy of the batches held, oldest first.
    pub fn get_logs(&self) -> (logs: Vec<LogEntry>)
        ensures
            entries_view(logs@) == self.spec_logs(),
            logs@.len() <= MAX_LOGS,
    {
        self.logs.list()
    }

    /// A copy of the blocklist in force.
    pub fn get_blocklist(&self) -> (blocklist: Blocklist)
        ensures
            blocklist@ == self.spec_blocklist(),
    {
        self.blocklist.clone()
    }

    /// Puts `blocklist` in place of the one in force; nothing of the old one
    /// is kept.
    pub fn update_blocklist(&mut self, blocklist: Blocklist)
        ensures
            final(self).spec_blocklist() == blocklist@,
            final(self).spec_logs() == old(self).spec_logs(),
            final(self).spec_events() == old(self).spec_events(),
    {
        self.blocklist = blocklist;
    }

    /// Adds an event at the end; beyond `MAX_EVENTS` events the oldest leave.
    pub fn add_extension_event(&mut self, event: ExtensionEvent)
        ensures
            final(self).spec_events() == append_bounded(
                old(self).spec_events(),
                event@,
                MAX_EVENTS as nat,
            ),
            final(self).spec_events().len() <= MAX_EVENTS,
            final(self).spec_logs() == old(self).spec_logs(),
            final(self).spec_blocklist() == old(self).spec_blocklist(),
    {
        self.extension_events.add(event);
    }

    /// A copy of the events held, oldest first.
    pub fn get_extension_events(&self) -> (events: Vec<ExtensionEvent>)
        ensures
            events_view(events@) == self.spec_events(),
            events@.len() <= MAX_EVENTS,
    {
        self.extension_events.list()
    }
}

} // verus!
