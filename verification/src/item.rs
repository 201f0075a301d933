//! The entries of a history: those that a session keeps to itself, and those that shells share.
use crate::api;
use crate::timestamp::Timestamp;
use vstd::prelude::*;

verus! {

/// An entry of either part of the history.
#[derive(Debug, PartialEq, Eq)]
pub enum HistoryItem {
    LocalHistoryItem(LocalHistoryItem),
    SharedHistoryItem(api::HistoryItem),
}

impl Clone for HistoryItem {
    fn clone(&self) -> (copy: Self)
        ensures
            copy == *self,
    {
        match self {
            HistoryItem::LocalHistoryItem(item) => HistoryItem::LocalHistoryItem(item.clone()),
            HistoryItem::SharedHistoryItem(item) => HistoryItem::SharedHistoryItem(item.clone()),
        }
    }
}

impl HistoryItem {
    /// The text of the entry.
    pub open spec fn text(self) -> Seq<char> {
        match self {
            HistoryItem::LocalHistoryItem(item) => item@.contents,
            HistoryItem::SharedHistoryItem(item) => item@.contents,
        }
    }

    /// When the entry was created.
    pub open spec fn time(self) -> Timestamp {
        match self {
            HistoryItem::LocalHistoryItem(item) => item@.creation_timestamp,
            HistoryItem::SharedHistoryItem(item) => item@.creation_timestamp,
        }
    }

    pub fn str(&self) -> (s: &str)
        ensures
            s@ == self.text(),
    {
        match self {
            HistoryItem::LocalHistoryItem(item) => item.str(),
            HistoryItem::SharedHistoryItem(item) => item.str(),
        }
    }

    pub fn into_str(self) -> (s: String)
        ensures
            s@ == self.text(),
    {
        match self {
            HistoryItem::LocalHistoryItem(item) => item.into_str(),
            HistoryItem::SharedHistoryItem(item) => item.into_str(),
        }
    }

    pub fn get_timestamp(&self) -> (time: Timestamp)
        ensures
            time == self.time(),
    {
        match self {
            HistoryItem::LocalHistoryItem(item) => item.timestamp(),
            HistoryItem::SharedHistoryItem(item) => item.get_timestamp(),
        }
    }
}

impl From<LocalHistoryItem> for HistoryItem {
    fn from(item: LocalHistoryItem) -> (out: Self) {
        HistoryItem::LocalHistoryItem(item)
    }
}

impl vstd::std_specs::convert::FromSpecImpl<LocalHistoryItem> for HistoryItem {
    open spec fn obeys_from_spec() -> bool {
        true
    }

    open spec fn from_spec(item: LocalHistoryItem) -> HistoryItem {
        HistoryItem::LocalHistoryItem(item)
    }
}

impl From<api::HistoryItem> for HistoryItem {
    fn from(item: api::HistoryItem) -> (out: Self) {
        HistoryItem::SharedHistoryItem(item)
    }
}

impl vstd::std_specs::convert::FromSpecImpl<api::HistoryItem> for HistoryItem {
    open spec fn obeys_from_spec() -> bool {
        true
    }

    open spec fn from_spec(item: api::HistoryItem) -> HistoryItem {
        HistoryItem::SharedHistoryItem(item)
    }
}

/// Ways that a history item may be kept in memory.
#[derive(Clone, Copy, Debug, PartialEq, Eq, Structural)]
pub enum PersistenceMode {
    /// The history item is stored in-memory only, not written to disk
    Memory,
    /// The history item is stored in-memory and deleted when a new item is added
    Ephemeral,
}

/// An entry that is not shared.
#[derive(Debug, PartialEq, Eq)]
pub struct LocalHistoryItem {
    /// The actual contents of the entry.
    contents: String,
    /// Original creation time for the entry.
    creation_timestamp: Timestamp,
    pub persist_mode: PersistenceMode,
}

/// What a local entry says.
#[verifier::ext_equal]
pub struct LocalItemView {
    pub contents: Seq<char>,
    pub creation_timestamp: Timestamp,
    pub persist_mode: PersistenceMode,
}

impl View for LocalHistoryItem {
    type V = LocalItemView;

    closed spec fn view(&self) -> LocalItemView {
        LocalItemView {
            contents: self.contents@,
            creation_timestamp: self.creation_timestamp,
            persist_mode: self.persist_mode,
        }
    }
}

impl Clone for LocalHistoryItem {
    fn clone(&self) -> (copy: Self)
        ensures
            copy == *self,
    {
        LocalHistoryItem {
            contents: self.contents.clone(),
            creation_timestamp: self.creation_timestamp,
            persist_mode: self.persist_mode,
        }
    }
}

impl LocalHistoryItem {
    /// Construct from a text, timestamp, and a persistence mode (in-memory/ephemeral).
    pub fn new(s: String, when: Timestamp, persist_mode: PersistenceMode) -> (item: Self)
        ensures
            item@ == (LocalItemView { contents: s@, creation_timestamp: when, persist_mode }),
    {
        LocalHistoryItem { contents: s, creation_timestamp: when, persist_mode }
    }

    /// Returns the text as a string.
    pub fn str(&self) -> (s: &str)
        ensures
            s@ == self@.contents,
    {
        self.contents.as_str()
    }

    pub fn into_str(self) -> (s: String)
        ensures
            s@ == self@.contents,
    {
        self.contents
    }

    /// Returns whether the text is empty.
    pub fn is_empty(&self) -> (empty: bool)
        ensures
            empty == (self@.contents.len() == 0),
    {
        self.contents.as_str().is_empty()
    }

    /// Returns the timestamp for creating this history item.
    pub fn timestamp(&self) -> (time: Timestamp)
        ensures
            time == self@.creation_timestamp,
    {
        self.creation_timestamp
    }

    pub fn is_ephemeral(&self) -> (ephemeral: bool)
        ensures
            ephemeral == (self@.persist_mode == PersistenceMode::Ephemeral),
    {
        self.persist_mode == PersistenceMode::Ephemeral
    }

    /// Takes in an item with the same text and persistence: the later of the two times stays.
    pub fn merge(&mut self, item: &LocalHistoryItem) -> (merged: bool)
        ensures
            merged == local_mergeable(old(self)@, item@),
            !merged ==> *final(self) == *old(self),
            merged ==> final(self)@ == merged_local_view(old(self)@, item@),
    {
        // The logic when to merge here is not particularly important. Ephemeral commands get removed
        // from the history anyways.
        if self.contents != item.contents || self.persist_mode != item.persist_mode {
            false
        } else {
            self.creation_timestamp = self.creation_timestamp.later(item.creation_timestamp);
            true
        }
    }
}

/// Two local entries can be merged: they have one text, and are kept in the same way.
pub open spec fn local_mergeable(a: LocalItemView, b: LocalItemView) -> bool {
    a.contents == b.contents && a.persist_mode == b.persist_mode
}

/// The entry that two mergeable local entries become.
pub open spec fn merged_local_view(a: LocalItemView, b: LocalItemView) -> LocalItemView {
    LocalItemView {
        creation_timestamp: a.creation_timestamp.spec_later(b.creation_timestamp),
        ..a
    }
}

/// Local entries are merged just if they have one text and one persistence; then only the time may change, and
/// it becomes the later of the two.
pub proof fn a_merged_local_entry_has_the_later_time(a: LocalItemView, b: LocalItemView)
    ensures
        local_mergeable(a, b) <==> a.contents == b.contents && a.persist_mode == b.persist_mode,
        merged_local_view(a, b).contents == a.contents,
        merged_local_view(a, b).persist_mode == a.persist_mode,
        merged_local_view(a, b).creation_timestamp.nanos >= a.creation_timestamp.nanos,
        merged_local_view(a, b).creation_timestamp.nanos >= b.creation_timestamp.nanos,
        merged_local_view(a, b).creation_timestamp == a.creation_timestamp || merged_local_view(
            a,
            b,
        ).creation_timestamp == b.creation_timestamp,
{
}

} // verus!
