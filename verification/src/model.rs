//! The catalog data model: selectable items and their source kind.

use vstd::prelude::*;

verus! {

/// Where a selectable item came from.
#[derive(Debug, Clone, Copy, PartialEq, Eq, Structural)]
pub enum EntryType {
    Desktop,
    Binary,
    History,
    Custom,
}

/// A selectable item. Immutable once ingested, except for `score`, which
/// the ranking pass recomputes on every query change.
#[derive(Debug, Clone)]
pub struct Entry {
    /// Opaque stable identifier (a file path or command name).
    pub id: String,
    /// Name shown in the list and matched against the query.
    pub name: String,
    /// Command line run when the item is executed.
    pub command: String,
    /// Optional logical icon name or icon file path.
    pub icon: Option<String>,
    /// Fuzzy match score of the most recent ranking pass.
    pub score: i64,
    /// Launch group the item belongs to.
    pub group: String,
    /// Hint that the item runs inside a container.
    pub is_container: bool,
    /// Whether execution must be wrapped in a terminal.
    pub open_in_terminal: bool,
    /// Source kind of the item.
    pub entry_type: EntryType,
}

/// All fields of `a` and `b` agree except possibly `score`.
pub open spec fn same_except_score(a: Entry, b: Entry) -> bool {
    &&& a.id == b.id
    &&& a.name == b.name
    &&& a.command == b.command
    &&& a.icon == b.icon
    &&& a.group == b.group
    &&& a.is_container == b.is_container
    &&& a.open_in_terminal == b.open_in_terminal
    &&& a.entry_type == b.entry_type
}

impl Entry {
    /// Builds an item with no icon, a zero score, and the default group.
    pub fn new(
        id: String,
        name: String,
        command: String,
        entry_type: EntryType,
        open_in_terminal: bool,
    ) -> (r: Entry)
        ensures
            r.id == id,
            r.name == name,
            r.command == command,
            r.icon is None,
            r.score == 0,
            r.group@ == "default"@,
            !r.is_container,
            r.open_in_terminal == open_in_terminal,
            r.entry_type == entry_type,
    {
        Entry {
            id,
            name,
            command,
            icon: None,
            score: 0,
            group: String::from_str("default"),
            is_container: false,
            open_in_terminal,
            entry_type,
        }
    }

    /// Copy of `self` with the score replaced.
    pub fn with_score(&self, score: i64) -> (r: Entry)
        ensures
            same_except_score(r, *self),
            r.score == score,
    {
        Entry {
            id: self.id.clone(),
            name: self.name.clone(),
            command: self.command.clone(),
            icon: match &self.icon {
                Some(s) => Some(s.clone()),
                None => None,
            },
            score,
            group: self.group.clone(),
            is_container: self.is_container,
            open_in_terminal: self.open_in_terminal,
            entry_type: self.entry_type,
        }
    }
}

} // verus!
