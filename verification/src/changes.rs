//! Observed filesystem changes, merged per path while a reload is pending.

use vstd::prelude::*;

verus! {

/// What happened to a path.
#[derive(Clone, Copy, Debug, PartialEq, Eq, Structural)]
pub enum FileChange {
    Created,
    Changed,
    Deleted,
}

/// What kind of entry a path names.
#[derive(Clone, Copy, Debug, PartialEq, Eq, Structural)]
pub enum EntryKind {
    File,
    Directory,
    Unknown,
}

/// The change seen at a path and the kind of entry it names.
#[derive(Clone, Copy, Debug, PartialEq, Eq, Structural)]
pub struct PathChange {
    pub change: FileChange,
    pub entry_kind: EntryKind,
}

/// The change that two changes in a row amount to: a creation followed by a
/// change stays a creation, a deletion followed by a creation is a change,
/// and otherwise the later change wins.
pub open spec fn merged_change(first: FileChange, next: FileChange) -> FileChange {
    match (first, next) {
        (FileChange::Created, FileChange::Changed) => FileChange::Created,
        (FileChange::Deleted, FileChange::Created) => FileChange::Changed,
        (_, next) => next,
    }
}

impl FileChange {
    /// The change that this change followed by `next` amounts to.
    pub fn merge(self, next: Self) -> (r: Self)
        ensures
            r == merged_change(self, next),
    {
        match (self, next) {
            (FileChange::Created, FileChange::Changed) => FileChange::Created,
            (FileChange::Deleted, FileChange::Created) => FileChange::Changed,
            (_, next) => next,
        }
    }

    /// The past participle that reports this change.
    pub fn verb(self) -> (r: &'static str)
        ensures
            r@ == change_verb(self),
    {
        match self {
            FileChange::Created => "created",
            FileChange::Changed => "changed",
            FileChange::Deleted => "deleted",
        }
    }
}

/// The past participle that reports a change.
pub open spec fn change_verb(change: FileChange) -> Seq<char> {
    match change {
        FileChange::Created => "created"@,
        FileChange::Changed => "changed"@,
        FileChange::Deleted => "deleted"@,
    }
}

/// The noun that names an entry kind.
pub open spec fn entry_noun(kind: EntryKind) -> Seq<char> {
    match kind {
        EntryKind::File => "File"@,
        EntryKind::Directory => "Directory"@,
        EntryKind::Unknown => "Path"@,
    }
}

impl EntryKind {
    /// The noun that names this kind of entry.
    pub fn noun(self) -> (r: &'static str)
        ensures
            r@ == entry_noun(self),
    {
        match self {
            EntryKind::File => "File",
            EntryKind::Directory => "Directory",
            EntryKind::Unknown => "Path",
        }
    }
}

/// Two observations of one path merged: the changes merge, and a known entry
/// kind of the later observation replaces the earlier one.
pub open spec fn merged_path_change(first: PathChange, next: PathChange) -> PathChange {
    PathChange {
        change: merged_change(first.change, next.change),
        entry_kind: match next.entry_kind {
            EntryKind::Unknown => first.entry_kind,
            kind => kind,
        },
    }
}

impl PathChange {
    /// This observation followed by `next`.
    pub fn merge(self, next: Self) -> (r: Self)
        ensures
            r == merged_path_change(self, next),
    {
        PathChange {
            change: self.change.merge(next.change),
            entry_kind: match next.entry_kind {
                EntryKind::Unknown => self.entry_kind,
                kind => kind,
            },
        }
    }
}

/// What a filesystem watcher reports about an event, as far as reloading
/// cares: what kind of event it is and, for creations and removals, what
/// kind of entry it concerns when the watcher says so.
#[derive(Clone, Copy, Debug, PartialEq, Eq, Structural)]
pub enum WatchEventKind {
    Any,
    Access,
    Create(EntryKind),
    Modify,
    Remove(EntryKind),
    Other,
}

/// The change an event reports, if it reports one.
pub open spec fn event_change(kind: WatchEventKind) -> Option<FileChange> {
    match kind {
        WatchEventKind::Any | WatchEventKind::Modify => Some(FileChange::Changed),
        WatchEventKind::Create(_) => Some(FileChange::Created),
        WatchEventKind::Remove(_) => Some(FileChange::Deleted),
        _ => None,
    }
}

/// The change an event reports, if it reports one.
pub fn file_change(kind: WatchEventKind) -> (r: Option<FileChange>)
    ensures
        r == event_change(kind),
{
    match kind {
        WatchEventKind::Any | WatchEventKind::Modify => Some(FileChange::Changed),
        WatchEventKind::Create(_) => Some(FileChange::Created),
        WatchEventKind::Remove(_) => Some(FileChange::Deleted),
        _ => None,
    }
}

/// The entry kind an event states outright: that of a file or folder
/// creation or removal.
pub open spec fn stated_entry_kind(kind: WatchEventKind) -> Option<EntryKind> {
    match kind {
        WatchEventKind::Create(EntryKind::File) | WatchEventKind::Remove(EntryKind::File) => Some(
            EntryKind::File,
        ),
        WatchEventKind::Create(EntryKind::Directory) | WatchEventKind::Remove(
            EntryKind::Directory,
        ) => Some(EntryKind::Directory),
        _ => None,
    }
}

/// The entry kind an event states outright.
pub fn explicit_entry_kind(kind: WatchEventKind) -> (r: Option<EntryKind>)
    ensures
        r == stated_entry_kind(kind),
{
    match kind {
        WatchEventKind::Create(EntryKind::File) | WatchEventKind::Remove(EntryKind::File) => Some(
            EntryKind::File,
        ),
        WatchEventKind::Create(EntryKind::Directory) | WatchEventKind::Remove(
            EntryKind::Directory,
        ) => Some(EntryKind::Directory),
        _ => None,
    }
}

/// The kind of entry that a path now names on disk, if it names one.
pub open spec fn existing_kind(is_directory: bool, is_file: bool) -> Option<EntryKind> {
    if is_directory {
        Some(EntryKind::Directory)
    } else if is_file {
        Some(EntryKind::File)
    } else {
        None
    }
}

/// The kind of entry that a path names on disk, given what the filesystem
/// says of it.
pub fn existing_entry_kind(is_directory: bool, is_file: bool) -> (r: Option<EntryKind>)
    ensures
        r == existing_kind(is_directory, is_file),
{
    if is_directory {
        Some(EntryKind::Directory)
    } else if is_file {
        Some(EntryKind::File)
    } else {
        None
    }
}

/// The kind recorded for one path of an event: what the event states, else
/// what the path names on disk, else what the event's paths name, else
/// unknown.
pub open spec fn recorded_kind(
    kind: WatchEventKind,
    on_disk: Option<EntryKind>,
    event_level: Option<EntryKind>,
) -> EntryKind {
    match stated_entry_kind(kind) {
        Some(k) => k,
        None => match on_disk {
            Some(k) => k,
            None => match event_level {
                Some(k) => k,
                None => EntryKind::Unknown,
            },
        },
    }
}

/// The kind recorded for one path of an event.
pub fn resolve_entry_kind(
    kind: WatchEventKind,
    on_disk: Option<EntryKind>,
    event_level: Option<EntryKind>,
) -> (r: EntryKind)
    ensures
        r == recorded_kind(kind, on_disk, event_level),
{
    match explicit_entry_kind(kind) {
        Some(k) => k,
        None => match on_disk {
            Some(k) => k,
            None => match event_level {
                Some(k) => k,
                None => EntryKind::Unknown,
            },
        },
    }
}

} // verus!
