//! File events: what a change to a watched file is, and which events of the
//! file system notifier count as one. The watcher hands the notifier's
//! events over as `NotifyEvent`s.

use vstd::prelude::*;
use std::path::PathBuf;

verus! {

#[verifier::external_type_specification]
#[verifier::external_body]
pub struct ExPathBuf(PathBuf);


/// Types of file events.
#[derive(Debug, Clone, PartialEq, Eq, Structural)]
pub enum FileEventType {
    /// The file was created.
    Created,
    /// The file was modified.
    Modified,
    /// The file was deleted.
    Deleted,
}

/// A change to a file.
#[derive(Debug)]
pub struct FileEvent {
    /// The file that changed.
    pub path: PathBuf,
    /// How it changed.
    pub event_type: FileEventType,
}

/// The kinds of notifier events, as far as file events tell them apart.
pub enum NotifyKind {
    Create,
    Modify,
    Remove,
    Other,
}

/// A notifier event as the library reads it: its kind and the paths it
/// concerns, in the notifier's order.
pub struct NotifyEvent {
    pub kind: NotifyKind,
    pub paths: Vec<PathBuf>,
}

/// The file event type of a notifier event kind: creation, modification
/// and removal count; other kinds do not.
pub open spec fn event_type_of(kind: NotifyKind) -> Option<FileEventType> {
    match kind {
        NotifyKind::Create => Some(FileEventType::Created),
        NotifyKind::Modify => Some(FileEventType::Modified),
        NotifyKind::Remove => Some(FileEventType::Deleted),
        NotifyKind::Other => None,
    }
}

/// The file event for a notifier event of kind `kind` whose first path is
/// `path`: none for a kind that does not count or an event without a path.
pub fn file_event_from(kind: NotifyKind, path: Option<PathBuf>) -> (r: Option<FileEvent>)
    ensures
        match (event_type_of(kind), path) {
            (Some(t), Some(p)) => r matches Some(fe) && fe.event_type == t && fe.path == p,
            _ => r is None,
        },
{
    let event_type = match kind {
        NotifyKind::Create => FileEventType::Created,
        NotifyKind::Modify => FileEventType::Modified,
        NotifyKind::Remove => FileEventType::Deleted,
        NotifyKind::Other => {
            return None;
        },
    };
    match path {
        Some(p) => Some(FileEvent { path: p, event_type }),
        None => None,
    }
}

/// The file event for a notifier event: creation, modification or removal
/// of its first path; none for other kinds or an event without a path.
pub fn convert_event(event: NotifyEvent) -> (r: Option<FileEvent>)
    ensures
        match (event_type_of(event.kind), event.paths@.len() > 0) {
            (Some(t), true) => r matches Some(fe) && fe.event_type == t && fe.path == event.paths@[0],
            _ => r is None,
        },
{
    let NotifyEvent { kind, paths } = event;
    let mut paths = paths;
    let path = if paths.len() > 0 {
        Some(paths.remove(0))
    } else {
        None
    };
    file_event_from(kind, path)
}

} // verus!
