//! What to do about a change notification from the file system.

use vstd::prelude::*;

use crate::paths::{is_note, is_note_path};

verus! {

/// A change notification for a file below the watched root.
pub enum FsEvent {
    /// The content or the metadata of the file at this path changed.
    Modified(String),
    /// A file was renamed, and both of its paths are known: from, to.
    Renamed(String, String),
    /// A file was renamed, and only one of its paths is known.
    PartialRename(String),
    /// Any other kind of change.
    Other,
}

/// What the index needs in answer to a change.
#[derive(Debug)]
pub enum SyncAction {
    /// Reload the file at this path and refresh the note from it.
    Reload(String),
    /// Forget the note at the first path, load the file at the second and
    /// store it.
    Move(String, String),
    /// Nothing.
    Ignore,
}

/// The action for one change notification. Modifications reload the file;
/// renames of a note with both paths known move it; renames of other files,
/// renames with one path and all other changes (deletions among them) are
/// not handled.
pub fn plan_event(event: FsEvent) -> (r: SyncAction)
    ensures
        match event {
            FsEvent::Modified(p) => r == SyncAction::Reload(p),
            FsEvent::Renamed(from, to) => if is_note_path(from@) {
                r == SyncAction::Move(from, to)
            } else {
                r == SyncAction::Ignore
            },
            _ => r == SyncAction::Ignore,
        },
{
    match event {
        FsEvent::Modified(p) => SyncAction::Reload(p),
        FsEvent::Renamed(from, to) => {
            if is_note(from.as_str()) {
                SyncAction::Move(from, to)
            } else {
                SyncAction::Ignore
            }
        },
        FsEvent::PartialRename(_) => SyncAction::Ignore,
        FsEvent::Other => SyncAction::Ignore,
    }
}

} // verus!
