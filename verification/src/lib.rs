//! One-shot synchronisation between an IMAP server and a local maildir with its index.
use vstd::prelude::*;

pub mod bytes;
pub mod error;
pub mod imap;
pub mod maildir;
pub mod notmuch;
pub mod sync;
pub mod text;

verus! {

/// What a run is asked to do.
#[derive(Clone, Copy, Debug, PartialEq, Eq, Structural)]
pub enum Mode {
    ConnectOnly,
    Pull,
    Push,
}

/// The points at which a run can be told to stop, to try what the next run makes of it.
#[derive(Clone, Copy, Debug, PartialEq, Eq, Structural)]
pub enum Interruption {
    AppendIsNotTransactional,
    MoveOutOfTmpPostRename,
    StoredFlags,
    SuccessfulMovePreCommit,
}

/// Whether the database is to be created after the index failed to open it with `error`:
/// where that was asked for, the path of the database is given, and the database is not
/// there.
pub fn creates(create: bool, given: bool, error: &notmuch::bindings::Error) -> (r: bool)
    ensures
        r == (create && given && (*error == notmuch::bindings::Error::Status(
            notmuch::bindings::STATUS_NO_DATABASE,
        ) || *error == notmuch::bindings::Error::Status(notmuch::bindings::STATUS_FILE_ERROR))),
{
    create && given && (error.no_database() || error.file_error())
}

/// Stops at `point` where that is the point that `chosen` names, and nowhere else.
pub fn interrupt(chosen: &Option<Interruption>, point: Interruption) -> (r: Result<(), Interruption>)
    ensures
        r == (if *chosen == Some(point) {
            Err::<(), Interruption>(point)
        } else {
            Ok(())
        }),
{
    match chosen {
        Some(name) => {
            if *name == point {
                Err(point)
            } else {
                Ok(())
            }
        },
        None => Ok(()),
    }
}

} // verus!
