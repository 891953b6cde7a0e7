//! What can go wrong in a run.
use vstd::prelude::*;
use crate::imap::parser::ParseError;
use crate::Interruption;

verus! {

/// A capability that the engine cannot do without.
#[derive(Clone, Copy, Debug, PartialEq, Eq, Structural)]
pub enum Capability {
    Imap4rev1,
    AuthPlain,
    Enable,
    LiteralPlus,
    Namespace,
    UidPlus,
    Move,
    CondStore,
    QResync,
}

/// Why a run stops. Every one of these ends the run: nothing is retried.
#[derive(Clone, Copy, Debug, PartialEq, Eq, Structural)]
pub enum Error {
    /// The server sent a response that the grammar refuses where one was owed.
    Parse(ParseError),
    /// The server closed the connection.
    EndOfStream,
    /// A tagged response carried another tag than the command's.
    UnexpectedTag,
    /// The server does not announce a capability that the engine needs.
    MissingCapability(Capability),
    /// The server did not confirm that QRESYNC is enabled.
    NotEnabled,
    /// The mailbox does not accept keywords of the user's own.
    MissingUserKeywords,
    /// A SELECT was answered without UIDVALIDITY.
    MissingUidValidity,
    /// A SELECT or an APPEND was answered without HIGHESTMODSEQ.
    MissingHighestModSeq,
    /// The mailbox does not keep mod-sequences.
    UnsupportedHighestModSeq,
    /// The server answered about another message than the one asked for.
    InvalidUid,
    /// The server went without the untagged FETCH that the command owed.
    MissingFetch,
    /// The server has no body for the message.
    MissingBody,
    /// The name of a mailbox is not modified UTF-7.
    InvalidMailbox,
    /// The hierarchy separator of a mailbox is not the one on record.
    SeparatorChanged,
    /// The mailbox was recreated on the server and may not be purged here.
    ValidityChanged,
    /// The mailbox is gone from the server and may not be purged here.
    MailboxRemoved,
    /// The server and the index disagree about a message: a pull has to come first.
    RerunPull,
    /// A path without the directories that a message in a maildir has.
    InvalidPath,
    /// A property that the engine wrote does not read back as it was written.
    InvalidProperty,
    /// Something happened that cannot happen where the run stands.
    OutOfOrder,
    /// The run was told to stop at this point.
    Interrupted(Interruption),
}

} // verus!
