//! The IMAP side: the values that responses denote, the grammar, the parsers and the framed
//! stream.
use vstd::prelude::*;

pub mod codec;
pub mod grammar;
pub mod laws;
pub mod log;
pub mod parser;
pub mod rules;
pub mod stream;

verus! {

/// A range of identifiers, both ends included.
#[derive(Clone, Copy, Debug, PartialEq, Eq)]
pub struct Range(pub u64, pub u64);

impl DeepView for Range {
    type V = Range;

    open spec fn deep_view(&self) -> Range {
        *self
    }
}

/// The name of a mailbox as the server writes it.
#[derive(Clone, Debug, PartialEq, Eq)]
pub enum Mailbox {
    Inbox,
    Other(Vec<u8>),
}

/// What a [`Mailbox`] denotes.
pub enum MailboxView {
    Inbox,
    Other(Seq<u8>),
}

impl DeepView for Mailbox {
    type V = MailboxView;

    open spec fn deep_view(&self) -> MailboxView {
        match self {
            Mailbox::Inbox => MailboxView::Inbox,
            Mailbox::Other(name) => MailboxView::Other(name@),
        }
    }
}

/// What an untagged FETCH tells of one message while a mailbox is selected.
#[derive(Clone, Debug, PartialEq, Eq)]
pub struct SelectFetch {
    pub uid: u64,
    pub flags: Vec<Vec<u8>>,
    pub modseq: u64,
}

/// What a [`SelectFetch`] denotes.
pub struct SelectFetchView {
    pub uid: u64,
    pub flags: Seq<Seq<u8>>,
    pub modseq: u64,
}

impl DeepView for SelectFetch {
    type V = SelectFetchView;

    open spec fn deep_view(&self) -> SelectFetchView {
        SelectFetchView { uid: self.uid, flags: self.flags.deep_view(), modseq: self.modseq }
    }
}

/// One untagged response to a SELECT.
#[derive(Clone, Debug, PartialEq, Eq)]
pub enum Select {
    Flags(Vec<Vec<u8>>),
    UIDValidity(u64),
    HighestModSeq(u64),
    Vanished(Vec<Range>),
    Fetch(SelectFetch),
}

/// What a [`Select`] denotes.
pub enum SelectView {
    Flags(Seq<Seq<u8>>),
    UIDValidity(u64),
    HighestModSeq(u64),
    Vanished(Seq<Range>),
    Fetch(SelectFetchView),
}

impl DeepView for Select {
    type V = SelectView;

    open spec fn deep_view(&self) -> SelectView {
        match self {
            Select::Flags(flags) => SelectView::Flags(flags.deep_view()),
            Select::UIDValidity(n) => SelectView::UIDValidity(*n),
            Select::HighestModSeq(n) => SelectView::HighestModSeq(*n),
            Select::Vanished(uids) => SelectView::Vanished(uids@),
            Select::Fetch(fetch) => SelectView::Fetch(fetch.deep_view()),
        }
    }
}

/// Where the server put an appended message.
#[derive(Clone, Copy, Debug, PartialEq, Eq)]
pub struct Append {
    pub uidvalidity: u64,
    pub uid: u64,
}

impl DeepView for Append {
    type V = Append;

    open spec fn deep_view(&self) -> Append {
        *self
    }
}

/// The mod-sequence that a STORE gave a message.
#[derive(Clone, Copy, Debug, PartialEq, Eq)]
pub struct Store {
    pub uid: u64,
    pub modseq: u64,
}

impl DeepView for Store {
    type V = Store;

    open spec fn deep_view(&self) -> Store {
        *self
    }
}

/// Where the server put moved messages: the identifiers they had and those they got.
#[derive(Clone, Debug, PartialEq, Eq)]
pub struct Move {
    pub uidvalidity: u64,
    pub from: Vec<Range>,
    pub to: Vec<Range>,
}

/// What a [`Move`] denotes.
pub struct MoveView {
    pub uidvalidity: u64,
    pub from: Seq<Range>,
    pub to: Seq<Range>,
}

impl DeepView for Move {
    type V = MoveView;

    open spec fn deep_view(&self) -> MoveView {
        MoveView { uidvalidity: self.uidvalidity, from: self.from@, to: self.to@ }
    }
}

} // verus!
