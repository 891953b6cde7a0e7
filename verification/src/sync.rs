//! The session with the server: what the engine sends, and what it makes of the answers.
//!
//! The answers to a command are read from the framed stream once all of them are in its
//! buffer: untagged responses first, of which the command takes those it looks for and passes
//! over the others, then the completion, under the tag of the command.
use vstd::prelude::*;
use vstd::slice::slice_to_vec;
use vstd::string::{StringExecFns, StringSliceAdditionalSpecFns};
use crate::bytes;
use crate::error::{Capability, Error};
use crate::imap;
use crate::imap::codec;
use crate::imap::grammar;
use crate::imap::parser;
use crate::imap::rules;
use crate::imap::stream::{refused, Scan, Stream, StreamView};
use crate::imap::Range;
use crate::maildir;
use crate::notmuch;
use crate::text;
use crate::text::strs;

pub mod pull;
pub mod push;

verus! {

/// What an untagged response means to a command that has gathered `acc`: none where the
/// response is not of the kind that the command looks for, else the number of bytes of the
/// response and what the command has gathered with it, or the error that it is.
pub open spec fn scanned<A>(
    buffer: Seq<u8>,
    end: int,
    tag: Seq<u8>,
    item: spec_fn(Seq<u8>, A) -> Option<(int, Result<A, Error>)>,
    acc: A,
) -> Scan<A>
    decreases buffer.len() - end,
{
    let head = grammar::start(buffer.subrange(end, buffer.len() as int), 0);
    match head.matched {
        None => Scan { end, result: Err(refused(head.far)) },
        Some((n, which)) => {
            let at = end + n;
            let tail = buffer.subrange(at, buffer.len() as int);
            if which == seq![grammar::STAR] {
                match item(tail, acc) {
                    Some((m, Ok(next))) if end < at + m <= buffer.len() => scanned(
                        buffer,
                        at + m,
                        tag,
                        item,
                        next,
                    ),
                    Some((m, Err(error))) if end < at + m <= buffer.len() => Scan {
                        end: at + m,
                        result: Err(error),
                    },
                    _ => {
                        let line = grammar::skip(tail, 0);
                        match line.matched {
                            Some((m, _)) if end < at + m <= buffer.len() => scanned(
                                buffer,
                                at + m,
                                tag,
                                item,
                                acc,
                            ),
                            _ => Scan { end: at, result: Err(refused(line.far)) },
                        }
                    },
                }
            } else if which == tag {
                Scan { end: at, result: Ok(acc) }
            } else {
                Scan { end: at, result: Err(Error::UnexpectedTag) }
            }
        },
    }
}

/// The scan once the line at its end has completed the command with OK.
pub open spec fn completed<A>(buffer: Seq<u8>, scan: Scan<A>) -> Scan<A> {
    match scan.result {
        Err(_) => scan,
        Ok(acc) => {
            let line = grammar::ok(buffer.subrange(scan.end, buffer.len() as int), 0);
            match line.matched {
                Some((m, _)) => Scan { end: scan.end + m, result: Ok(acc) },
                None => Scan { end: scan.end, result: Err(refused(line.far)) },
            }
        },
    }
}

/// How a response starts.
pub(crate) enum Head {
    Untagged,
    Tagged(Vec<u8>),
}

/// Reads how the next response starts.
pub(crate) fn head(stream: &mut Stream) -> (r: Result<Head, Error>)
    requires
        old(stream)@.wf(),
    ensures
        final(stream)@.wf(),
        match grammar::start(old(stream)@.rest(), 0).matched {
            None => r == Err::<Head, Error>(
                refused(grammar::start(old(stream)@.rest(), 0).far),
            ) && final(stream)@ == old(stream)@,
            Some((n, which)) => n > 0 && old(stream)@.end + n <= old(stream)@.buffer.len()
                && final(stream)@ == old(stream)@.at(old(stream)@.end + n) && (match r {
                Ok(Head::Untagged) => which == seq![grammar::STAR],
                Ok(Head::Tagged(tag)) => which != seq![grammar::STAR] && tag@ == which,
                Err(_) => false,
            }),
        },
{
    match parser::start(stream.rest()) {
        Ok((consumed, tag)) => {
            stream.advance(consumed);
            proof {
                rules::lemma_bytes_deep_view(tag);
            }
            if tag.len() == 1 && tag[0] == grammar::STAR {
                assert(tag@ =~= seq![grammar::STAR]);
                Ok(Head::Untagged)
            } else {
                Ok(Head::Tagged(tag))
            }
        },
        Err(error) => Err(Error::Parse(error)),
    }
}

/// Passes over one line.
pub(crate) fn skip_line(stream: &mut Stream) -> (r: Result<(), Error>)
    requires
        old(stream)@.wf(),
    ensures
        final(stream)@.wf(),
        match grammar::skip(old(stream)@.rest(), 0).matched {
            None => r == Err::<(), Error>(refused(grammar::skip(old(stream)@.rest(), 0).far))
                && final(stream)@ == old(stream)@,
            Some((m, _)) => r is Ok && 0 <= m && old(stream)@.end + m <= old(stream)@.buffer.len()
                && final(stream)@ == old(stream)@.at(old(stream)@.end + m),
        },
{
    match parser::skip(stream.rest()) {
        Ok((consumed, _)) => {
            stream.advance(consumed);
            Ok(())
        },
        Err(error) => Err(Error::Parse(error)),
    }
}

/// Reads the line that completes a command with OK.
pub(crate) fn complete(stream: &mut Stream) -> (r: Result<(), Error>)
    requires
        old(stream)@.wf(),
    ensures
        final(stream)@.wf(),
        match grammar::ok(old(stream)@.rest(), 0).matched {
            None => r == Err::<(), Error>(refused(grammar::ok(old(stream)@.rest(), 0).far))
                && final(stream)@ == old(stream)@,
            Some((m, _)) => r is Ok && final(stream)@ == old(stream)@.at(old(stream)@.end + m),
        },
{
    match parser::ok(stream.rest()) {
        Ok((consumed, _)) => {
            stream.advance(consumed);
            Ok(())
        },
        Err(error) => Err(Error::Parse(error)),
    }
}

/// A mailbox of the server.
#[derive(Clone, Debug, PartialEq, Eq)]
pub struct Mailbox {
    /// Its name as the server writes it.
    pub bytes: Vec<u8>,
    /// Its name as the user reads it.
    pub string: String,
    /// Its hierarchy separator.
    pub separator: Option<char>,
}

/// What a [`Mailbox`] denotes.
pub struct MailboxView {
    pub bytes: Seq<u8>,
    pub string: Seq<char>,
    pub separator: Option<char>,
}

impl View for Mailbox {
    type V = MailboxView;

    open spec fn view(&self) -> MailboxView {
        MailboxView { bytes: self.bytes@, string: self.string@, separator: self.separator }
    }
}

/// What changed of one message since the mailbox was last selected.
#[derive(Clone, Debug, PartialEq, Eq)]
pub struct Changes {
    pub uid: u64,
    pub flags: Vec<String>,
    pub modseq: u64,
}

/// What [`Changes`] denote.
pub struct ChangesView {
    pub uid: u64,
    pub flags: Seq<Seq<char>>,
    pub modseq: u64,
}

impl View for Changes {
    type V = ChangesView;

    open spec fn view(&self) -> ChangesView {
        ChangesView { uid: self.uid, flags: strs(self.flags@), modseq: self.modseq }
    }
}

/// What the changes in `v` denote.
pub open spec fn changes(v: Seq<Changes>) -> Seq<ChangesView> {
    Seq::new(v.len(), |i: int| v[i]@)
}

/// What a SELECT told of a mailbox.
#[derive(Clone, Debug, PartialEq, Eq)]
pub struct Select {
    pub uidvalidity: u64,
    pub highestmodseq: u64,
    /// The messages that are gone.
    pub vanished: Vec<Range>,
    /// The messages that changed, each once, in the order in which the server first named them.
    pub changes: Vec<Changes>,
}

/// What a [`Select`] denotes.
pub struct SelectView {
    pub uidvalidity: u64,
    pub highestmodseq: u64,
    pub vanished: Seq<Range>,
    pub changes: Seq<ChangesView>,
}

impl View for Select {
    type V = SelectView;

    open spec fn view(&self) -> SelectView {
        SelectView {
            uidvalidity: self.uidvalidity,
            highestmodseq: self.highestmodseq,
            vanished: self.vanished@,
            changes: changes(self.changes@),
        }
    }
}


/// `list` with `change` in place of what it held for the same message, or at its end where
/// it held nothing for it.
pub open spec fn recorded(list: Seq<ChangesView>, change: ChangesView) -> Seq<ChangesView>
    decreases list.len(),
{
    if list.len() == 0 {
        seq![change]
    } else if list[0].uid == change.uid {
        seq![change] + list.skip(1)
    } else {
        seq![list[0]] + recorded(list.skip(1), change)
    }
}

/// No message stands twice in `list`.
pub open spec fn once(list: Seq<ChangesView>) -> bool {
    forall|i: int, j: int| 0 <= i < j < list.len() ==> list[i].uid != list[j].uid
}

proof fn lemma_recorded(list: Seq<ChangesView>, change: ChangesView, at: int)
    requires
        0 <= at <= list.len(),
        forall|j: int| 0 <= j < at ==> list[j].uid != change.uid,
        at < list.len() ==> list[at].uid == change.uid,
    ensures
        recorded(list, change) == (if at < list.len() {
            list.update(at, change)
        } else {
            list.push(change)
        }),
    decreases list.len(),
{
    if list.len() == 0 {
        assert(seq![change] =~= list.push(change));
    } else if at == 0 {
        assert(seq![change] + list.skip(1) =~= list.update(0, change));
    } else {
        lemma_recorded(list.skip(1), change, at - 1);
        if at < list.len() {
            assert(seq![list[0]] + list.skip(1).update(at - 1, change) =~= list.update(at, change));
        } else {
            assert(seq![list[0]] + list.skip(1).push(change) =~= list.push(change));
        }
    }
}

fn record(list: &mut Vec<Changes>, change: Changes)
    requires
        once(changes(old(list)@)),
    ensures
        once(changes(final(list)@)),
        changes(final(list)@) == recorded(changes(old(list)@), change@),
{
    let ghost before = changes(list@);
    let mut at: usize = 0;
    while at < list.len() && list[at].uid != change.uid
        invariant
            at <= list.len(),
            list@ == old(list)@,
            before == changes(list@),
            forall|j: int| 0 <= j < at ==> before[j].uid != change.uid,
        decreases list.len() - at,
    {
        at += 1;
    }
    proof {
        lemma_recorded(before, change@, at as int);
    }
    if at < list.len() {
        list.remove(at);
        list.insert(at, change);
        assert(changes(list@) =~= before.update(at as int, change@));
        assert forall|i: int, j: int| 0 <= i < j < changes(list@).len() implies changes(list@)[i].uid
            != changes(list@)[j].uid by {
            assert(changes(list@)[i].uid == before[i].uid);
            assert(changes(list@)[j].uid == before[j].uid);
        }
    } else {
        list.push(change);
        assert(changes(list@) =~= before.push(change@));
        assert forall|i: int, j: int| 0 <= i < j < changes(list@).len() implies changes(list@)[i].uid
            != changes(list@)[j].uid by {
            if j < before.len() {
                assert(changes(list@)[i].uid == before[i].uid);
                assert(changes(list@)[j].uid == before[j].uid);
            }
        }
    }
}

/// What the untagged responses to a SELECT have told so far.
pub struct Gathered {
    pub user_keywords: bool,
    pub uidvalidity: Option<u64>,
    pub highestmodseq: Option<u64>,
    pub vanished: Seq<Range>,
    pub changes: Seq<ChangesView>,
}

/// What is gathered once one more response to a SELECT is taken in. The last of several
/// PERMANENTFLAGS, UIDVALIDITY or HIGHESTMODSEQ counts, as does the last FETCH of a message;
/// the VANISHED add up. The flags of a FETCH are ASCII, as every flag of the grammar is.
pub open spec fn select_step(acc: Gathered, item: imap::SelectView) -> Result<Gathered, Error> {
    match item {
        imap::SelectView::Flags(flags) => Ok(
            Gathered { user_keywords: flags.contains("\\*".spec_bytes()), ..acc },
        ),
        imap::SelectView::UIDValidity(n) => Ok(Gathered { uidvalidity: Some(n), ..acc }),
        imap::SelectView::HighestModSeq(n) => Ok(Gathered { highestmodseq: Some(n), ..acc }),
        imap::SelectView::Vanished(uids) => Ok(Gathered { vanished: acc.vanished + uids, ..acc }),
        imap::SelectView::Fetch(fetch) => Ok(
            Gathered {
                changes: recorded(
                    acc.changes,
                    ChangesView {
                        uid: fetch.uid,
                        flags: text::chars_all(fetch.flags),
                        modseq: fetch.modseq,
                    },
                ),
                ..acc
            },
        ),
    }
}

/// What an untagged response means to a SELECT that has gathered `acc`: one of the responses
/// that a SELECT looks for is taken in; any other that opens as a FETCH is an error, since a
/// FETCH has to carry UID, FLAGS and MODSEQ; anything else is none of its business.
pub open spec fn select_item(tail: Seq<u8>, acc: Gathered) -> Option<(int, Result<Gathered, Error>)> {
    match grammar::select_data(tail, 0).matched {
        Some((m, item)) => Some((m, select_step(acc, item))),
        None => if grammar::fetch_head(tail, 0).matched is Some {
            Some((0, Err(refused(grammar::select_data(tail, 0).far))))
        } else {
            None
        },
    }
}

/// The untagged answers to a SELECT, read from `end` on.
pub open spec fn select_scan(buffer: Seq<u8>, end: int, acc: Gathered) -> Scan<Gathered> {
    scanned(
        buffer,
        end,
        "select".spec_bytes(),
        |tail: Seq<u8>, acc: Gathered| select_item(tail, acc),
        acc,
    )
}

/// What a SELECT told, once all of it is gathered: the mailbox has to take keywords of the
/// user's own, and to have a UIDVALIDITY and a HIGHESTMODSEQ, which is not 0.
pub open spec fn select_outcome(acc: Gathered) -> Result<SelectView, Error> {
    if !acc.user_keywords {
        Err(Error::MissingUserKeywords)
    } else if acc.uidvalidity is None {
        Err(Error::MissingUidValidity)
    } else if acc.highestmodseq is None {
        Err(Error::MissingHighestModSeq)
    } else if acc.highestmodseq->0 == 0 {
        Err(Error::UnsupportedHighestModSeq)
    } else {
        Ok(
            SelectView {
                uidvalidity: acc.uidvalidity->0,
                highestmodseq: acc.highestmodseq->0,
                vanished: acc.vanished,
                changes: acc.changes,
            },
        )
    }
}

/// The answers to a SELECT, read from `end` on.
pub open spec fn selected(buffer: Seq<u8>, end: int) -> Scan<SelectView> {
    let scan = completed(
        buffer,
        select_scan(
            buffer,
            end,
            Gathered {
                user_keywords: false,
                uidvalidity: None,
                highestmodseq: None,
                vanished: Seq::empty(),
                changes: Seq::empty(),
            },
        ),
    );
    match scan.result {
        Ok(acc) => Scan { end: scan.end, result: select_outcome(acc) },
        Err(error) => Scan { end: scan.end, result: Err(error) },
    }
}

/// `r` is the outcome `expected`.
pub open spec fn select_is(r: Result<Select, Error>, expected: Result<SelectView, Error>) -> bool {
    match r {
        Ok(select) => expected == Ok::<SelectView, Error>(select@),
        Err(error) => expected == Err::<SelectView, Error>(error),
    }
}

/// Reads the answers to a SELECT. An untagged FETCH that lacks one of UID, FLAGS and MODSEQ
/// ends the run; any other untagged response that a SELECT does not look for is passed over.
pub fn select(stream: &mut Stream) -> (r: Result<Select, Error>)
    requires
        old(stream)@.wf(),
    ensures
        final(stream)@.wf(),
        final(stream)@ == old(stream)@.at(selected(old(stream)@.buffer, old(stream)@.end).end),
        select_is(r, selected(old(stream)@.buffer, old(stream)@.end).result),
{
    let mut user_keywords = false;
    let mut uidvalidity: Option<u64> = None;
    let mut highestmodseq: Option<u64> = None;
    let mut vanished: Vec<Range> = Vec::new();
    let mut changed: Vec<Changes> = Vec::new();
    let ghost first = Gathered {
        user_keywords: false,
        uidvalidity: None,
        highestmodseq: None,
        vanished: Seq::empty(),
        changes: Seq::empty(),
    };
    assert(changes(changed@) =~= Seq::<ChangesView>::empty());
    loop
        invariant_except_break
            select_scan(old(stream)@.buffer, old(stream)@.end, first) == select_scan(
                stream@.buffer,
                stream@.end,
                Gathered {
                    user_keywords,
                    uidvalidity,
                    highestmodseq,
                    vanished: vanished@,
                    changes: changes(changed@),
                },
            ),
        invariant
            stream@.wf(),
            stream@ == old(stream)@.at(stream@.end),
            once(changes(changed@)),
            first == (Gathered {
                user_keywords: false,
                uidvalidity: None,
                highestmodseq: None,
                vanished: Seq::empty(),
                changes: Seq::empty(),
            }),
        ensures
            select_scan(old(stream)@.buffer, old(stream)@.end, first) == (Scan {
                end: stream@.end,
                result: Ok(
                    Gathered {
                        user_keywords,
                        uidvalidity,
                        highestmodseq,
                        vanished: vanished@,
                        changes: changes(changed@),
                    },
                ),
            }),
        decreases stream@.buffer.len() - stream@.end,
    {
        match head(stream) {
            Err(error) => {
                return Err(error);
            },
            Ok(Head::Tagged(tag)) => {
                if bytes::same(tag.as_slice(), "select".as_bytes()) {
                    break ;
                } else {
                    return Err(Error::UnexpectedTag);
                }
            },
            Ok(Head::Untagged) => match parser::select_data(stream.rest()) {
                Ok((consumed, item)) => {
                    proof {
                        imap::laws::lemma_select_flags_are_ascii(stream@.rest());
                    }
                    stream.advance(consumed);
                    match item {
                        imap::Select::Flags(flags) => {
                            proof {
                                bytes::lemma_deep_view_is_views(flags);
                            }
                            user_keywords = bytes::contains(&flags, "\\*".as_bytes());
                        },
                        imap::Select::UIDValidity(n) => {
                            uidvalidity = Some(n);
                        },
                        imap::Select::HighestModSeq(n) => {
                            highestmodseq = Some(n);
                        },
                        imap::Select::Vanished(mut uids) => {
                            let ghost before = vanished@;
                            let ghost more = uids@;
                            vanished.append(&mut uids);
                            assert(vanished@ =~= before + more);
                        },
                        imap::Select::Fetch(fetch) => {
                            proof {
                                bytes::lemma_deep_view_is_views(fetch.flags);
                            }
                            let flags = match text::ascii_strings(&fetch.flags) {
                                Some(flags) => flags,
                                None => vstd::pervasive::unreached(),
                            };
                            record(
                                &mut changed,
                                Changes { uid: fetch.uid, flags, modseq: fetch.modseq },
                            );
                        },
                    }
                },
                Err(error) => {
                    let mut far: usize = 0;
                    match rules::fetch_head(stream.rest(), 0, &mut far) {
                        Some(_) => {
                            return Err(Error::Parse(error));
                        },
                        None => {},
                    }
                    match skip_line(stream) {
                        Ok(_) => {},
                        Err(error) => {
                            return Err(error);
                        },
                    }
                },
            },
        }
    }
    match complete(stream) {
        Ok(_) => {},
        Err(error) => {
            return Err(error);
        },
    }
    if !user_keywords {
        return Err(Error::MissingUserKeywords);
    }
    let uidvalidity = match uidvalidity {
        Some(n) => n,
        None => {
            return Err(Error::MissingUidValidity);
        },
    };
    let highestmodseq = match highestmodseq {
        Some(n) => n,
        None => {
            return Err(Error::MissingHighestModSeq);
        },
    };
    if highestmodseq == 0 {
        return Err(Error::UnsupportedHighestModSeq);
    }
    Ok(Select { uidvalidity, highestmodseq, vanished, changes: changed })
}


/// What the engine sends for one command: the buffers to write one after the other, of which
/// the first `log` may be shown in the log.
#[derive(Clone, Debug, PartialEq, Eq)]
pub struct Command {
    pub buffers: Vec<Vec<u8>>,
    pub log: usize,
}

impl Command {
    /// The bytes of the command.
    pub open spec fn bytes(self) -> Seq<u8> {
        bytes::joined(bytes::views(self.buffers@))
    }

    /// The buffers of the command.
    pub open spec fn parts(self) -> Seq<Seq<u8>> {
        bytes::views(self.buffers@)
    }
}

/// `zeroize::Zeroize::zeroize` on a `Vec<u8>`: its bytes are overwritten with zeros, and it
/// is left empty.
#[verifier::external_body]
fn wipe(secret: &mut Vec<u8>)
    ensures
        final(secret)@ == Seq::<u8>::empty(),
{
    zeroize::Zeroize::zeroize(secret)
}

impl Command {
    /// Forgets the command once it is sent: its bytes, which may be credentials, are
    /// overwritten, and nothing is left of it.
    pub fn forget(&mut self)
        ensures
            final(self).buffers@ == Seq::<Vec<u8>>::empty(),
            final(self).log == 0,
    {
        while self.buffers.len() > 0
            decreases self.buffers@.len(),
        {
            match self.buffers.pop() {
                Some(buffer) => {
                    let mut buffer = buffer;
                    wipe(&mut buffer);
                },
                None => {},
            }
        }
        self.log = 0;
        assert(self.buffers@ =~= Seq::<Vec<u8>>::empty());
    }
}

/// The bytes of a string.
pub(crate) fn part(s: &str) -> (r: Vec<u8>)
    ensures
        r@ == s.spec_bytes(),
{
    slice_to_vec(s.as_bytes())
}

/// The bytes of a byte string.
pub(crate) fn copy(bytes: &[u8]) -> (r: Vec<u8>)
    ensures
        r@ == bytes@,
{
    slice_to_vec(bytes)
}

/// Whether the server announces what the engine needs before it logs in.
pub open spec fn greeting_outcome(capabilities: Seq<Seq<u8>>) -> Result<(), Error> {
    if !capabilities.contains("IMAP4rev1".spec_bytes()) {
        Err(Error::MissingCapability(Capability::Imap4rev1))
    } else if !capabilities.contains("AUTH=PLAIN".spec_bytes()) {
        Err(Error::MissingCapability(Capability::AuthPlain))
    } else if !capabilities.contains("ENABLE".spec_bytes()) {
        Err(Error::MissingCapability(Capability::Enable))
    } else if !capabilities.contains("LITERAL+".spec_bytes()) {
        Err(Error::MissingCapability(Capability::LiteralPlus))
    } else {
        Ok(())
    }
}

/// The capabilities of the greeting, read from `end` on: the first untagged response that is
/// an OK with the CAPABILITY code. A response under a tag is an error.
pub open spec fn greeted(buffer: Seq<u8>, end: int) -> Scan<Seq<Seq<u8>>>
    decreases buffer.len() - end,
{
    let head = grammar::start(buffer.subrange(end, buffer.len() as int), 0);
    match head.matched {
        None => Scan { end, result: Err(refused(head.far)) },
        Some((n, which)) => {
            let at = end + n;
            if which == seq![grammar::STAR] {
                match grammar::available_capabilities(
                    buffer.subrange(at, buffer.len() as int),
                    0,
                ).matched {
                    Some((m, capabilities)) => Scan { end: at + m, result: Ok(capabilities) },
                    None => if end < at <= buffer.len() {
                        greeted(buffer, at)
                    } else {
                        Scan { end: at, result: Err(Error::UnexpectedTag) }
                    },
                }
            } else {
                Scan { end: at, result: Err(Error::UnexpectedTag) }
            }
        },
    }
}

/// The greeting, read from `end` on.
pub open spec fn greetings_of(buffer: Seq<u8>, end: int) -> Scan<()> {
    let scan = greeted(buffer, end);
    match scan.result {
        Ok(capabilities) => Scan { end: scan.end, result: greeting_outcome(capabilities) },
        Err(error) => Scan { end: scan.end, result: Err(error) },
    }
}

/// Reads the greeting of the server, which has to announce IMAP4rev1, AUTH=PLAIN, ENABLE and
/// LITERAL+.
pub fn greetings(stream: &mut Stream) -> (r: Result<(), Error>)
    requires
        old(stream)@.wf(),
    ensures
        final(stream)@.wf(),
        final(stream)@ == old(stream)@.at(greetings_of(old(stream)@.buffer, old(stream)@.end).end),
        r == greetings_of(old(stream)@.buffer, old(stream)@.end).result,
{
    let mut capabilities: Vec<Vec<u8>> = Vec::new();
    loop
        invariant_except_break
            greeted(old(stream)@.buffer, old(stream)@.end) == greeted(stream@.buffer, stream@.end),
        invariant
            stream@.wf(),
            stream@ == old(stream)@.at(stream@.end),
        ensures
            greeted(old(stream)@.buffer, old(stream)@.end) == (Scan {
                end: stream@.end,
                result: Ok(bytes::views(capabilities@)),
            }),
        decreases stream@.buffer.len() - stream@.end,
    {
        match head(stream) {
            Err(error) => {
                return Err(error);
            },
            Ok(Head::Tagged(_)) => {
                return Err(Error::UnexpectedTag);
            },
            Ok(Head::Untagged) => match parser::available_capabilities(stream.rest()) {
                Ok((consumed, announced)) => {
                    stream.advance(consumed);
                    proof {
                        bytes::lemma_deep_view_is_views(announced);
                    }
                    capabilities = announced;
                    break ;
                },
                Err(_) => {},
            },
        }
    }
    if !bytes::contains(&capabilities, "IMAP4rev1".as_bytes()) {
        return Err(Error::MissingCapability(Capability::Imap4rev1));
    }
    if !bytes::contains(&capabilities, "AUTH=PLAIN".as_bytes()) {
        return Err(Error::MissingCapability(Capability::AuthPlain));
    }
    if !bytes::contains(&capabilities, "ENABLE".as_bytes()) {
        return Err(Error::MissingCapability(Capability::Enable));
    }
    if !bytes::contains(&capabilities, "LITERAL+".as_bytes()) {
        return Err(Error::MissingCapability(Capability::LiteralPlus));
    }
    Ok(())
}

/// The command that logs `user` in with `password`. The credentials are not for the log,
/// and the command holds the one copy of them: it is to be forgotten once it is sent.
pub fn authenticate_command(user: &str, password: &str) -> (r: Command)
    ensures
        r.log == 1,
        r.parts() == seq![
            "authenticate AUTHENTICATE PLAIN ".spec_bytes(),
            codec::plain_credentials(user.spec_bytes(), password.spec_bytes()),
            "\r\n".spec_bytes(),
        ],
{
    let credentials = codec::plain(user, password);
    let mut buffers: Vec<Vec<u8>> = Vec::new();
    buffers.push(part("authenticate AUTHENTICATE PLAIN "));
    buffers.push(text::into_bytes(credentials));
    buffers.push(part("\r\n"));
    let r = Command { buffers, log: 1 };
    assert(r.parts() =~= seq![
        "authenticate AUTHENTICATE PLAIN ".spec_bytes(),
        codec::plain_credentials(user.spec_bytes(), password.spec_bytes()),
        "\r\n".spec_bytes(),
    ]);
    r
}

/// Whether the server announces what the engine needs once it is logged in.
pub open spec fn session_outcome(capabilities: Seq<Seq<u8>>) -> Result<(), Error> {
    if !capabilities.contains("NAMESPACE".spec_bytes()) {
        Err(Error::MissingCapability(Capability::Namespace))
    } else if !capabilities.contains("UIDPLUS".spec_bytes()) {
        Err(Error::MissingCapability(Capability::UidPlus))
    } else if !capabilities.contains("MOVE".spec_bytes()) {
        Err(Error::MissingCapability(Capability::Move))
    } else if !capabilities.contains("CONDSTORE".spec_bytes()) {
        Err(Error::MissingCapability(Capability::CondStore))
    } else if !capabilities.contains("QRESYNC".spec_bytes()) {
        Err(Error::MissingCapability(Capability::QResync))
    } else {
        Ok(())
    }
}

/// AUTHENTICATE looks for no untagged response.
pub open spec fn nothing(tail: Seq<u8>, acc: ()) -> Option<(int, Result<(), Error>)> {
    None
}

/// The untagged answers to AUTHENTICATE, read from `end` on.
pub open spec fn authenticate_scan(buffer: Seq<u8>, end: int) -> Scan<()> {
    scanned(buffer, end, "authenticate".spec_bytes(), |tail: Seq<u8>, acc: ()| nothing(tail, acc), ())
}

/// The answers to AUTHENTICATE, read from `end` on: the completion has to carry the
/// capabilities of the session.
pub open spec fn authenticated(buffer: Seq<u8>, end: int) -> Scan<()> {
    let scan = authenticate_scan(buffer, end);
    match scan.result {
        Err(error) => Scan { end: scan.end, result: Err(error) },
        Ok(_) => {
            let line = grammar::available_capabilities(
                buffer.subrange(scan.end, buffer.len() as int),
                0,
            );
            match line.matched {
                Some((m, capabilities)) => Scan {
                    end: scan.end + m,
                    result: session_outcome(capabilities),
                },
                None => Scan { end: scan.end, result: Err(refused(line.far)) },
            }
        },
    }
}

/// Reads the answers to AUTHENTICATE: the server has to announce NAMESPACE, UIDPLUS, MOVE,
/// CONDSTORE and QRESYNC.
pub fn authenticate(stream: &mut Stream) -> (r: Result<(), Error>)
    requires
        old(stream)@.wf(),
    ensures
        final(stream)@.wf(),
        final(stream)@ == old(stream)@.at(authenticated(old(stream)@.buffer, old(stream)@.end).end),
        r == authenticated(old(stream)@.buffer, old(stream)@.end).result,
{
    loop
        invariant_except_break
            authenticate_scan(old(stream)@.buffer, old(stream)@.end) == authenticate_scan(
                stream@.buffer,
                stream@.end,
            ),
        invariant
            stream@.wf(),
            stream@ == old(stream)@.at(stream@.end),
        ensures
            authenticate_scan(old(stream)@.buffer, old(stream)@.end) == (Scan {
                end: stream@.end,
                result: Ok(()),
            }),
        decreases stream@.buffer.len() - stream@.end,
    {
        match head(stream) {
            Err(error) => {
                return Err(error);
            },
            Ok(Head::Tagged(tag)) => {
                if bytes::same(tag.as_slice(), "authenticate".as_bytes()) {
                    break ;
                } else {
                    return Err(Error::UnexpectedTag);
                }
            },
            Ok(Head::Untagged) => match skip_line(stream) {
                Ok(_) => {},
                Err(error) => {
                    return Err(error);
                },
            },
        }
    }
    let capabilities = match parser::available_capabilities(stream.rest()) {
        Ok((consumed, capabilities)) => {
            stream.advance(consumed);
            capabilities
        },
        Err(error) => {
            return Err(Error::Parse(error));
        },
    };
    proof {
        bytes::lemma_deep_view_is_views(capabilities);
    }
    if !bytes::contains(&capabilities, "NAMESPACE".as_bytes()) {
        return Err(Error::MissingCapability(Capability::Namespace));
    }
    if !bytes::contains(&capabilities, "UIDPLUS".as_bytes()) {
        return Err(Error::MissingCapability(Capability::UidPlus));
    }
    if !bytes::contains(&capabilities, "MOVE".as_bytes()) {
        return Err(Error::MissingCapability(Capability::Move));
    }
    if !bytes::contains(&capabilities, "CONDSTORE".as_bytes()) {
        return Err(Error::MissingCapability(Capability::CondStore));
    }
    if !bytes::contains(&capabilities, "QRESYNC".as_bytes()) {
        return Err(Error::MissingCapability(Capability::QResync));
    }
    Ok(())
}

/// The command that enables QRESYNC.
pub fn enable_command() -> (r: Command)
    ensures
        r.log == 1,
        r.parts() == seq!["enable ENABLE QRESYNC\r\n".spec_bytes()],
{
    let mut buffers: Vec<Vec<u8>> = Vec::new();
    buffers.push(part("enable ENABLE QRESYNC\r\n"));
    let r = Command { buffers, log: 1 };
    assert(r.parts() =~= seq!["enable ENABLE QRESYNC\r\n".spec_bytes()]);
    r
}

/// What an untagged response means to ENABLE: an ENABLED line says whether QRESYNC is on.
pub open spec fn enable_item(tail: Seq<u8>, acc: bool) -> Option<(int, Result<bool, Error>)> {
    match grammar::enabled_capabilities(tail, 0).matched {
        Some((m, capabilities)) => Some((m, Ok(capabilities.contains("QRESYNC".spec_bytes())))),
        None => None,
    }
}

/// The untagged answers to ENABLE, read from `end` on.
pub open spec fn enable_scan(buffer: Seq<u8>, end: int, acc: bool) -> Scan<bool> {
    scanned(buffer, end, "enable".spec_bytes(), |tail: Seq<u8>, acc: bool| enable_item(tail, acc), acc)
}

/// The answers to ENABLE, read from `end` on: the last ENABLED has to name QRESYNC.
pub open spec fn enabled(buffer: Seq<u8>, end: int) -> Scan<()> {
    let scan = completed(buffer, enable_scan(buffer, end, false));
    match scan.result {
        Ok(qresync) => Scan {
            end: scan.end,
            result: if qresync {
                Ok(())
            } else {
                Err(Error::NotEnabled)
            },
        },
        Err(error) => Scan { end: scan.end, result: Err(error) },
    }
}

/// Reads the answers to ENABLE QRESYNC.
pub fn enable(stream: &mut Stream) -> (r: Result<(), Error>)
    requires
        old(stream)@.wf(),
    ensures
        final(stream)@.wf(),
        final(stream)@ == old(stream)@.at(enabled(old(stream)@.buffer, old(stream)@.end).end),
        r == enabled(old(stream)@.buffer, old(stream)@.end).result,
{
    let mut qresync = false;
    loop
        invariant_except_break
            enable_scan(old(stream)@.buffer, old(stream)@.end, false) == enable_scan(
                stream@.buffer,
                stream@.end,
                qresync,
            ),
        invariant
            stream@.wf(),
            stream@ == old(stream)@.at(stream@.end),
        ensures
            enable_scan(old(stream)@.buffer, old(stream)@.end, false) == (Scan {
                end: stream@.end,
                result: Ok(qresync),
            }),
        decreases stream@.buffer.len() - stream@.end,
    {
        match head(stream) {
            Err(error) => {
                return Err(error);
            },
            Ok(Head::Tagged(tag)) => {
                if bytes::same(tag.as_slice(), "enable".as_bytes()) {
                    break ;
                } else {
                    return Err(Error::UnexpectedTag);
                }
            },
            Ok(Head::Untagged) => match parser::enabled_capabilities(stream.rest()) {
                Ok((consumed, capabilities)) => {
                    stream.advance(consumed);
                    proof {
                        bytes::lemma_deep_view_is_views(capabilities);
                    }
                    qresync = bytes::contains(&capabilities, "QRESYNC".as_bytes());
                },
                Err(_) => match skip_line(stream) {
                    Ok(_) => {},
                    Err(error) => {
                        return Err(error);
                    },
                },
            },
        }
    }
    match complete(stream) {
        Ok(_) => {},
        Err(error) => {
            return Err(error);
        },
    }
    if qresync {
        Ok(())
    } else {
        Err(Error::NotEnabled)
    }
}

/// The command that lists the mailboxes.
pub fn list_command() -> (r: Command)
    ensures
        r.log == 1,
        r.parts() == seq!["list LIST \"\" \"*\"\r\n".spec_bytes()],
{
    let mut buffers: Vec<Vec<u8>> = Vec::new();
    buffers.push(part("list LIST \"\" \"*\"\r\n"));
    let r = Command { buffers, log: 1 };
    assert(r.parts() =~= seq!["list LIST \"\" \"*\"\r\n".spec_bytes()]);
    r
}

/// What the mailboxes in `v` denote.
pub open spec fn mailboxes(v: Seq<Mailbox>) -> Seq<MailboxView> {
    Seq::new(v.len(), |i: int| v[i]@)
}

/// The name of a mailbox as the server writes it.
pub open spec fn name_of(mailbox: imap::MailboxView) -> Seq<u8> {
    match mailbox {
        imap::MailboxView::Inbox => "INBOX".spec_bytes(),
        imap::MailboxView::Other(name) => name,
    }
}

/// The hierarchy separator as a character.
pub open spec fn separator_of(separator: Option<u8>) -> Option<char> {
    match separator {
        Some(b) => Some(b as char),
        None => None,
    }
}

/// What is listed once one more LIST line is taken in: a mailbox that cannot be selected is
/// left out, and the name of any other has to be modified UTF-7.
pub open spec fn list_step(
    acc: Seq<MailboxView>,
    entry: (Seq<Seq<u8>>, Option<u8>, imap::MailboxView),
) -> Result<Seq<MailboxView>, Error> {
    if entry.0.contains("\\Noselect".spec_bytes()) {
        Ok(acc)
    } else {
        match codec::utf7_from(name_of(entry.2), 0, Seq::empty()) {
            Some(string) => Ok(
                acc.push(
                    MailboxView { bytes: name_of(entry.2), string, separator: separator_of(entry.1) },
                ),
            ),
            None => Err(Error::InvalidMailbox),
        }
    }
}

/// What an untagged response means to a LIST that has found `acc`.
pub open spec fn list_item(tail: Seq<u8>, acc: Seq<MailboxView>) -> Option<
    (int, Result<Seq<MailboxView>, Error>),
> {
    match grammar::list_mailbox(tail, 0).matched {
        Some((m, entry)) => Some((m, list_step(acc, entry))),
        None => None,
    }
}

/// The untagged answers to LIST, read from `end` on.
pub open spec fn list_scan(buffer: Seq<u8>, end: int, acc: Seq<MailboxView>) -> Scan<
    Seq<MailboxView>,
> {
    scanned(
        buffer,
        end,
        "list".spec_bytes(),
        |tail: Seq<u8>, acc: Seq<MailboxView>| list_item(tail, acc),
        acc,
    )
}

/// The answers to LIST, read from `end` on.
pub open spec fn listed(buffer: Seq<u8>, end: int) -> Scan<Seq<MailboxView>> {
    completed(buffer, list_scan(buffer, end, Seq::empty()))
}

/// `r` is the outcome `expected`.
pub open spec fn list_is(r: Result<Vec<Mailbox>, Error>, expected: Result<Seq<MailboxView>, Error>) -> bool {
    match r {
        Ok(list) => expected == Ok::<Seq<MailboxView>, Error>(mailboxes(list@)),
        Err(error) => expected == Err::<Seq<MailboxView>, Error>(error),
    }
}

/// Reads the answers to LIST: the mailboxes that can be selected, in the order of the server.
pub fn list(stream: &mut Stream) -> (r: Result<Vec<Mailbox>, Error>)
    requires
        old(stream)@.wf(),
    ensures
        final(stream)@.wf(),
        final(stream)@ == old(stream)@.at(listed(old(stream)@.buffer, old(stream)@.end).end),
        list_is(r, listed(old(stream)@.buffer, old(stream)@.end).result),
{
    let mut found: Vec<Mailbox> = Vec::new();
    assert(mailboxes(found@) =~= Seq::<MailboxView>::empty());
    loop
        invariant_except_break
            list_scan(old(stream)@.buffer, old(stream)@.end, Seq::empty()) == list_scan(
                stream@.buffer,
                stream@.end,
                mailboxes(found@),
            ),
        invariant
            stream@.wf(),
            stream@ == old(stream)@.at(stream@.end),
        ensures
            list_scan(old(stream)@.buffer, old(stream)@.end, Seq::empty()) == (Scan {
                end: stream@.end,
                result: Ok(mailboxes(found@)),
            }),
        decreases stream@.buffer.len() - stream@.end,
    {
        match head(stream) {
            Err(error) => {
                return Err(error);
            },
            Ok(Head::Tagged(tag)) => {
                if bytes::same(tag.as_slice(), "list".as_bytes()) {
                    break ;
                } else {
                    return Err(Error::UnexpectedTag);
                }
            },
            Ok(Head::Untagged) => match parser::list_mailbox(stream.rest()) {
                Ok((consumed, entry)) => {
                    stream.advance(consumed);
                    let (flags, separator, mailbox) = entry;
                    proof {
                        bytes::lemma_deep_view_is_views(flags);
                    }
                    if !bytes::contains(&flags, "\\Noselect".as_bytes()) {
                        let name = match mailbox {
                            imap::Mailbox::Inbox => part("INBOX"),
                            imap::Mailbox::Other(name) => name,
                        };
                        let string = match codec::utf7_to_utf8(name.as_slice()) {
                            Some(string) => string,
                            None => {
                                return Err(Error::InvalidMailbox);
                            },
                        };
                        let separator = match separator {
                            Some(b) => Some(b as char),
                            None => None,
                        };
                        let ghost before = mailboxes(found@);
                        let listed = Mailbox { bytes: name, string, separator };
                        found.push(listed);
                        assert(mailboxes(found@) =~= before.push(listed@));
                    }
                },
                Err(_) => match skip_line(stream) {
                    Ok(_) => {},
                    Err(error) => {
                        return Err(error);
                    },
                },
            },
        }
    }
    match complete(stream) {
        Ok(_) => {},
        Err(error) => {
            return Err(error);
        },
    }
    Ok(found)
}

/// The command that selects `mailbox`, of which the engine knows `uidvalidity` and
/// `highestmodseq`, and asks for what changed since.
pub fn select_command(mailbox: &[u8], uidvalidity: u64, highestmodseq: u64) -> (r: Command)
    ensures
        r.log == 9,
        r.parts() == seq![
            "select SELECT {".spec_bytes(),
            bytes::digits_of(mailbox@.len()),
            "+}\r\n".spec_bytes(),
            mailbox@,
            " (QRESYNC (".spec_bytes(),
            bytes::digits_of(uidvalidity as nat),
            " ".spec_bytes(),
            bytes::digits_of(highestmodseq as nat),
            "))\r\n".spec_bytes(),
        ],
{
    let mut buffers: Vec<Vec<u8>> = Vec::new();
    buffers.push(part("select SELECT {"));
    buffers.push(bytes::decimal(mailbox.len() as u64));
    buffers.push(part("+}\r\n"));
    buffers.push(copy(mailbox));
    buffers.push(part(" (QRESYNC ("));
    buffers.push(bytes::decimal(uidvalidity));
    buffers.push(part(" "));
    buffers.push(bytes::decimal(highestmodseq));
    buffers.push(part("))\r\n"));
    let r = Command { buffers, log: 9 };
    assert(r.parts() =~= seq![
        "select SELECT {".spec_bytes(),
        bytes::digits_of(mailbox@.len()),
        "+}\r\n".spec_bytes(),
        mailbox@,
        " (QRESYNC (".spec_bytes(),
        bytes::digits_of(uidvalidity as nat),
        " ".spec_bytes(),
        bytes::digits_of(highestmodseq as nat),
        "))\r\n".spec_bytes(),
    ]);
    r
}


/// The query for the messages of the engine under `namespace` that are staged in a `tmp` of
/// the maildir tree whose directory is named `folder`.
pub open spec fn staged_query(namespace: Seq<char>, folder: Seq<char>) -> Seq<char> {
    "    property:\""@ + notmuch::quoted(namespace) + ".marker="@ + notmuch::MESSAGE_MARKER@
        + "\" and path:\""@ + notmuch::quoted(folder) + "/**\" and path:/tmp/[^/]+$/"@
}

/// The index is asked the query for the staged messages without the indentation that it is
/// written with.
pub proof fn lemma_staged_query_runs_unindented(namespace: Seq<char>, folder: Seq<char>)
    ensures
        ({
            let query = staged_query(namespace, folder);
            notmuch::database::trimmed(query) == query.subrange(4, query.len() as int)
        }),
{
    reveal_strlit("    property:\"");
    reveal_strlit("/**\" and path:/tmp/[^/]+$/");
    let query = staged_query(namespace, folder);
    let head = "    property:\""@;
    assert(query.subrange(0, 5) =~= head.subrange(0, 5));
    assert forall|i: int| 0 <= i < 5 implies #[trigger] query[i] == head[i] by {
        assert(query.subrange(0, 5)[i] == head.subrange(0, 5)[i]);
    }
    notmuch::database::lemma_trimmed_of_query(query);
}

/// The query for the messages that an interrupted run left in a `tmp` of the maildir tree at
/// the path `relative`.
pub fn search_staged(namespace: &str, relative: &str) -> (r: Result<String, Error>)
    ensures
        match r {
            Ok(query) => maildir::path_file_name(relative@) is Some && query@ == staged_query(
                namespace@,
                maildir::path_file_name(relative@)->0,
            ),
            Err(error) => maildir::path_file_name(relative@) is None && error == Error::InvalidPath,
        },
{
    let folder = match maildir::file_name(relative) {
        Some(folder) => folder,
        None => {
            return Err(Error::InvalidPath);
        },
    };
    let mut query = String::from_str("    property:\"");
    query.append(notmuch::quote(namespace).as_str());
    query.append(".marker=");
    query.append(notmuch::MESSAGE_MARKER);
    query.append("\" and path:\"");
    query.append(notmuch::quote(folder.as_str()).as_str());
    query.append("/**\" and path:/tmp/[^/]+$/");
    Ok(query)
}

/// Where a file that is staged in `tmp` goes: into `new` of the same maildir, under the same
/// name. None for a file that does not lie in a `tmp`.
pub open spec fn out_of_tmp(path: Seq<char>) -> Result<Option<Seq<char>>, Error> {
    match maildir::components_of(path) {
        Err(error) => Err(error),
        Ok(directories) => match maildir::names_of(directories) {
            Err(error) => Err(error),
            Ok(names) => if names[1] == "tmp"@ {
                Ok(Some(maildir::path_join(maildir::path_join(directories[0], "new"@), names[2])))
            } else {
                Ok(None)
            },
        },
    }
}

/// `r` is the outcome `expected`.
pub open spec fn moved_is(r: Result<Option<String>, Error>, expected: Result<Option<Seq<char>>, Error>) -> bool {
    match r {
        Ok(Some(path)) => expected == Ok::<Option<Seq<char>>, Error>(Some(path@)),
        Ok(None) => expected == Ok::<Option<Seq<char>>, Error>(None),
        Err(error) => expected == Err::<Option<Seq<char>>, Error>(error),
    }
}

/// Decides where a file of a message goes that an interrupted run left behind: out of `tmp`
/// into `new`. The file is then to be renamed, added to the index under its new path and
/// removed from it under the old one.
pub fn move_out_of_tmp(path: &str) -> (r: Result<Option<String>, Error>)
    ensures
        moved_is(r, out_of_tmp(path@)),
{
    let directories = maildir::components(path)?;
    let names = maildir::components_to_str(&directories)?;
    if text::equal(names[1].as_str(), "tmp") {
        let new = maildir::join(directories[0].as_str(), "new");
        Ok(Some(maildir::join(new.as_str(), names[2].as_str())))
    } else {
        Ok(None)
    }
}

/// The query for the messages that a run touched: those of the engine under `namespace`
/// that changed in the index from the revision `from` to the revision `to`.
pub open spec fn affected_query(namespace: Seq<char>, from: u64, to: u64) -> Seq<char> {
    "property:\""@ + notmuch::quoted(namespace) + ".marker="@ + notmuch::MESSAGE_MARKER@
        + "\" and lastmod:"@ + text::digits_of(from as nat) + ".."@ + text::digits_of(to as nat)
}

/// The query for the messages that a run touched.
pub fn search_affected(namespace: &str, from: u64, to: u64) -> (r: String)
    ensures
        r@ == affected_query(namespace@, from, to),
{
    let mut query = String::from_str("property:\"");
    query.append(notmuch::quote(namespace).as_str());
    query.append(".marker=");
    query.append(notmuch::MESSAGE_MARKER);
    query.append("\" and lastmod:");
    query.append(text::decimal(from).as_str());
    query.append("..");
    query.append(text::decimal(to).as_str());
    query
}

} // verus!
