//! From the index to the server: what a push asks of the server and of the index, and what
//! it decides on the answers.
use vstd::prelude::*;
use vstd::string::{StringExecFns, StringSliceAdditionalSpecFns};
use crate::bytes;
use crate::error::Error;
use crate::imap;
use crate::imap::grammar;
use crate::imap::parser;
use crate::imap::stream::{refused, Scan, Stream};
use crate::imap::Range;
use crate::maildir;
use crate::maildir::Maildir;
use crate::notmuch;
use crate::notmuch::{Message, RootMessage};
use crate::sync;
use crate::sync::{Command, Head};
use crate::text;
use crate::text::strs;

verus! {

/// Where the server put an appended message, and at which mod-sequence.
#[derive(Clone, Copy, Debug, PartialEq, Eq, Structural)]
pub struct Append {
    pub uidvalidity: u64,
    pub uid: u64,
    pub highestmodseq: u64,
}

/// Whether a STORE adds flags or takes them away.
#[derive(Clone, Copy, Debug, PartialEq, Eq, Structural)]
pub enum Diff {
    Add,
    Delete,
}

/// Where the server put a moved message.
#[derive(Clone, Copy, Debug, PartialEq, Eq, Structural)]
pub struct Move {
    pub uidvalidity: u64,
    pub uid: u64,
}

/// The strings one after the other, a space between two.
pub open spec fn spaced(list: Seq<Seq<char>>) -> Seq<char>
    decreases list.len(),
{
    if list.len() == 0 {
        Seq::empty()
    } else if list.len() == 1 {
        list[0]
    } else {
        spaced(list.drop_last()) + " "@ + list.last()
    }
}

fn space(list: &Vec<String>) -> (r: String)
    ensures
        r@ == spaced(strs(list@)),
{
    let mut out = String::new();
    let mut i: usize = 0;
    assert(strs(list@).subrange(0, 0) =~= Seq::<Seq<char>>::empty());
    while i < list.len()
        invariant
            i <= list.len(),
            out@ == spaced(strs(list@).subrange(0, i as int)),
        decreases list.len() - i,
    {
        proof {
            let next = strs(list@).subrange(0, i + 1);
            assert(next.drop_last() =~= strs(list@).subrange(0, i as int));
            assert(next.last() == list@[i as int]@);
            if i == 0 {
                assert(next[0] == list@[0]@);
            }
        }
        if i > 0 {
            out.append(" ");
        }
        out.append(list[i].as_str());
        assert(out@ =~= spaced(strs(list@).subrange(0, i + 1)));
        i += 1;
    }
    assert(strs(list@).subrange(0, list@.len() as int) =~= strs(list@));
    out
}

/// The bytes of a string.
pub open spec fn encoded(s: Seq<char>) -> Seq<u8> {
    vstd::utf8::encode_utf8(s)
}

/// The command that appends the message `buffer` to `mailbox` with `flags`. The message is
/// not for the log.
pub fn append_command(mailbox: &[u8], flags: &Vec<String>, buffer: &[u8]) -> (r: Command)
    ensures
        r.log == 9,
        r.parts() == seq![
            "append APPEND {".spec_bytes(),
            bytes::digits_of(mailbox@.len()),
            "+}\r\n".spec_bytes(),
            mailbox@,
            " (".spec_bytes(),
            encoded(spaced(strs(flags@))),
            ") {".spec_bytes(),
            bytes::digits_of(buffer@.len()),
            "+}\r\n".spec_bytes(),
            buffer@,
            "\r\n".spec_bytes(),
        ],
{
    let joined = space(flags);
    let mut buffers: Vec<Vec<u8>> = Vec::new();
    buffers.push(sync::part("append APPEND {"));
    buffers.push(bytes::decimal(mailbox.len() as u64));
    buffers.push(sync::part("+}\r\n"));
    buffers.push(sync::copy(mailbox));
    buffers.push(sync::part(" ("));
    buffers.push(sync::part(joined.as_str()));
    buffers.push(sync::part(") {"));
    buffers.push(bytes::decimal(buffer.len() as u64));
    buffers.push(sync::part("+}\r\n"));
    buffers.push(sync::copy(buffer));
    buffers.push(sync::part("\r\n"));
    let r = Command { buffers, log: 9 };
    assert(r.parts() =~= seq![
        "append APPEND {".spec_bytes(),
        bytes::digits_of(mailbox@.len()),
        "+}\r\n".spec_bytes(),
        mailbox@,
        " (".spec_bytes(),
        encoded(spaced(strs(flags@))),
        ") {".spec_bytes(),
        bytes::digits_of(buffer@.len()),
        "+}\r\n".spec_bytes(),
        buffer@,
        "\r\n".spec_bytes(),
    ]);
    r
}

/// What an untagged response means to an APPEND: an OK with HIGHESTMODSEQ gives the mod-sequence.
pub open spec fn append_item(tail: Seq<u8>, acc: Option<u64>) -> Option<
    (int, Result<Option<u64>, Error>),
> {
    match grammar::append_data(tail, 0).matched {
        Some((m, modseq)) => Some((m, Ok(Some(modseq)))),
        None => None,
    }
}

/// The untagged answers to an APPEND, read from `end` on.
pub open spec fn append_scan(buffer: Seq<u8>, end: int, acc: Option<u64>) -> Scan<Option<u64>> {
    sync::scanned(
        buffer,
        end,
        "append".spec_bytes(),
        |tail: Seq<u8>, acc: Option<u64>| append_item(tail, acc),
        acc,
    )
}

/// The answers to an APPEND, read from `end` on: the completion has to say where the message
/// went, and an untagged OK before it at which mod-sequence, which is not 0.
pub open spec fn appended(buffer: Seq<u8>, end: int) -> Scan<Append> {
    let scan = append_scan(buffer, end, None);
    match scan.result {
        Err(error) => Scan { end: scan.end, result: Err(error) },
        Ok(modseq) => {
            let line = grammar::append(buffer.subrange(scan.end, buffer.len() as int), 0);
            match line.matched {
                None => Scan { end: scan.end, result: Err(refused(line.far)) },
                Some((m, placed)) => Scan {
                    end: scan.end + m,
                    result: match modseq {
                        None => Err(Error::MissingHighestModSeq),
                        Some(highestmodseq) => if highestmodseq == 0 {
                            Err(Error::UnsupportedHighestModSeq)
                        } else {
                            Ok(
                                Append {
                                    uidvalidity: placed.uidvalidity,
                                    uid: placed.uid,
                                    highestmodseq,
                                },
                            )
                        },
                    },
                },
            }
        },
    }
}

/// Reads the answers to an APPEND.
pub fn append(stream: &mut Stream) -> (r: Result<Append, Error>)
    requires
        old(stream)@.wf(),
    ensures
        final(stream)@.wf(),
        final(stream)@ == old(stream)@.at(appended(old(stream)@.buffer, old(stream)@.end).end),
        r == appended(old(stream)@.buffer, old(stream)@.end).result,
{
    let mut modseq: Option<u64> = None;
    loop
        invariant_except_break
            append_scan(old(stream)@.buffer, old(stream)@.end, None) == append_scan(
                stream@.buffer,
                stream@.end,
                modseq,
            ),
        invariant
            stream@.wf(),
            stream@ == old(stream)@.at(stream@.end),
        ensures
            append_scan(old(stream)@.buffer, old(stream)@.end, None) == (Scan {
                end: stream@.end,
                result: Ok(modseq),
            }),
        decreases stream@.buffer.len() - stream@.end,
    {
        match sync::head(stream) {
            Err(error) => {
                return Err(error);
            },
            Ok(Head::Tagged(tag)) => {
                if bytes::same(tag.as_slice(), "append".as_bytes()) {
                    break ;
                } else {
                    return Err(Error::UnexpectedTag);
                }
            },
            Ok(Head::Untagged) => match parser::append_data(stream.rest()) {
                Ok((consumed, found)) => {
                    stream.advance(consumed);
                    modseq = Some(found);
                },
                Err(_) => match sync::skip_line(stream) {
                    Ok(_) => {},
                    Err(error) => {
                        return Err(error);
                    },
                },
            },
        }
    }
    let placed = match parser::append(stream.rest()) {
        Ok((consumed, placed)) => {
            stream.advance(consumed);
            placed
        },
        Err(error) => {
            return Err(Error::Parse(error));
        },
    };
    match modseq {
        None => Err(Error::MissingHighestModSeq),
        Some(highestmodseq) => if highestmodseq == 0 {
            Err(Error::UnsupportedHighestModSeq)
        } else {
            Ok(Append { uidvalidity: placed.uidvalidity, uid: placed.uid, highestmodseq })
        },
    }
}

/// How a STORE writes whether it adds or takes away.
pub open spec fn sign(diff: Diff) -> Seq<u8> {
    match diff {
        Diff::Add => "+".spec_bytes(),
        Diff::Delete => "-".spec_bytes(),
    }
}

/// The command that adds `flags` to the message `uid` or takes them away from it, unless the
/// message changed on the server since `modseq`.
pub fn store_command(uid: u64, modseq: u64, flags: &Vec<String>, diff: Diff) -> (r: Command)
    ensures
        r.log == 9,
        r.parts() == seq![
            "store UID STORE ".spec_bytes(),
            bytes::digits_of(uid as nat),
            " (UNCHANGEDSINCE ".spec_bytes(),
            bytes::digits_of(modseq as nat),
            ") ".spec_bytes(),
            sign(diff),
            "FLAGS.SILENT (".spec_bytes(),
            encoded(spaced(strs(flags@))),
            ")\r\n".spec_bytes(),
        ],
{
    let joined = space(flags);
    let mut buffers: Vec<Vec<u8>> = Vec::new();
    buffers.push(sync::part("store UID STORE "));
    buffers.push(bytes::decimal(uid));
    buffers.push(sync::part(" (UNCHANGEDSINCE "));
    buffers.push(bytes::decimal(modseq));
    buffers.push(sync::part(") "));
    buffers.push(
        match diff {
            Diff::Add => sync::part("+"),
            Diff::Delete => sync::part("-"),
        },
    );
    buffers.push(sync::part("FLAGS.SILENT ("));
    buffers.push(sync::part(joined.as_str()));
    buffers.push(sync::part(")\r\n"));
    let r = Command { buffers, log: 9 };
    assert(r.parts() =~= seq![
        "store UID STORE ".spec_bytes(),
        bytes::digits_of(uid as nat),
        " (UNCHANGEDSINCE ".spec_bytes(),
        bytes::digits_of(modseq as nat),
        ") ".spec_bytes(),
        sign(diff),
        "FLAGS.SILENT (".spec_bytes(),
        encoded(spaced(strs(flags@))),
        ")\r\n".spec_bytes(),
    ]);
    r
}

/// What an untagged response means to a STORE: a FETCH of UID and MODSEQ gives the new mod-sequence.
pub open spec fn store_item(tail: Seq<u8>, acc: Option<imap::Store>) -> Option<
    (int, Result<Option<imap::Store>, Error>),
> {
    match grammar::store_data(tail, 0).matched {
        Some((m, stored)) => Some((m, Ok(Some(stored)))),
        None => None,
    }
}

/// The untagged answers to a STORE, read from `end` on.
pub open spec fn store_scan(buffer: Seq<u8>, end: int, acc: Option<imap::Store>) -> Scan<
    Option<imap::Store>,
> {
    sync::scanned(
        buffer,
        end,
        "store".spec_bytes(),
        |tail: Seq<u8>, acc: Option<imap::Store>| store_item(tail, acc),
        acc,
    )
}

/// `ranges` name the message `uid` and nothing else.
pub open spec fn only(ranges: Seq<Range>, uid: u64) -> bool {
    ranges.len() == 1 && ranges[0].0 == ranges[0].1 && ranges[0].0 == uid
}

/// What a STORE on the message `uid` came to: none where the server refused it because the
/// message changed there, which its completion says by MODIFIED with that message and no
/// other; else what the untagged FETCH told, which has to be there.
pub open spec fn store_outcome(
    modified: Option<Seq<Range>>,
    stored: Option<imap::Store>,
    uid: u64,
) -> Result<Option<imap::Store>, Error> {
    match modified {
        Some(uids) => if only(uids, uid) {
            Ok(None)
        } else {
            Err(Error::InvalidUid)
        },
        None => match stored {
            Some(stored) => Ok(Some(stored)),
            None => Err(Error::MissingFetch),
        },
    }
}

/// The answers to a STORE on the message `uid`, read from `end` on.
pub open spec fn stored(buffer: Seq<u8>, end: int, uid: u64) -> Scan<Option<imap::Store>> {
    let scan = store_scan(buffer, end, None);
    match scan.result {
        Err(error) => Scan { end: scan.end, result: Err(error) },
        Ok(stored) => {
            let line = grammar::store(buffer.subrange(scan.end, buffer.len() as int), 0);
            match line.matched {
                None => Scan { end: scan.end, result: Err(refused(line.far)) },
                Some((m, modified)) => Scan {
                    end: scan.end + m,
                    result: store_outcome(modified, stored, uid),
                },
            }
        },
    }
}

/// Reads the answers to a STORE on the message `uid`.
pub fn store(stream: &mut Stream, uid: u64) -> (r: Result<Option<imap::Store>, Error>)
    requires
        old(stream)@.wf(),
    ensures
        final(stream)@.wf(),
        final(stream)@ == old(stream)@.at(stored(old(stream)@.buffer, old(stream)@.end, uid).end),
        r == stored(old(stream)@.buffer, old(stream)@.end, uid).result,
{
    let mut found: Option<imap::Store> = None;
    loop
        invariant_except_break
            store_scan(old(stream)@.buffer, old(stream)@.end, None) == store_scan(
                stream@.buffer,
                stream@.end,
                found,
            ),
        invariant
            stream@.wf(),
            stream@ == old(stream)@.at(stream@.end),
        ensures
            store_scan(old(stream)@.buffer, old(stream)@.end, None) == (Scan {
                end: stream@.end,
                result: Ok(found),
            }),
        decreases stream@.buffer.len() - stream@.end,
    {
        match sync::head(stream) {
            Err(error) => {
                return Err(error);
            },
            Ok(Head::Tagged(tag)) => {
                if bytes::same(tag.as_slice(), "store".as_bytes()) {
                    break ;
                } else {
                    return Err(Error::UnexpectedTag);
                }
            },
            Ok(Head::Untagged) => match parser::store_data(stream.rest()) {
                Ok((consumed, stored)) => {
                    stream.advance(consumed);
                    found = Some(stored);
                },
                Err(_) => match sync::skip_line(stream) {
                    Ok(_) => {},
                    Err(error) => {
                        return Err(error);
                    },
                },
            },
        }
    }
    let modified = match parser::store(stream.rest()) {
        Ok((consumed, modified)) => {
            stream.advance(consumed);
            modified
        },
        Err(error) => {
            return Err(Error::Parse(error));
        },
    };
    match modified {
        Some(uids) => {
            proof {
                crate::imap::rules::lemma_ranges_deep_view(uids);
            }
            if uids.len() == 1 && uids[0].0 == uids[0].1 && uids[0].0 == uid {
                Ok(None)
            } else {
                Err(Error::InvalidUid)
            }
        },
        None => match found {
            Some(stored) => Ok(Some(stored)),
            None => Err(Error::MissingFetch),
        },
    }
}

/// The command that moves the message `uid` to `mailbox`.
pub fn move_command(uid: u64, mailbox: &[u8]) -> (r: Command)
    ensures
        r.log == 7,
        r.parts() == seq![
            "move UID MOVE ".spec_bytes(),
            bytes::digits_of(uid as nat),
            " {".spec_bytes(),
            bytes::digits_of(mailbox@.len()),
            "+}\r\n".spec_bytes(),
            mailbox@,
            "\r\n".spec_bytes(),
        ],
{
    let mut buffers: Vec<Vec<u8>> = Vec::new();
    buffers.push(sync::part("move UID MOVE "));
    buffers.push(bytes::decimal(uid));
    buffers.push(sync::part(" {"));
    buffers.push(bytes::decimal(mailbox.len() as u64));
    buffers.push(sync::part("+}\r\n"));
    buffers.push(sync::copy(mailbox));
    buffers.push(sync::part("\r\n"));
    let r = Command { buffers, log: 7 };
    assert(r.parts() =~= seq![
        "move UID MOVE ".spec_bytes(),
        bytes::digits_of(uid as nat),
        " {".spec_bytes(),
        bytes::digits_of(mailbox@.len()),
        "+}\r\n".spec_bytes(),
        mailbox@,
        "\r\n".spec_bytes(),
    ]);
    r
}

/// What an untagged response means to a MOVE: an OK with COPYUID says where the message went.
pub open spec fn move_item(tail: Seq<u8>, acc: Option<imap::MoveView>) -> Option<
    (int, Result<Option<imap::MoveView>, Error>),
> {
    match grammar::move_data(tail, 0).matched {
        Some((m, moved)) => Some((m, Ok(Some(moved)))),
        None => None,
    }
}

/// The untagged answers to a MOVE, read from `end` on.
pub open spec fn move_scan(buffer: Seq<u8>, end: int, acc: Option<imap::MoveView>) -> Scan<
    Option<imap::MoveView>,
> {
    sync::scanned(
        buffer,
        end,
        "move".spec_bytes(),
        |tail: Seq<u8>, acc: Option<imap::MoveView>| move_item(tail, acc),
        acc,
    )
}

/// What a MOVE of the message `uid` that the server completed with OK came to: none where
/// the server did not say where the message went, else the place, which has to be one
/// place for that one message.
pub open spec fn move_outcome(moved: Option<imap::MoveView>, uid: u64) -> Result<
    Option<Move>,
    Error,
> {
    match moved {
        Some(moved) => if moved.from.len() == 1 && moved.to.len() == 1 && moved.from[0].0
            == moved.from[0].1 && moved.from[0].0 == uid && moved.to[0].0 == moved.to[0].1 {
            Ok(Some(Move { uidvalidity: moved.uidvalidity, uid: moved.to[0].0 }))
        } else {
            Err(Error::InvalidUid)
        },
        None => Ok(None),
    }
}

/// The answers to a MOVE of the message `uid`, read from `end` on. A completion that says
/// BAD means that nothing was moved.
pub open spec fn moved(buffer: Seq<u8>, end: int, uid: u64) -> Scan<Option<Move>> {
    let scan = move_scan(buffer, end, None);
    match scan.result {
        Err(error) => Scan { end: scan.end, result: Err(error) },
        Ok(found) => {
            let rest = buffer.subrange(scan.end, buffer.len() as int);
            match grammar::move_(rest, 0).matched {
                Some((m, _)) => Scan { end: scan.end + m, result: move_outcome(found, uid) },
                None => match grammar::bad(rest, 0).matched {
                    Some((m, _)) => Scan { end: scan.end + m, result: Ok(None) },
                    None => Scan { end: scan.end, result: Err(refused(grammar::bad(rest, 0).far)) },
                },
            }
        },
    }
}

/// Reads the answers to a MOVE of the message `uid`.
pub fn move_(stream: &mut Stream, uid: u64) -> (r: Result<Option<Move>, Error>)
    requires
        old(stream)@.wf(),
    ensures
        final(stream)@.wf(),
        final(stream)@ == old(stream)@.at(moved(old(stream)@.buffer, old(stream)@.end, uid).end),
        r == moved(old(stream)@.buffer, old(stream)@.end, uid).result,
{
    let mut found: Option<imap::Move> = None;
    loop
        invariant_except_break
            move_scan(old(stream)@.buffer, old(stream)@.end, None) == move_scan(
                stream@.buffer,
                stream@.end,
                found.deep_view(),
            ),
        invariant
            stream@.wf(),
            stream@ == old(stream)@.at(stream@.end),
        ensures
            move_scan(old(stream)@.buffer, old(stream)@.end, None) == (Scan {
                end: stream@.end,
                result: Ok(found.deep_view()),
            }),
        decreases stream@.buffer.len() - stream@.end,
    {
        match sync::head(stream) {
            Err(error) => {
                return Err(error);
            },
            Ok(Head::Tagged(tag)) => {
                if bytes::same(tag.as_slice(), "move".as_bytes()) {
                    break ;
                } else {
                    return Err(Error::UnexpectedTag);
                }
            },
            Ok(Head::Untagged) => match parser::move_data(stream.rest()) {
                Ok((consumed, moved)) => {
                    stream.advance(consumed);
                    found = Some(moved);
                },
                Err(_) => match sync::skip_line(stream) {
                    Ok(_) => {},
                    Err(error) => {
                        return Err(error);
                    },
                },
            },
        }
    }
    match parser::move_(stream.rest()) {
        Ok((consumed, _)) => {
            stream.advance(consumed);
        },
        Err(_) => match parser::bad(stream.rest()) {
            Ok((consumed, _)) => {
                stream.advance(consumed);
                return Ok(None);
            },
            Err(error) => {
                return Err(Error::Parse(error));
            },
        },
    }
    match found {
        Some(moved) => {
            if moved.from.len() == 1 && moved.to.len() == 1 && moved.from[0].0 == moved.from[0].1
                && moved.from[0].0 == uid && moved.to[0].0 == moved.to[0].1 {
                Ok(Some(Move { uidvalidity: moved.uidvalidity, uid: moved.to[0].0 }))
            } else {
                Err(Error::InvalidUid)
            }
        },
        None => Ok(None),
    }
}

/// The folder of `maildir` as the index names it, under the path `relative` of the tree: the
/// tree itself for the root, else the directory of the maildir in it.
pub open spec fn folder_of(relative: Seq<char>, maildir: maildir::MaildirView) -> Result<
    Seq<char>,
    Error,
> {
    if maildir.root {
        Ok(maildir::path_join(relative, Seq::empty()))
    } else {
        match maildir::path_file_name(maildir.path) {
            Some(name) => Ok(maildir::path_join(relative, name)),
            None => Err(Error::InvalidPath),
        }
    }
}

/// The query for the messages in `folder` that no engine keeps track of: neither the root
/// messages under `root_namespace` nor what the engine under `namespace` has marked.
pub open spec fn new_query(root_namespace: Seq<char>, namespace: Seq<char>, folder: Seq<char>) -> Seq<char> {
    "    not property:\""@ + notmuch::quoted(root_namespace) + ".marker="@ + notmuch::ROOT_MARKER@
        + "\" and not property:\""@ + notmuch::quoted(namespace) + ".marker="@
        + notmuch::MESSAGE_MARKER@ + "\" and folder:\""@ + notmuch::quoted(folder) + "\""@
}

/// The index is asked the queries for the new and for the changed messages without the
/// indentation that they are written with.
pub proof fn lemma_queries_run_unindented(
    root_namespace: Seq<char>,
    namespace: Seq<char>,
    folder: Seq<char>,
    mailbox: Seq<char>,
    lastmod: u64,
)
    ensures
        ({
            let query = new_query(root_namespace, namespace, folder);
            notmuch::database::trimmed(query) == query.subrange(4, query.len() as int)
        }),
        ({
            let query = modified_query(namespace, mailbox, lastmod);
            notmuch::database::trimmed(query) == query.subrange(4, query.len() as int)
        }),
{
    reveal_strlit("    not property:\"");
    reveal_strlit("    property:\"");
    reveal_strlit("\"");
    reveal_strlit("..");
    let new = new_query(root_namespace, namespace, folder);
    let head = "    not property:\""@;
    assert(new.subrange(0, 5) =~= head.subrange(0, 5));
    assert forall|i: int| 0 <= i < 5 implies #[trigger] new[i] == head[i] by {
        assert(new.subrange(0, 5)[i] == head.subrange(0, 5)[i]);
    }
    notmuch::database::lemma_trimmed_of_query(new);
    let modified = modified_query(namespace, mailbox, lastmod);
    let head = "    property:\""@;
    assert(modified.subrange(0, 5) =~= head.subrange(0, 5));
    assert forall|i: int| 0 <= i < 5 implies #[trigger] modified[i] == head[i] by {
        assert(modified.subrange(0, 5)[i] == head.subrange(0, 5)[i]);
    }
    notmuch::database::lemma_trimmed_of_query(modified);
}

/// The query for the messages of `maildir` that are new here and have to go to the server.
pub fn search_new(root_namespace: &str, namespace: &str, relative: &str, maildir: &Maildir) -> (r:
    Result<String, Error>)
    ensures
        match r {
            Ok(query) => folder_of(relative@, maildir@) is Ok && query@ == new_query(
                root_namespace@,
                namespace@,
                folder_of(relative@, maildir@)->Ok_0,
            ),
            Err(error) => folder_of(relative@, maildir@) == Err::<Seq<char>, Error>(error),
        },
{
    let folder = if maildir.root() {
        let empty = String::new();
        maildir::join(relative, empty.as_str())
    } else {
        match maildir::file_name(maildir.path()) {
            Some(name) => maildir::join(relative, name.as_str()),
            None => {
                return Err(Error::InvalidPath);
            },
        }
    };
    let mut query = String::from_str("    not property:\"");
    query.append(notmuch::quote(root_namespace).as_str());
    query.append(".marker=");
    query.append(notmuch::ROOT_MARKER);
    query.append("\" and not property:\"");
    query.append(notmuch::quote(namespace).as_str());
    query.append(".marker=");
    query.append(notmuch::MESSAGE_MARKER);
    query.append("\" and folder:\"");
    query.append(notmuch::quote(folder.as_str()).as_str());
    query.append("\"");
    Ok(query)
}

/// The query for the messages of `mailbox` that changed in the index at the revision
/// `lastmod` or later.
pub open spec fn modified_query(namespace: Seq<char>, mailbox: Seq<char>, lastmod: u64) -> Seq<char> {
    "    property:\""@ + notmuch::quoted(namespace) + ".marker="@ + notmuch::MESSAGE_MARKER@
        + "\" and property:\""@ + notmuch::quoted(namespace) + ".mailbox="@ + notmuch::quoted(
        mailbox,
    ) + "\" and lastmod:"@ + text::digits_of(lastmod as nat) + ".."@
}

/// The query for the messages of `mailbox` that changed here since the last push.
pub fn search_modified(namespace: &str, mailbox: &str, lastmod: u64) -> (r: String)
    ensures
        r@ == modified_query(namespace@, mailbox@, lastmod),
{
    let mut query = String::from_str("    property:\"");
    query.append(notmuch::quote(namespace).as_str());
    query.append(".marker=");
    query.append(notmuch::MESSAGE_MARKER);
    query.append("\" and property:\"");
    query.append(notmuch::quote(namespace).as_str());
    query.append(".mailbox=");
    query.append(notmuch::quote(mailbox).as_str());
    query.append("\" and lastmod:");
    query.append(text::decimal(lastmod).as_str());
    query.append("..");
    query
}

/// A push needs the mailbox to be the one that the engine knows: where the server has
/// another UIDVALIDITY for it, a pull has to come first.
pub fn check(uidvalidity: u64, validity: (u64, u64)) -> (r: Result<(), Error>)
    ensures
        r == (if uidvalidity == validity.0 {
            Ok::<(), Error>(())
        } else {
            Err::<(), Error>(Error::RerunPull)
        }),
{
    if uidvalidity == validity.0 {
        Ok(())
    } else {
        Err(Error::RerunPull)
    }
}

/// Records where the server put a message that was uploaded: the message is known there at
/// the mod-sequence of the APPEND, with the tags that it has. The result tells whether the
/// message was known there under another identifier. Where what is on record of the message
/// in `mailbox` cannot be read, that is an error, and the message stays as it is.
pub fn uploaded(message: &mut Message, mailbox: &str, placed: Append) -> (r: Result<bool, Error>)
    requires
        old(message)@.wf(),
    ensures
        final(message)@.wf(),
        r == old(message)@.duplicate(mailbox@, placed.uidvalidity, placed.uid),
        final(message)@ == (if r is Ok {
            old(message)@.remembered(
                mailbox@,
                placed.uidvalidity,
                placed.uid,
                placed.highestmodseq,
                old(message)@.inner.tags,
            )
        } else {
            old(message)@
        }),
{
    let tags = message.tags();
    message.update_mailbox_properties(
        mailbox,
        placed.uidvalidity,
        placed.uid,
        placed.highestmodseq,
        &tags,
    )
}

/// The strings of `list` that are not in `other`, in their order.
pub open spec fn minus(list: Seq<Seq<char>>, other: Seq<Seq<char>>) -> Seq<Seq<char>>
    decreases list.len(),
{
    if list.len() == 0 {
        list
    } else if other.contains(list.last()) {
        minus(list.drop_last(), other)
    } else {
        minus(list.drop_last(), other).push(list.last())
    }
}

fn difference(list: &Vec<String>, other: &Vec<String>) -> (r: Vec<String>)
    ensures
        strs(r@) == minus(strs(list@), strs(other@)),
{
    let mut out: Vec<String> = Vec::new();
    let mut i: usize = 0;
    assert(strs(list@).subrange(0, 0) =~= Seq::<Seq<char>>::empty());
    assert(strs(out@) =~= Seq::<Seq<char>>::empty());
    while i < list.len()
        invariant
            i <= list.len(),
            strs(out@) == minus(strs(list@).subrange(0, i as int), strs(other@)),
        decreases list.len() - i,
    {
        proof {
            let next = strs(list@).subrange(0, i + 1);
            assert(next.drop_last() =~= strs(list@).subrange(0, i as int));
            assert(next.last() == list@[i as int]@);
        }
        if !text::contains(other, list[i].as_str()) {
            let ghost before = strs(out@);
            out.push(list[i].clone());
            assert(strs(out@) =~= before.push(list@[i as int]@));
        }
        i += 1;
    }
    assert(strs(list@).subrange(0, list@.len() as int) =~= strs(list@));
    out
}

/// What the server has to be told of the flags of a message: those to take away and those
/// to add.
#[derive(Clone, Debug, PartialEq, Eq)]
pub struct Flags {
    pub delete: Vec<String>,
    pub add: Vec<String>,
}

/// How the flags that stand for the tags of `message` differ from those that stand for the
/// tags on which the engine and the server agreed for `mailbox`.
pub fn flags(message: &Message, mailbox: &str) -> (r: Flags)
    ensures
        strs(r.delete@) == minus(
            notmuch::flags_of(message@.cached_tags(mailbox@)),
            notmuch::flags_of(message@.inner.tags),
        ),
        strs(r.add@) == minus(
            notmuch::flags_of(message@.inner.tags),
            notmuch::flags_of(message@.cached_tags(mailbox@)),
        ),
{
    let now = notmuch::tags_to_flags(&message.tags());
    let cached = notmuch::tags_to_flags(&message.cached_tags(mailbox));
    Flags { delete: difference(&cached, &now), add: difference(&now, &cached) }
}

/// Records what a STORE came to: where the server took it, the message is at the
/// mod-sequence that the server gave it, with the tags that it has, and the result tells
/// whether the message was known in `mailbox` under another identifier; where the server
/// refused it, a pull has to come first. Where what is on record of the message in `mailbox`
/// cannot be read, that is an error, and the message stays as it is.
pub fn stored_flags(
    message: &mut Message,
    mailbox: &str,
    uidvalidity: u64,
    uid: u64,
    outcome: Option<imap::Store>,
) -> (r: Result<bool, Error>)
    requires
        old(message)@.wf(),
    ensures
        final(message)@.wf(),
        match outcome {
            Some(stored) => r == old(message)@.duplicate(mailbox@, uidvalidity, uid)
                && final(message)@ == (if r is Ok {
                old(message)@.remembered(
                    mailbox@,
                    uidvalidity,
                    uid,
                    stored.modseq,
                    old(message)@.inner.tags,
                )
            } else {
                old(message)@
            }),
            None => r == Err::<bool, Error>(Error::RerunPull) && final(message)@ == old(message)@,
        },
{
    match outcome {
        Some(stored) => {
            let tags = message.tags();
            message.update_mailbox_properties(mailbox, uidvalidity, uid, stored.modseq, &tags)
        },
        None => Err(Error::RerunPull),
    }
}

/// Whether one of `paths` lies in the maildir at `maildir`, two directories up.
pub open spec fn found_in(paths: Seq<Seq<char>>, maildir: Seq<char>) -> bool {
    exists|i: int|
        0 <= i < paths.len() && (#[trigger] maildir::components_of(paths[i])) is Ok
            && maildir::path_same(maildir::components_of(paths[i])->Ok_0[0], maildir)
}

/// Whether every one of `paths` has the directories of a message in a maildir.
pub open spec fn all_placed(paths: Seq<Seq<char>>) -> bool {
    forall|i: int| 0 <= i < paths.len() ==> (#[trigger] maildir::components_of(paths[i])) is Ok
}

/// Whether `candidate` can take a message that left `mailbox`: the message is not known in
/// it, and one of the files of the message lies in its maildir.
pub open spec fn takes(
    candidate: (Seq<char>, sync::MailboxView),
    mailbox: Seq<char>,
    known: Seq<Seq<char>>,
    paths: Seq<Seq<char>>,
) -> bool {
    candidate.1.string != mailbox && !known.contains(candidate.1.string) && found_in(
        paths,
        candidate.0,
    )
}

/// The first of `candidates` that takes the message, or their number.
pub open spec fn first_taker(
    candidates: Seq<(Seq<char>, sync::MailboxView)>,
    mailbox: Seq<char>,
    known: Seq<Seq<char>>,
    paths: Seq<Seq<char>>,
    from: int,
) -> int
    decreases candidates.len() - from,
{
    if from < 0 || from >= candidates.len() {
        candidates.len() as int
    } else if takes(candidates[from], mailbox, known, paths) {
        from
    } else {
        first_taker(candidates, mailbox, known, paths, from + 1)
    }
}

/// The mailboxes in `v`, each with the path of its maildir.
pub open spec fn candidates(v: Seq<(String, sync::Mailbox)>) -> Seq<(Seq<char>, sync::MailboxView)> {
    Seq::new(v.len(), |i: int| (v[i].0@, v[i].1@))
}

/// Where a message went that is known in `mailbox`, whose maildir is at `here`, given each
/// mailbox of the server with the path of its maildir: the index of the first mailbox that
/// takes it, where none of its files is left in the maildir of `mailbox`; none where one is
/// left, where the message is not known in `mailbox`, or where no other mailbox takes it.
pub open spec fn moved_to(
    message: notmuch::MessageView,
    mailbox: Seq<char>,
    here: Seq<char>,
    all: Seq<(Seq<char>, sync::MailboxView)>,
) -> Result<Option<int>, Error> {
    if !all_placed(message.inner.paths) {
        Err(Error::InvalidPath)
    } else if found_in(message.inner.paths, here) || !message.mailboxes().contains(mailbox) {
        Ok(None)
    } else {
        let at = first_taker(all, mailbox, message.mailboxes(), message.inner.paths, 0);
        if at < all.len() {
            Ok(Some(at))
        } else {
            Ok(None)
        }
    }
}

fn lies_in(paths: &Vec<String>, maildir: &str) -> (r: bool)
    requires
        all_placed(strs(paths@)),
    ensures
        r == found_in(strs(paths@), maildir@),
{
    let mut i: usize = 0;
    while i < paths.len()
        invariant
            i <= paths.len(),
            all_placed(strs(paths@)),
            forall|j: int|
                0 <= j < i ==> !maildir::path_same(
                    (#[trigger] maildir::components_of(strs(paths@)[j]))->Ok_0[0],
                    maildir@,
                ),
        decreases paths.len() - i,
    {
        assert(strs(paths@)[i as int] == paths@[i as int]@);
        match maildir::components(paths[i].as_str()) {
            Ok(directories) => {
                if maildir::same(directories[0].as_str(), maildir) {
                    assert(maildir::components_of(strs(paths@)[i as int]) is Ok);
                    return true;
                }
            },
            Err(_) => {
                assert(maildir::components_of(strs(paths@)[i as int]) is Ok);
            },
        }
        i += 1;
    }
    false
}

/// Finds where a message went that is known in `mailbox` and has no file there any more.
pub fn destination(
    message: &Message,
    mailbox: &str,
    here: &Maildir,
    all: &Vec<(String, sync::Mailbox)>,
) -> (r: Result<Option<usize>, Error>)
    ensures
        match r {
            Ok(Some(at)) => moved_to(message@, mailbox@, here@.path, candidates(all@)) == Ok::<
                Option<int>,
                Error,
            >(Some(at as int)) && at < all@.len(),
            Ok(None) => moved_to(message@, mailbox@, here@.path, candidates(all@)) == Ok::<
                Option<int>,
                Error,
            >(None),
            Err(error) => moved_to(message@, mailbox@, here@.path, candidates(all@)) == Err::<
                Option<int>,
                Error,
            >(error),
        },
{
    let paths = message.paths();
    let mut i: usize = 0;
    while i < paths.len()
        invariant
            i <= paths.len(),
            strs(paths@) == message@.inner.paths,
            forall|j: int| 0 <= j < i ==> (#[trigger] maildir::components_of(strs(paths@)[j])) is Ok,
        decreases paths.len() - i,
    {
        assert(strs(paths@)[i as int] == paths@[i as int]@);
        match maildir::components(paths[i].as_str()) {
            Ok(_) => {},
            Err(_) => {
                assert(maildir::components_of(message@.inner.paths[i as int]) is Err);
                return Err(Error::InvalidPath);
            },
        }
        i += 1;
    }
    if lies_in(&paths, here.path()) {
        return Ok(None);
    }
    let known = message.mailboxes();
    if !text::contains(&known, mailbox) {
        return Ok(None);
    }
    let mut at: usize = 0;
    while at < all.len()
        invariant
            at <= all.len(),
            all_placed(strs(paths@)),
            strs(paths@) == message@.inner.paths,
            strs(known@) == message@.mailboxes(),
            !found_in(strs(paths@), here@.path),
            strs(known@).contains(mailbox@),
            first_taker(candidates(all@), mailbox@, strs(known@), strs(paths@), 0) == first_taker(
                candidates(all@),
                mailbox@,
                strs(known@),
                strs(paths@),
                at as int,
            ),
        decreases all.len() - at,
    {
        assert(candidates(all@)[at as int] == (all@[at as int].0@, all@[at as int].1@));
        if !text::equal(all[at].1.string.as_str(), mailbox) && !text::contains(
            &known,
            all[at].1.string.as_str(),
        ) && lies_in(&paths, all[at].0.as_str()) {
            return Ok(Some(at));
        }
        at += 1;
    }
    Ok(None)
}

/// Records what a MOVE came to: where the server said where the message went, the message
/// is forgotten in `mailbox` and known in `destination` instead, at the mod-sequence and
/// with the cached tags that it had in `mailbox`, and the result tells whether the message
/// was known in `destination` under another identifier; else a pull has to come first. Where
/// what is on record of the message in `destination` cannot be read, that is an error, and
/// the message is forgotten in `mailbox` all the same.
pub fn moved_message(message: &mut Message, mailbox: &str, destination: &str, outcome: Option<Move>) -> (r:
    Result<bool, Error>)
    requires
        old(message)@.wf(),
    ensures
        final(message)@.wf(),
        match outcome {
            Some(place) => match old(message)@.modseq(mailbox@) {
                Ok(modseq) => {
                    let forgotten = old(message)@.forgotten(mailbox@);
                    r == forgotten.duplicate(destination@, place.uidvalidity, place.uid)
                        && final(message)@ == (if r is Ok {
                        forgotten.remembered(
                            destination@,
                            place.uidvalidity,
                            place.uid,
                            modseq,
                            old(message)@.cached_tags(mailbox@),
                        )
                    } else {
                        forgotten
                    })
                },
                Err(error) => r == Err::<bool, Error>(error) && final(message)@ == old(message)@,
            },
            None => r == Err::<bool, Error>(Error::RerunPull) && final(message)@ == old(message)@,
        },
{
    match outcome {
        Some(place) => {
            let modseq = message.modseq(mailbox)?;
            let cached = message.cached_tags(mailbox);
            message.remove_mailbox_properties(mailbox);
            message.update_mailbox_properties(
                destination,
                place.uidvalidity,
                place.uid,
                modseq,
                &cached,
            )
        },
        None => Err(Error::RerunPull),
    }
}

/// Marks the push on the root message, where the push changed the index: the revision on
/// record becomes the one that the mark itself will bring about.
pub fn bump(root: &mut RootMessage, before: u64, now: u64) -> (r: bool)
    requires
        old(root)@.wf(),
        now < u64::MAX,
    ensures
        final(root)@.wf(),
        r == (before != now),
        final(root)@ == (if r {
            notmuch::RootView {
                inner: notmuch::replaced(
                    old(root)@.inner,
                    old(root)@.namespace,
                    "lastmod"@,
                    None,
                    Some(text::digits_of((now + 1) as nat)),
                ),
                ..old(root)@
            }
        } else {
            old(root)@
        }),
{
    if before != now {
        root.update_lastmod(now + 1);
        true
    } else {
        false
    }
}


/// Where the push of one message stands.
#[derive(Clone, Copy, Debug, PartialEq, Eq, Structural)]
pub enum State {
    /// The message is in the index and not on the server.
    LocallyNew,
    /// The server has the message, and the index does not know it yet: a run that stops here
    /// uploads the message once more the next time.
    UploadedUnconfirmed { placed: Append },
    /// The index knows where the server has the message.
    Confirmed,
    /// The message is on the server, and its tags or its place may have changed here.
    Existing,
    /// The server was told to take flags away or to add some, and its answer is awaited;
    /// `more` where flags are still to be added after that.
    FlagDiffPending { more: bool },
    /// The server has the flags of the message.
    Synced,
    /// The server was told to move the message, and its answer is awaited.
    MoveRequested,
    /// The server has the message where the index has it.
    Moved,
}

/// What happened since the last step.
#[derive(Clone, Copy, Debug, PartialEq, Eq, Structural)]
pub enum Event {
    /// The server took the message.
    Appended { placed: Append },
    /// The index has taken note.
    Recorded,
    /// The flags of the message were compared with those that the server has: whether some
    /// are to be taken away, and whether some are to be added.
    Compared { delete: bool, add: bool },
    /// The server answered the STORE: whether it took it.
    Stored { taken: bool },
    /// The files of the message were looked for: whether the message went to another
    /// mailbox.
    Placed { elsewhere: bool },
    /// The server answered the MOVE: whether it said where the message went.
    Answered { moved: bool },
}

/// What to do next.
#[derive(Clone, Copy, Debug, PartialEq, Eq, Structural)]
pub enum Action {
    /// To put on record where the server has the message.
    Record { placed: Append },
    /// To tell the server which flags to take away or to add.
    Store { diff: Diff },
    /// To look where the files of the message are.
    Locate,
    /// To tell the server to move the message.
    Move,
    /// To put on record what the server answered, and then nothing more.
    Finish,
}

/// The step that the push of a message takes in `state` on `event`, and what it asks for. A
/// STORE that the server did not take and a MOVE of which the server did not say where
/// the message went end the push: a pull has to come first.
pub open spec fn next(state: State, event: Event) -> Result<(State, Action), Error> {
    match (state, event) {
        (State::LocallyNew, Event::Appended { placed }) => Ok(
            (State::UploadedUnconfirmed { placed }, Action::Record { placed }),
        ),
        (State::UploadedUnconfirmed { placed }, Event::Recorded) => Ok(
            (State::Confirmed, Action::Finish),
        ),
        (State::Existing, Event::Compared { delete, add }) => if delete {
            Ok((State::FlagDiffPending { more: add }, Action::Store { diff: Diff::Delete }))
        } else if add {
            Ok((State::FlagDiffPending { more: false }, Action::Store { diff: Diff::Add }))
        } else {
            Ok((State::Synced, Action::Locate))
        },
        (State::FlagDiffPending { more }, Event::Stored { taken }) => if !taken {
            Err(Error::RerunPull)
        } else if more {
            Ok((State::FlagDiffPending { more: false }, Action::Store { diff: Diff::Add }))
        } else {
            Ok((State::Synced, Action::Locate))
        },
        (State::Synced, Event::Placed { elsewhere }) => if elsewhere {
            Ok((State::MoveRequested, Action::Move))
        } else {
            Ok((State::Synced, Action::Finish))
        },
        (State::MoveRequested, Event::Answered { moved }) => if moved {
            Ok((State::Moved, Action::Finish))
        } else {
            Err(Error::RerunPull)
        },
        _ => Err(Error::OutOfOrder),
    }
}

/// Takes the push of one message one step further. A message that is new here is uploaded
/// and then put on record. Of a message that the server has, the flags are brought up to
/// the tags, first those to take away and then those to add, and then the message is moved
/// where its files went.
pub fn run(state: State, event: Event) -> (r: Result<(State, Action), Error>)
    ensures
        r == next(state, event),
{
    match (state, event) {
        (State::LocallyNew, Event::Appended { placed }) => Ok(
            (State::UploadedUnconfirmed { placed }, Action::Record { placed }),
        ),
        (State::UploadedUnconfirmed { placed }, Event::Recorded) => Ok(
            (State::Confirmed, Action::Finish),
        ),
        (State::Existing, Event::Compared { delete, add }) => {
            if delete {
                Ok((State::FlagDiffPending { more: add }, Action::Store { diff: Diff::Delete }))
            } else if add {
                Ok((State::FlagDiffPending { more: false }, Action::Store { diff: Diff::Add }))
            } else {
                Ok((State::Synced, Action::Locate))
            }
        },
        (State::FlagDiffPending { more }, Event::Stored { taken }) => {
            if !taken {
                Err(Error::RerunPull)
            } else if more {
                Ok((State::FlagDiffPending { more: false }, Action::Store { diff: Diff::Add }))
            } else {
                Ok((State::Synced, Action::Locate))
            }
        },
        (State::Synced, Event::Placed { elsewhere }) => {
            if elsewhere {
                Ok((State::MoveRequested, Action::Move))
            } else {
                Ok((State::Synced, Action::Finish))
            }
        },
        (State::MoveRequested, Event::Answered { moved }) => {
            if moved {
                Ok((State::Moved, Action::Finish))
            } else {
                Err(Error::RerunPull)
            }
        },
        _ => Err(Error::OutOfOrder),
    }
}

} // verus!
