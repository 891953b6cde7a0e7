//! From the server to the index: what a pull asks of the server and of the index, and what
//! it decides on the answers.
use vstd::prelude::*;
use vstd::string::{StringExecFns, StringSliceAdditionalSpecFns};
use crate::bytes;
use crate::error::Error;
use crate::imap::grammar;
use crate::imap::parser;
use crate::imap::stream::{Scan, Stream};
use crate::imap::Range;
use crate::maildir::Maildir;
use crate::notmuch;
use crate::notmuch::bindings;
use crate::notmuch::{Message, Messages, RootMessage};
use crate::sync;
use crate::sync::{Changes, ChangesView, Command, Head, Select};
use crate::text;
use crate::text::strs;

verus! {

/// What to select a mailbox with once more, where the server has another UIDVALIDITY than the
/// mailbox was selected with: what the engine knew of the mailbox then counts for nothing,
/// and everything is asked for. None where the two agree.
pub fn reselect(select: &Select, uidvalidity: u64) -> (r: Option<(u64, u64)>)
    ensures
        r == (if select.uidvalidity != uidvalidity {
            Some((select.uidvalidity, 0u64))
        } else {
            None
        }),
{
    if select.uidvalidity != uidvalidity {
        Some((select.uidvalidity, 0))
    } else {
        None
    }
}

/// What a FETCH asks for.
#[derive(Clone, Copy, Debug, PartialEq, Eq, Structural)]
pub enum Item {
    /// The size of the message.
    Size,
    /// The message, which is not marked as seen for that.
    Body,
}

/// How the server calls what a FETCH asks for.
pub open spec fn item_name(item: Item) -> Seq<u8> {
    match item {
        Item::Size => "RFC822.SIZE".spec_bytes(),
        Item::Body => "BODY.PEEK[]".spec_bytes(),
    }
}

/// The command that fetches `item` of the message `uid`.
pub fn fetch_command(uid: u64, item: Item) -> (r: Command)
    ensures
        r.log == 5,
        r.parts() == seq![
            "fetch UID FETCH ".spec_bytes(),
            bytes::digits_of(uid as nat),
            " (".spec_bytes(),
            item_name(item),
            ")\r\n".spec_bytes(),
        ],
{
    let mut buffers: Vec<Vec<u8>> = Vec::new();
    buffers.push(sync::part("fetch UID FETCH "));
    buffers.push(bytes::decimal(uid));
    buffers.push(sync::part(" ("));
    buffers.push(
        match item {
            Item::Size => sync::part("RFC822.SIZE"),
            Item::Body => sync::part("BODY.PEEK[]"),
        },
    );
    buffers.push(sync::part(")\r\n"));
    let r = Command { buffers, log: 5 };
    assert(r.parts() =~= seq![
        "fetch UID FETCH ".spec_bytes(),
        bytes::digits_of(uid as nat),
        " (".spec_bytes(),
        item_name(item),
        ")\r\n".spec_bytes(),
    ]);
    r
}

/// What an untagged response means to a FETCH of the size of the message `uid`.
pub open spec fn size_item(tail: Seq<u8>, acc: Option<u64>, uid: u64) -> Option<
    (int, Result<Option<u64>, Error>),
> {
    match grammar::fetch_size_data(tail, 0).matched {
        Some((m, found)) => Some(
            (
                m,
                if found.0 == uid {
                    Ok(Some(found.1))
                } else {
                    Err(Error::InvalidUid)
                },
            ),
        ),
        None => None,
    }
}

/// The untagged answers to a FETCH of a size, read from `end` on.
pub open spec fn size_scan(buffer: Seq<u8>, end: int, acc: Option<u64>, uid: u64) -> Scan<
    Option<u64>,
> {
    sync::scanned(
        buffer,
        end,
        "fetch".spec_bytes(),
        |tail: Seq<u8>, acc: Option<u64>| size_item(tail, acc, uid),
        acc,
    )
}

/// The answers to a FETCH of the size of the message `uid`, read from `end` on: the last
/// untagged FETCH of a size counts, one for another message is an error, and so is none at
/// all.
pub open spec fn size_fetched(buffer: Seq<u8>, end: int, uid: u64) -> Scan<u64> {
    let scan = sync::completed(buffer, size_scan(buffer, end, None, uid));
    match scan.result {
        Ok(Some(size)) => Scan { end: scan.end, result: Ok(size) },
        Ok(None) => Scan { end: scan.end, result: Err(Error::MissingFetch) },
        Err(error) => Scan { end: scan.end, result: Err(error) },
    }
}

/// Reads the answers to a FETCH of the size of the message `uid`.
pub fn fetch_size(stream: &mut Stream, uid: u64) -> (r: Result<u64, Error>)
    requires
        old(stream)@.wf(),
    ensures
        final(stream)@.wf(),
        final(stream)@ == old(stream)@.at(
            size_fetched(old(stream)@.buffer, old(stream)@.end, uid).end,
        ),
        r == size_fetched(old(stream)@.buffer, old(stream)@.end, uid).result,
{
    let mut size: Option<u64> = None;
    loop
        invariant_except_break
            size_scan(old(stream)@.buffer, old(stream)@.end, None, uid) == size_scan(
                stream@.buffer,
                stream@.end,
                size,
                uid,
            ),
        invariant
            stream@.wf(),
            stream@ == old(stream)@.at(stream@.end),
        ensures
            size_scan(old(stream)@.buffer, old(stream)@.end, None, uid) == (Scan {
                end: stream@.end,
                result: Ok(size),
            }),
        decreases stream@.buffer.len() - stream@.end,
    {
        match sync::head(stream) {
            Err(error) => {
                return Err(error);
            },
            Ok(Head::Tagged(tag)) => {
                if bytes::same(tag.as_slice(), "fetch".as_bytes()) {
                    break ;
                } else {
                    return Err(Error::UnexpectedTag);
                }
            },
            Ok(Head::Untagged) => match parser::fetch_size_data(stream.rest()) {
                Ok((consumed, found)) => {
                    stream.advance(consumed);
                    if found.0 != uid {
                        return Err(Error::InvalidUid);
                    }
                    size = Some(found.1);
                },
                Err(_) => match sync::skip_line(stream) {
                    Ok(_) => {},
                    Err(error) => {
                        return Err(error);
                    },
                },
            },
        }
    }
    match sync::complete(stream) {
        Ok(_) => {},
        Err(error) => {
            return Err(error);
        },
    }
    match size {
        Some(size) => Ok(size),
        None => Err(Error::MissingFetch),
    }
}

/// What an untagged response means to a FETCH of the message `uid`.
pub open spec fn body_item(tail: Seq<u8>, acc: Option<Option<Seq<u8>>>, uid: u64) -> Option<
    (int, Result<Option<Option<Seq<u8>>>, Error>),
> {
    match grammar::fetch_body_data(tail, 0).matched {
        Some((m, found)) => Some(
            (
                m,
                if found.0 == uid {
                    Ok(Some(found.1))
                } else {
                    Err(Error::InvalidUid)
                },
            ),
        ),
        None => None,
    }
}

/// The untagged answers to a FETCH of a message, read from `end` on.
pub open spec fn body_scan(
    buffer: Seq<u8>,
    end: int,
    acc: Option<Option<Seq<u8>>>,
    uid: u64,
) -> Scan<Option<Option<Seq<u8>>>> {
    sync::scanned(
        buffer,
        end,
        "fetch".spec_bytes(),
        |tail: Seq<u8>, acc: Option<Option<Seq<u8>>>| body_item(tail, acc, uid),
        acc,
    )
}

/// The answers to a FETCH of the message `uid`, read from `end` on: the last untagged FETCH
/// of a body counts, one for another message is an error, and so are none at all and a body
/// that is NIL.
pub open spec fn body_fetched(buffer: Seq<u8>, end: int, uid: u64) -> Scan<Seq<u8>> {
    let scan = sync::completed(buffer, body_scan(buffer, end, None, uid));
    match scan.result {
        Ok(Some(Some(body))) => Scan { end: scan.end, result: Ok(body) },
        Ok(Some(None)) => Scan { end: scan.end, result: Err(Error::MissingBody) },
        Ok(None) => Scan { end: scan.end, result: Err(Error::MissingFetch) },
        Err(error) => Scan { end: scan.end, result: Err(error) },
    }
}

/// `r` is the outcome `expected`.
pub open spec fn body_is(r: Result<Vec<u8>, Error>, expected: Result<Seq<u8>, Error>) -> bool {
    match r {
        Ok(body) => expected == Ok::<Seq<u8>, Error>(body@),
        Err(error) => expected == Err::<Seq<u8>, Error>(error),
    }
}

/// Reads the answers to a FETCH of the message `uid`.
pub fn fetch_body(stream: &mut Stream, uid: u64) -> (r: Result<Vec<u8>, Error>)
    requires
        old(stream)@.wf(),
    ensures
        final(stream)@.wf(),
        final(stream)@ == old(stream)@.at(
            body_fetched(old(stream)@.buffer, old(stream)@.end, uid).end,
        ),
        body_is(r, body_fetched(old(stream)@.buffer, old(stream)@.end, uid).result),
{
    let mut body: Option<Option<Vec<u8>>> = None;
    loop
        invariant_except_break
            body_scan(old(stream)@.buffer, old(stream)@.end, None, uid) == body_scan(
                stream@.buffer,
                stream@.end,
                body.deep_view(),
                uid,
            ),
        invariant
            stream@.wf(),
            stream@ == old(stream)@.at(stream@.end),
        ensures
            body_scan(old(stream)@.buffer, old(stream)@.end, None, uid) == (Scan {
                end: stream@.end,
                result: Ok(body.deep_view()),
            }),
        decreases stream@.buffer.len() - stream@.end,
    {
        match sync::head(stream) {
            Err(error) => {
                return Err(error);
            },
            Ok(Head::Tagged(tag)) => {
                if bytes::same(tag.as_slice(), "fetch".as_bytes()) {
                    break ;
                } else {
                    return Err(Error::UnexpectedTag);
                }
            },
            Ok(Head::Untagged) => match parser::fetch_body_data(stream.rest()) {
                Ok((consumed, found)) => {
                    stream.advance(consumed);
                    if found.0 != uid {
                        return Err(Error::InvalidUid);
                    }
                    body = Some(found.1);
                },
                Err(_) => match sync::skip_line(stream) {
                    Ok(_) => {},
                    Err(error) => {
                        return Err(error);
                    },
                },
            },
        }
    }
    match sync::complete(stream) {
        Ok(_) => {},
        Err(error) => {
            return Err(error);
        },
    }
    match body {
        Some(Some(body)) => {
            proof {
                crate::imap::rules::lemma_bytes_deep_view(body);
            }
            Ok(body)
        },
        Some(None) => Err(Error::MissingBody),
        None => Err(Error::MissingFetch),
    }
}

/// The query for the messages of `mailbox` that the engine under `namespace` knows under
/// another UIDVALIDITY than `uidvalidity`.
pub open spec fn not_uidvalidity_query(namespace: Seq<char>, mailbox: Seq<char>, uidvalidity: u64) -> Seq<char> {
    "    property:\""@ + notmuch::quoted(namespace) + ".marker="@ + notmuch::MESSAGE_MARKER@
        + "\" and property:\""@ + notmuch::quoted(namespace) + ".mailbox="@ + notmuch::quoted(
        mailbox,
    ) + "\" and not property:\""@ + notmuch::quoted(namespace) + "."@ + notmuch::quoted(mailbox)
        + ".uidvalidity="@ + text::digits_of(uidvalidity as nat) + "\""@
}

/// The index is asked the queries for the messages to purge and for the messages with
/// given identifiers without the indentation that they are written with.
pub proof fn lemma_queries_run_unindented(
    namespace: Seq<char>,
    mailbox: Seq<char>,
    uidvalidity: u64,
    uids: Seq<u64>,
)
    ensures
        ({
            let query = not_uidvalidity_query(namespace, mailbox, uidvalidity);
            notmuch::database::trimmed(query) == query.subrange(4, query.len() as int)
        }),
        ({
            let query = uids_query(namespace, mailbox, uidvalidity, uids);
            notmuch::database::trimmed(query) == query.subrange(4, query.len() as int)
        }),
{
    reveal_strlit("    property:\"");
    reveal_strlit("\"");
    reveal_strlit(")");
    let head = "    property:\""@;
    let purge = not_uidvalidity_query(namespace, mailbox, uidvalidity);
    assert(purge.subrange(0, 5) =~= head.subrange(0, 5));
    assert forall|i: int| 0 <= i < 5 implies #[trigger] purge[i] == head[i] by {
        assert(purge.subrange(0, 5)[i] == head.subrange(0, 5)[i]);
    }
    notmuch::database::lemma_trimmed_of_query(purge);
    let search = uids_query(namespace, mailbox, uidvalidity, uids);
    assert(search.subrange(0, 5) =~= head.subrange(0, 5));
    assert forall|i: int| 0 <= i < 5 implies #[trigger] search[i] == head[i] by {
        assert(search.subrange(0, 5)[i] == head.subrange(0, 5)[i]);
    }
    notmuch::database::lemma_trimmed_of_query(search);
}

/// The query for the messages to purge from `mailbox`.
pub fn search_not_uidvalidity(namespace: &str, mailbox: &str, uidvalidity: u64) -> (r: String)
    ensures
        r@ == not_uidvalidity_query(namespace@, mailbox@, uidvalidity),
{
    let namespace = notmuch::quote(namespace);
    let mailbox = notmuch::quote(mailbox);
    let number = text::decimal(uidvalidity);
    let mut query = String::from_str("    property:\"");
    query.append(namespace.as_str());
    query.append(".marker=");
    query.append(notmuch::MESSAGE_MARKER);
    query.append("\" and property:\"");
    query.append(namespace.as_str());
    query.append(".mailbox=");
    query.append(mailbox.as_str());
    query.append("\" and not property:\"");
    query.append(namespace.as_str());
    query.append(".");
    query.append(mailbox.as_str());
    query.append(".uidvalidity=");
    query.append(number.as_str());
    query.append("\"");
    query
}

/// The term of a query that finds the message `uid` of `mailbox`.
pub open spec fn uid_term(namespace: Seq<char>, mailbox: Seq<char>, uid: u64) -> Seq<char> {
    "property:\""@ + namespace + "."@ + mailbox + ".uid="@ + text::digits_of(uid as nat) + "\""@
}

/// The terms for `uids`, a space between two.
pub open spec fn uid_terms(namespace: Seq<char>, mailbox: Seq<char>, uids: Seq<u64>) -> Seq<char>
    decreases uids.len(),
{
    if uids.len() == 0 {
        Seq::empty()
    } else if uids.len() == 1 {
        uid_term(namespace, mailbox, uids[0])
    } else {
        uid_terms(namespace, mailbox, uids.drop_last()) + " "@ + uid_term(
            namespace,
            mailbox,
            uids.last(),
        )
    }
}

/// The query for the messages of `mailbox` that the engine under `namespace` knows under
/// `uidvalidity` and one of `uids`.
pub open spec fn uids_query(
    namespace: Seq<char>,
    mailbox: Seq<char>,
    uidvalidity: u64,
    uids: Seq<u64>,
) -> Seq<char> {
    "    property:\""@ + notmuch::quoted(namespace) + ".marker="@ + notmuch::MESSAGE_MARKER@
        + "\" and property:\""@ + notmuch::quoted(namespace) + ".mailbox="@ + notmuch::quoted(
        mailbox,
    ) + "\" and property:\""@ + notmuch::quoted(namespace) + "."@ + notmuch::quoted(mailbox)
        + ".uidvalidity="@ + text::digits_of(uidvalidity as nat) + "\" and ("@ + uid_terms(
        notmuch::quoted(namespace),
        notmuch::quoted(mailbox),
        uids,
    ) + ")"@
}

/// The query for the messages of `mailbox` with one of `uids`, or none where there is no
/// uid to look for: the query would then find every message.
pub open spec fn search(
    namespace: Seq<char>,
    mailbox: Seq<char>,
    uidvalidity: u64,
    uids: Seq<u64>,
) -> Option<Seq<char>> {
    if uids.len() == 0 {
        None
    } else {
        Some(uids_query(namespace, mailbox, uidvalidity, uids))
    }
}

/// The query for the messages of `mailbox` with one of `uids`, or none where there is no
/// uid to look for.
pub fn search_uids(namespace: &str, mailbox: &str, uidvalidity: u64, uids: &Vec<u64>) -> (r:
    Option<String>)
    ensures
        text::string_of(r) == search(namespace@, mailbox@, uidvalidity, uids@),
{
    if uids.len() == 0 {
        return None;
    }
    let namespace = notmuch::quote(namespace);
    let mailbox = notmuch::quote(mailbox);
    let number = text::decimal(uidvalidity);
    let mut terms = String::new();
    let mut i: usize = 0;
    assert(uids@.subrange(0, 0) =~= Seq::<u64>::empty());
    while i < uids.len()
        invariant
            i <= uids.len(),
            terms@ == uid_terms(namespace@, mailbox@, uids@.subrange(0, i as int)),
        decreases uids.len() - i,
    {
        proof {
            let next = uids@.subrange(0, i + 1);
            assert(next.drop_last() =~= uids@.subrange(0, i as int));
            assert(next.last() == uids@[i as int]);
            if i == 0 {
                assert(next[0] == uids@[0]);
            }
        }
        if i > 0 {
            terms.append(" ");
        }
        let uid = text::decimal(uids[i]);
        terms.append("property:\"");
        terms.append(namespace.as_str());
        terms.append(".");
        terms.append(mailbox.as_str());
        terms.append(".uid=");
        terms.append(uid.as_str());
        terms.append("\"");
        assert(terms@ =~= uid_terms(namespace@, mailbox@, uids@.subrange(0, i + 1)));
        i += 1;
    }
    assert(uids@.subrange(0, uids@.len() as int) =~= uids@);
    let mut query = String::from_str("    property:\"");
    query.append(namespace.as_str());
    query.append(".marker=");
    query.append(notmuch::MESSAGE_MARKER);
    query.append("\" and property:\"");
    query.append(namespace.as_str());
    query.append(".mailbox=");
    query.append(mailbox.as_str());
    query.append("\" and property:\"");
    query.append(namespace.as_str());
    query.append(".");
    query.append(mailbox.as_str());
    query.append(".uidvalidity=");
    query.append(number.as_str());
    query.append("\" and (");
    query.append(terms.as_str());
    query.append(")");
    Some(query)
}

/// The name under which the message `uid` of a mailbox is staged in `tmp`: by it a message
/// that an interrupted run fetched is found again.
pub open spec fn staged(root_namespace: Seq<char>, uidvalidity: u64, uid: u64) -> Seq<char> {
    root_namespace + "_"@ + text::digits_of(uidvalidity as nat) + "_"@ + text::digits_of(
        uid as nat,
    )
}

/// The name under which the message `uid` of a mailbox is staged in `tmp`.
pub fn staged_name(root_namespace: &str, uidvalidity: u64, uid: u64) -> (r: String)
    ensures
        r@ == staged(root_namespace@, uidvalidity, uid),
{
    let mut name = String::from_str(root_namespace);
    name.append("_");
    name.append(text::decimal(uidvalidity).as_str());
    name.append("_");
    name.append(text::decimal(uid).as_str());
    name
}

/// The paths of `paths` that lie in `maildir`, in their order.
pub open spec fn inside(maildir: crate::maildir::MaildirView, paths: Seq<Seq<char>>) -> Seq<
    Seq<char>,
>
    decreases paths.len(),
{
    if paths.len() == 0 {
        paths
    } else if maildir.has(paths.last()) {
        inside(maildir, paths.drop_last()).push(paths.last())
    } else {
        inside(maildir, paths.drop_last())
    }
}

/// Takes a message out of `mailbox`: it is forgotten there, and its files in `maildir` are
/// to be removed, now from the disk and at the end of the run from the index. Gives the
/// paths of these files.
pub fn remove_message(mailbox: &str, maildir: &Maildir, message: &mut Message) -> (r: Vec<String>)
    requires
        old(message)@.wf(),
    ensures
        final(message)@.wf(),
        final(message)@ == old(message)@.forgotten(mailbox@),
        strs(r@) == inside(maildir@, old(message)@.inner.paths),
{
    let paths = message.paths();
    let mut removals: Vec<String> = Vec::new();
    let mut i: usize = 0;
    assert(strs(paths@).subrange(0, 0) =~= Seq::<Seq<char>>::empty());
    assert(strs(removals@) =~= Seq::<Seq<char>>::empty());
    while i < paths.len()
        invariant
            i <= paths.len(),
            strs(removals@) == inside(maildir@, strs(paths@).subrange(0, i as int)),
        decreases paths.len() - i,
    {
        proof {
            let next = strs(paths@).subrange(0, i + 1);
            assert(next.drop_last() =~= strs(paths@).subrange(0, i as int));
            assert(next.last() == paths@[i as int]@);
        }
        if maildir.has(paths[i].as_str()) {
            let ghost before = strs(removals@);
            removals.push(paths[i].clone());
            assert(strs(removals@) =~= before.push(paths@[i as int]@));
        }
        i += 1;
    }
    assert(strs(paths@).subrange(0, paths@.len() as int) =~= strs(paths@));
    message.remove_mailbox_properties(mailbox);
    removals
}

/// The files of the messages of `found` that lie in `maildir`, message by message.
pub open spec fn all_inside(
    maildir: crate::maildir::MaildirView,
    found: Seq<bindings::MessageView>,
) -> Seq<Seq<char>>
    decreases found.len(),
{
    if found.len() == 0 {
        Seq::empty()
    } else {
        all_inside(maildir, found.drop_last()) + inside(maildir, found.last().paths)
    }
}

/// Takes every message that a query found out of `mailbox`: each is forgotten there, and
/// its files in `maildir` are to be removed. Gives the messages, in the order in which they
/// were found, and the paths of these files. Where the query found no message, no message
/// changes and no file is to be removed.
pub fn remove_messages(mailbox: &str, maildir: &Maildir, found: Messages) -> (r: (
    Vec<Message>,
    Vec<String>,
))
    requires
        found@.wf(),
    ensures
        r.0@.len() == found@.left.len(),
        forall|i: int|
            0 <= i < r.0@.len() ==> (#[trigger] r.0@[i])@.wf() && r.0@[i]@ == (notmuch::MessageView {
                inner: found@.left[i],
                namespace: found@.namespace,
            }).forgotten(mailbox@),
        strs(r.1@) == all_inside(maildir@, found@.left),
        found@.left.len() == 0 ==> r.0@.len() == 0 && r.1@.len() == 0,
{
    let ghost all = found@.left;
    let ghost namespace = found@.namespace;
    let mut found = found;
    let mut messages: Vec<Message> = Vec::new();
    let mut removals: Vec<String> = Vec::new();
    assert(all.subrange(0, all.len() as int) =~= all);
    assert(strs(removals@) =~= Seq::<Seq<char>>::empty());
    loop
        invariant
            found@.wf(),
            found@.namespace == namespace,
            messages@.len() <= all.len(),
            found@.left == all.subrange(messages@.len() as int, all.len() as int),
            forall|i: int|
                0 <= i < messages@.len() ==> (#[trigger] messages@[i])@.wf() && messages@[i]@ == (
                notmuch::MessageView { inner: all[i], namespace }).forgotten(mailbox@),
            strs(removals@) == all_inside(maildir@, all.subrange(0, messages@.len() as int)),
        ensures
            messages@.len() == all.len(),
        decreases all.len() - messages@.len(),
    {
        let ghost done = messages@.len() as int;
        match found.next() {
            None => {
                break ;
            },
            Some(message) => {
                let mut message = message;
                let mut paths = remove_message(mailbox, maildir, &mut message);
                let ghost before = strs(removals@);
                let ghost added = strs(paths@);
                removals.append(&mut paths);
                messages.push(message);
                proof {
                    let next = all.subrange(0, done + 1);
                    assert(next.drop_last() =~= all.subrange(0, done));
                    assert(next.last() == all[done]);
                    assert(strs(removals@) =~= before + added);
                    assert(all.subrange(done, all.len() as int).subrange(
                        1,
                        all.len() - done,
                    ) =~= all.subrange(done + 1, all.len() as int));
                }
            },
        }
    }
    assert(all.subrange(0, all.len() as int) =~= all);
    (messages, removals)
}

/// Whether the mailbox has to be purged before it is pulled: it has where the server has
/// another UIDVALIDITY for it than the engine knows, which is an error unless the mailbox is
/// new here or may be purged. Where the UIDVALIDITY is the one that the engine knows, a
/// hierarchy separator that changed is an error, unless the mailbox is new here.
pub open spec fn purge(
    validity: (u64, u64),
    recorded: Option<char>,
    separator: Option<char>,
    uidvalidity: u64,
    purgeable: bool,
) -> Result<bool, Error> {
    if uidvalidity != validity.0 {
        if validity == (0u64, 0u64) || purgeable {
            Ok(true)
        } else {
            Err(Error::ValidityChanged)
        }
    } else if validity != (0u64, 0u64) && separator != recorded {
        Err(Error::SeparatorChanged)
    } else {
        Ok(false)
    }
}

/// Decides whether `mailbox`, of which the engine knows `validity` and the separator
/// `recorded`, has to be purged now that the server has `uidvalidity` and `separator` for it.
pub fn check(
    mailbox: &str,
    validity: (u64, u64),
    recorded: Option<char>,
    separator: Option<char>,
    uidvalidity: u64,
    purgeable: &Vec<String>,
) -> (r: Result<bool, Error>)
    ensures
        r == purge(validity, recorded, separator, uidvalidity, strs(purgeable@).contains(mailbox@)),
{
    let new = validity.0 == 0 && validity.1 == 0;
    if uidvalidity != validity.0 {
        if new || text::contains(purgeable, mailbox) {
            Ok(true)
        } else {
            Err(Error::ValidityChanged)
        }
    } else if !new && separator != recorded {
        Err(Error::SeparatorChanged)
    } else {
        Ok(false)
    }
}

/// Where the change for the message `uid` stands in `changes`, or their number.
pub open spec fn position(changes: Seq<ChangesView>, uid: u64, from: int) -> int
    decreases changes.len() - from,
{
    if from < 0 || from >= changes.len() {
        changes.len() as int
    } else if changes[from].uid == uid {
        from
    } else {
        position(changes, uid, from + 1)
    }
}

/// What a pull makes of a message that the index holds and the server reports as changed:
/// the message afterwards, the changes left, and whether anything was done.
pub struct Updated {
    pub message: notmuch::MessageView,
    pub changes: Seq<ChangesView>,
    pub result: Result<bool, Error>,
}

/// Brings a message that the index holds up to what the server reports of it. The change
/// for it is taken off `changes`. Where the message is at the mod-sequence of the change
/// already, nothing else is done; else it takes the mod-sequence and the tags of the change,
/// and its files are renamed after them. Where what is on record of the message cannot be
/// read, that is an error, and the message stays as it is.
pub fn update(message: &mut Message, changes: &mut Vec<Changes>, mailbox: &str, uidvalidity: u64) -> (r:
    Result<bool, Error>)
    requires
        old(message)@.wf(),
    ensures
        final(message)@.wf(),
        match (old(message)@.uid(mailbox@), old(message)@.modseq(mailbox@)) {
            (Ok(uid), Ok(modseq)) => {
                let at = position(sync::changes(old(changes)@), uid, 0);
                if at < old(changes)@.len() {
                    let change = sync::changes(old(changes)@)[at];
                    &&& sync::changes(final(changes)@) == sync::changes(old(changes)@).remove(at)
                    &&& if change.modseq == modseq {
                        r == Ok::<bool, Error>(false) && final(message)@ == old(message)@
                    } else if old(message)@.duplicate(mailbox@, uidvalidity, uid) is Err {
                        r == Err::<bool, Error>(
                            old(message)@.duplicate(mailbox@, uidvalidity, uid)->Err_0,
                        ) && final(message)@ == old(message)@
                    } else {
                        let remembered = old(message)@.remembered(
                            mailbox@,
                            uidvalidity,
                            uid,
                            change.modseq,
                            notmuch::tags_of(change.flags),
                        );
                        r == Ok::<bool, Error>(true) && final(message)@ == (notmuch::MessageView {
                            inner: remembered.inner.noted(bindings::ChangeView::TagsToMaildirFlags),
                            ..remembered
                        })
                    }
                } else {
                    r == Err::<bool, Error>(Error::InvalidUid) && final(message)@ == old(message)@
                        && final(changes)@ == old(changes)@
                }
            },
            (Err(error), _) => r == Err::<bool, Error>(error) && final(message)@ == old(message)@
                && final(changes)@ == old(changes)@,
            (_, Err(error)) => r == Err::<bool, Error>(error) && final(message)@ == old(message)@
                && final(changes)@ == old(changes)@,
        },
{
    let uid = message.uid(mailbox)?;
    let modseq = message.modseq(mailbox)?;
    let mut at: usize = 0;
    while at < changes.len() && changes[at].uid != uid
        invariant
            at <= changes.len(),
            changes@ == old(changes)@,
            position(sync::changes(changes@), uid, 0) == position(
                sync::changes(changes@),
                uid,
                at as int,
            ),
        decreases changes.len() - at,
    {
        at += 1;
    }
    if at == changes.len() {
        return Err(Error::InvalidUid);
    }
    let ghost before = sync::changes(changes@);
    let change = changes.remove(at);
    assert(sync::changes(changes@) =~= before.remove(at as int));
    assert(change@ == before[at as int]);
    if change.modseq == modseq {
        return Ok(false);
    }
    let tags = notmuch::flags_to_tags(&change.flags);
    message.update_mailbox_properties(mailbox, uidvalidity, uid, change.modseq, &tags)?;
    message.tags_to_maildir_flags();
    Ok(true)
}

/// Records a message that was just added to the index as the message of `change`, and tells
/// whether the message was known in `mailbox` under another identifier. Where what is on
/// record of the message in `mailbox` cannot be read, that is an error, and the message stays
/// as it is.
pub fn add(message: &mut Message, change: &Changes, mailbox: &str, uidvalidity: u64) -> (r: Result<
    bool,
    Error,
>)
    requires
        old(message)@.wf(),
    ensures
        final(message)@.wf(),
        r == old(message)@.duplicate(mailbox@, uidvalidity, change.uid),
        final(message)@ == (if r is Ok {
            old(message)@.remembered(
                mailbox@,
                uidvalidity,
                change.uid,
                change.modseq,
                notmuch::tags_of(change@.flags),
            )
        } else {
            old(message)@
        }),
{
    let tags = notmuch::flags_to_tags(&change.flags);
    message.update_mailbox_properties(mailbox, uidvalidity, change.uid, change.modseq, &tags)
}

/// The identifiers of the messages of `changes`, in their order.
pub open spec fn changed(changes: Seq<Changes>) -> Seq<u64> {
    Seq::new(changes.len(), |i: int| changes[i].uid)
}

/// The identifiers of the messages that changed.
pub fn changed_uids(changes: &Vec<Changes>) -> (r: Vec<u64>)
    ensures
        r@ == changed(changes@),
{
    let mut uids: Vec<u64> = Vec::new();
    let mut i: usize = 0;
    while i < changes.len()
        invariant
            i <= changes.len(),
            uids@ == Seq::new(i as nat, |j: int| changes@[j].uid),
        decreases changes.len() - i,
    {
        uids.push(changes[i].uid);
        assert(uids@ =~= Seq::new((i + 1) as nat, |j: int| changes@[j].uid));
        i += 1;
    }
    uids
}

/// The identifiers from `from` to `to`, both included.
pub open spec fn span(from: u64, to: u64) -> Seq<u64> {
    if from <= to {
        Seq::new((to - from + 1) as nat, |i: int| (from + i) as u64)
    } else {
        Seq::empty()
    }
}

/// The identifiers that the ranges `ranges` cover, range by range.
pub open spec fn covered(ranges: Seq<Range>) -> Seq<u64>
    decreases ranges.len(),
{
    if ranges.len() == 0 {
        Seq::empty()
    } else {
        covered(ranges.drop_last()) + span(ranges.last().0, ranges.last().1)
    }
}

/// The identifiers of the messages that vanished.
pub fn vanished_uids(vanished: &Vec<Range>) -> (r: Vec<u64>)
    ensures
        r@ == covered(vanished@),
{
    let mut uids: Vec<u64> = Vec::new();
    let mut i: usize = 0;
    assert(vanished@.subrange(0, 0) =~= Seq::<Range>::empty());
    while i < vanished.len()
        invariant
            i <= vanished.len(),
            uids@ == covered(vanished@.subrange(0, i as int)),
        decreases vanished.len() - i,
    {
        let range = vanished[i];
        let ghost before = uids@;
        proof {
            let next = vanished@.subrange(0, i + 1);
            assert(next.drop_last() =~= vanished@.subrange(0, i as int));
            assert(next.last() == range);
        }
        if range.0 <= range.1 {
            let mut uid = range.0;
            while uid < range.1
                invariant
                    range.0 <= uid <= range.1,
                    uids@ == before + Seq::new((uid - range.0) as nat, |j: int| (range.0 + j) as u64),
                decreases range.1 - uid,
            {
                uids.push(uid);
                assert(uids@ =~= before + Seq::new(
                    (uid + 1 - range.0) as nat,
                    |j: int| (range.0 + j) as u64,
                ));
                uid += 1;
            }
            uids.push(uid);
            assert(uids@ =~= before + span(range.0, range.1));
        } else {
            assert(uids@ =~= before + span(range.0, range.1));
        }
        i += 1;
    }
    assert(vanished@.subrange(0, vanished@.len() as int) =~= vanished@);
    uids
}

/// The root message once a pull of `mailbox` is over: it holds what the server said of the
/// mailbox, and is as it was where that was on record already.
pub open spec fn finished(
    root: notmuch::RootView,
    mailbox: Seq<char>,
    separator: Option<char>,
    validity: (u64, u64),
    uidvalidity: u64,
    highestmodseq: u64,
) -> notmuch::RootView {
    if validity != (uidvalidity, highestmodseq) {
        root.remembered(mailbox, separator, uidvalidity, highestmodseq)
    } else {
        root
    }
}

/// Puts on record what the server said of `mailbox`, unless that is what is on record.
pub fn finish(
    root: &mut RootMessage,
    mailbox: &str,
    separator: Option<char>,
    validity: (u64, u64),
    uidvalidity: u64,
    highestmodseq: u64,
) -> (r: bool)
    requires
        old(root)@.wf(),
    ensures
        final(root)@.wf(),
        r == (validity != (uidvalidity, highestmodseq)),
        final(root)@ == finished(
            old(root)@,
            mailbox@,
            separator,
            validity,
            uidvalidity,
            highestmodseq,
        ),
{
    if validity.0 != uidvalidity || validity.1 != highestmodseq {
        root.update_mailbox_properties(mailbox, separator, uidvalidity, highestmodseq);
        true
    } else {
        false
    }
}

/// Whether the server lists a mailbox that reads `name`.
pub open spec fn lists(listed: Seq<sync::MailboxView>, name: Seq<char>) -> bool {
    exists|i: int| 0 <= i < listed.len() && #[trigger] listed[i].string == name
}

/// Whether a mailbox on record is to be purged: it is where the server no longer lists it,
/// which is an error unless it may be purged.
pub fn retire(known: &str, listed: &Vec<sync::Mailbox>, purgeable: &Vec<String>) -> (r: Result<
    bool,
    Error,
>)
    ensures
        r == (if lists(sync::mailboxes(listed@), known@) {
            Ok::<bool, Error>(false)
        } else if strs(purgeable@).contains(known@) {
            Ok::<bool, Error>(true)
        } else {
            Err::<bool, Error>(Error::MailboxRemoved)
        }),
{
    let mut i: usize = 0;
    while i < listed.len()
        invariant
            i <= listed.len(),
            forall|j: int| 0 <= j < i ==> (#[trigger] sync::mailboxes(listed@)[j]).string != known@,
        decreases listed.len() - i,
    {
        if text::equal(listed[i].string.as_str(), known) {
            assert(sync::mailboxes(listed@)[i as int].string == known@);
            return Ok(false);
        }
        i += 1;
    }
    if text::contains(purgeable, known) {
        Ok(true)
    } else {
        Err(Error::MailboxRemoved)
    }
}


/// Where the pull of one mailbox stands.
#[derive(Clone, Copy, Debug, PartialEq, Eq)]
pub enum State {
    /// Nothing was asked of the server yet.
    Initial,
    /// The mailbox was selected with the UIDVALIDITY `asked`, and the answer is awaited.
    Selecting { validity: (u64, u64), recorded: Option<char>, separator: Option<char>, purgeable: bool, asked: u64 },
    /// The server has another UIDVALIDITY than the engine knew: what the index holds of the
    /// mailbox is being purged.
    Purging { validity: (u64, u64), uidvalidity: u64, highestmodseq: u64 },
    /// The mailbox is selected, and what the server told of it is being applied.
    Selected { validity: (u64, u64), uidvalidity: u64, highestmodseq: u64 },
    /// The index holds what the server told.
    Reconciled { uidvalidity: u64, highestmodseq: u64 },
}

/// What happened since the last step.
#[derive(Clone, Copy, Debug, PartialEq, Eq)]
pub enum Event {
    /// The root message was read: what the engine knows of the mailbox, its separator on the
    /// server, and whether it may be purged.
    Known { validity: (u64, u64), recorded: Option<char>, separator: Option<char>, purgeable: bool },
    /// The server answered the SELECT.
    Answered { uidvalidity: u64, highestmodseq: u64 },
    /// What the index held of the mailbox is purged.
    Purged,
    /// The changed, the new and the vanished messages are dealt with.
    Applied,
}

/// What to do next.
#[derive(Clone, Copy, Debug, PartialEq, Eq, Structural)]
pub enum Action {
    /// To select the mailbox, with what the engine knows of it.
    Select { uidvalidity: u64, highestmodseq: u64 },
    /// To purge the messages that the index holds under another UIDVALIDITY.
    Purge { uidvalidity: u64 },
    /// To apply what the server told: the changed, the new and the vanished messages.
    Apply,
    /// To put the UIDVALIDITY and the HIGHESTMODSEQ of the server on record, if `changed`.
    Record { changed: bool },
}

/// The step that the pull of a mailbox takes in `state` on `event`, and what it asks for.
pub open spec fn next(state: State, event: Event) -> Result<(State, Action), Error> {
    match (state, event) {
        (State::Initial, Event::Known { validity, recorded, separator, purgeable }) => Ok(
            (
                State::Selecting { validity, recorded, separator, purgeable, asked: validity.0 },
                Action::Select { uidvalidity: validity.0, highestmodseq: validity.1 },
            ),
        ),
        (
            State::Selecting { validity, recorded, separator, purgeable, asked },
            Event::Answered { uidvalidity, highestmodseq },
        ) => if uidvalidity != asked {
            Ok(
                (
                    State::Selecting { validity, recorded, separator, purgeable, asked: uidvalidity },
                    Action::Select { uidvalidity, highestmodseq: 0 },
                ),
            )
        } else {
            match purge(validity, recorded, separator, uidvalidity, purgeable) {
                Err(error) => Err(error),
                Ok(true) => Ok(
                    (
                        State::Purging { validity, uidvalidity, highestmodseq },
                        Action::Purge { uidvalidity },
                    ),
                ),
                Ok(false) => Ok(
                    (State::Selected { validity, uidvalidity, highestmodseq }, Action::Apply),
                ),
            }
        },
        (State::Purging { validity, uidvalidity, highestmodseq }, Event::Purged) => Ok(
            (State::Selected { validity, uidvalidity, highestmodseq }, Action::Apply),
        ),
        (State::Selected { validity, uidvalidity, highestmodseq }, Event::Applied) => Ok(
            (
                State::Reconciled { uidvalidity, highestmodseq },
                Action::Record { changed: validity != (uidvalidity, highestmodseq) },
            ),
        ),
        _ => Err(Error::OutOfOrder),
    }
}

/// Takes the pull of one mailbox one step further. The mailbox is selected with what the
/// engine knows of it, and once more for as long as the server answers with another
/// UIDVALIDITY than it was asked with; then it is purged where it has to and may be, what
/// the server told is applied, and the root message takes note.
pub fn run(state: State, event: Event) -> (r: Result<(State, Action), Error>)
    ensures
        r == next(state, event),
{
    match (state, event) {
        (State::Initial, Event::Known { validity, recorded, separator, purgeable }) => Ok(
            (
                State::Selecting { validity, recorded, separator, purgeable, asked: validity.0 },
                Action::Select { uidvalidity: validity.0, highestmodseq: validity.1 },
            ),
        ),
        (
            State::Selecting { validity, recorded, separator, purgeable, asked },
            Event::Answered { uidvalidity, highestmodseq },
        ) => {
            if uidvalidity != asked {
                return Ok(
                    (
                        State::Selecting {
                            validity,
                            recorded,
                            separator,
                            purgeable,
                            asked: uidvalidity,
                        },
                        Action::Select { uidvalidity, highestmodseq: 0 },
                    ),
                );
            }
            let new = validity.0 == 0 && validity.1 == 0;
            if uidvalidity != validity.0 {
                if new || purgeable {
                    Ok(
                        (
                            State::Purging { validity, uidvalidity, highestmodseq },
                            Action::Purge { uidvalidity },
                        ),
                    )
                } else {
                    Err(Error::ValidityChanged)
                }
            } else if !new && separator != recorded {
                Err(Error::SeparatorChanged)
            } else {
                Ok((State::Selected { validity, uidvalidity, highestmodseq }, Action::Apply))
            }
        },
        (State::Purging { validity, uidvalidity, highestmodseq }, Event::Purged) => Ok(
            (State::Selected { validity, uidvalidity, highestmodseq }, Action::Apply),
        ),
        (State::Selected { validity, uidvalidity, highestmodseq }, Event::Applied) => Ok(
            (
                State::Reconciled { uidvalidity, highestmodseq },
                Action::Record {
                    changed: validity.0 != uidvalidity || validity.1 != highestmodseq,
                },
            ),
        ),
        _ => Err(Error::OutOfOrder),
    }
}

/// A pull to which the server tells nothing new changes nothing. Where the answer to SELECT
/// holds the UIDVALIDITY and the HIGHESTMODSEQ that are on record, no message that changed
/// and none that vanished, the steps are to select, to apply and to record nothing; in
/// applying, no message is looked for in the index, neither to be brought up to date nor to
/// be removed, and none is left to be fetched; and the root message stays as it is.
pub proof fn lemma_pull_without_news(
    root: notmuch::RootView,
    namespace: Seq<char>,
    mailbox: Seq<char>,
    validity: (u64, u64),
    separator: Option<char>,
    purgeable: bool,
    answer: sync::Select,
)
    requires
        validity != (0u64, 0u64),
        answer.uidvalidity == validity.0,
        answer.highestmodseq == validity.1,
        answer.changes@.len() == 0,
        answer.vanished@.len() == 0,
    ensures
        ({
            let selecting = State::Selecting {
                validity,
                recorded: separator,
                separator,
                purgeable,
                asked: validity.0,
            };
            let selected = State::Selected {
                validity,
                uidvalidity: answer.uidvalidity,
                highestmodseq: answer.highestmodseq,
            };
            &&& next(
                State::Initial,
                Event::Known { validity, recorded: separator, separator, purgeable },
            ) == Ok::<(State, Action), Error>(
                (selecting, Action::Select { uidvalidity: validity.0, highestmodseq: validity.1 }),
            )
            &&& next(
                selecting,
                Event::Answered {
                    uidvalidity: answer.uidvalidity,
                    highestmodseq: answer.highestmodseq,
                },
            ) == Ok::<(State, Action), Error>((selected, Action::Apply))
            &&& next(selected, Event::Applied) == Ok::<(State, Action), Error>(
                (
                    State::Reconciled {
                        uidvalidity: answer.uidvalidity,
                        highestmodseq: answer.highestmodseq,
                    },
                    Action::Record { changed: false },
                ),
            )
        }),
        search(namespace, mailbox, answer.uidvalidity, changed(answer.changes@)) is None,
        search(namespace, mailbox, answer.uidvalidity, covered(answer.vanished@)) is None,
        finished(root, mailbox, separator, validity, answer.uidvalidity, answer.highestmodseq)
            == root,
{
}

} // verus!
