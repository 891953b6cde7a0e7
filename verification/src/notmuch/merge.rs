//! How the tags of a message follow what the server says of it, and what stays of the
//! message the while.
use vstd::prelude::*;
use crate::notmuch::bindings;
use crate::notmuch::laws::{lemma_keys, lemma_replaced, lemma_values, tag_key};
use crate::notmuch::{adopted, replaced, retired, values_of, MessageView, MESSAGE_MARKER};
use crate::text;

verus! {

/// A list holds what its front holds, and its last.
proof fn lemma_front(list: Seq<Seq<char>>, item: Seq<char>)
    requires
        list.len() > 0,
    ensures
        list.contains(list.last()),
        list.contains(item) <==> list.drop_last().contains(item) || item == list.last(),
{
    let front = list.drop_last();
    assert(list[list.len() - 1] == list.last());
    if list.contains(item) {
        let i = choose|i: int| 0 <= i < list.len() && list[i] == item;
        if i < front.len() {
            assert(front[i] == item);
        }
    }
    if front.contains(item) {
        let i = choose|i: int| 0 <= i < front.len() && front[i] == item;
        assert(list[i] == item);
    }
}

/// The tags that `retired` leaves: those that the message had, but for the cached tags that
/// are not among the tags any more. The files and the identifier of the message stay.
pub proof fn lemma_retired_tags(
    message: bindings::MessageView,
    namespace: Seq<char>,
    mailbox: Seq<char>,
    cached: Seq<Seq<char>>,
    tags: Seq<Seq<char>>,
    tag: Seq<char>,
)
    ensures
        retired(message, namespace, mailbox, cached, tags).tags.contains(tag)
            <==> message.tags.contains(tag) && !(cached.contains(tag) && !tags.contains(tag)),
        retired(message, namespace, mailbox, cached, tags).paths == message.paths,
        retired(message, namespace, mailbox, cached, tags).id == message.id,
    decreases cached.len(),
{
    if cached.len() > 0 {
        let before = retired(message, namespace, mailbox, cached.drop_last(), tags);
        lemma_retired_tags(message, namespace, mailbox, cached.drop_last(), tags, tag);
        lemma_front(cached, tag);
        if !tags.contains(cached.last()) {
            let gone = replaced(before, namespace, mailbox + ".tag"@, Some(cached.last()), None);
            lemma_replaced(
                before,
                namespace,
                mailbox + ".tag"@,
                Some(cached.last()),
                None,
                (tag, tag),
            );
            bindings::lemma_kept_contains(gone.tags, bindings::is_other(cached.last()), tag);
        }
    }
}

/// The tags that `adopted` leaves: those that the message had, and the tags that were not
/// cached yet. The files and the identifier of the message stay.
pub proof fn lemma_adopted_tags(
    message: bindings::MessageView,
    namespace: Seq<char>,
    mailbox: Seq<char>,
    tags: Seq<Seq<char>>,
    cached: Seq<Seq<char>>,
    tag: Seq<char>,
)
    ensures
        adopted(message, namespace, mailbox, tags, cached).tags.contains(tag)
            <==> message.tags.contains(tag) || (tags.contains(tag) && !cached.contains(tag)),
        adopted(message, namespace, mailbox, tags, cached).paths == message.paths,
        adopted(message, namespace, mailbox, tags, cached).id == message.id,
    decreases tags.len(),
{
    if tags.len() > 0 {
        let before = adopted(message, namespace, mailbox, tags.drop_last(), cached);
        lemma_adopted_tags(message, namespace, mailbox, tags.drop_last(), cached, tag);
        lemma_front(tags, tag);
        if !cached.contains(tags.last()) {
            let added = replaced(
                before,
                namespace,
                mailbox + ".tag"@,
                Some(tags.last()),
                Some(tags.last()),
            );
            lemma_replaced(
                before,
                namespace,
                mailbox + ".tag"@,
                Some(tags.last()),
                Some(tags.last()),
                (tag, tag),
            );
            bindings::lemma_with_contains(added.tags, tags.last(), tag);
        }
    }
}

/// The tags of a message follow the server where the server changed its mind, and the
/// message where the server did not. Once a message is remembered in a mailbox with the
/// tags that the server has for it, a tag is on the message where it was on it and the
/// server did not drop it, or where the server added it; the server dropped a tag that is
/// cached for the mailbox and not among its tags, and added one that is among its tags and
/// not cached. The files and the identifier of the message stay.
pub proof fn lemma_remembered_tags(
    message: MessageView,
    mailbox: Seq<char>,
    uidvalidity: u64,
    uid: u64,
    modseq: u64,
    tags: Seq<Seq<char>>,
    tag: Seq<char>,
)
    requires
        message.wf(),
    ensures
        ({
            let after = message.remembered(mailbox, uidvalidity, uid, modseq, tags);
            let cached = message.cached_tags(mailbox);
            let dropped = cached.contains(tag) && !tags.contains(tag);
            let added = tags.contains(tag) && !cached.contains(tag);
            &&& after.inner.tags.contains(tag) <==> (message.inner.tags.contains(tag) && !dropped)
                || added
            &&& after.inner.paths == message.inner.paths
            &&& after.inner.id == message.inner.id
        }),
{
    let ns = message.namespace;
    let pair = (tag_key(ns, mailbox), tag);
    let a = replaced(message.inner, ns, "marker"@, None, Some(MESSAGE_MARKER@));
    let b = replaced(a, ns, "mailbox"@, Some(mailbox), Some(mailbox));
    let c = replaced(
        b,
        ns,
        mailbox + ".uidvalidity"@,
        None,
        Some(text::digits_of(uidvalidity as nat)),
    );
    let d = replaced(c, ns, mailbox + ".uid"@, None, Some(text::digits_of(uid as nat)));
    let e = replaced(d, ns, mailbox + ".modseq"@, None, Some(text::digits_of(modseq as nat)));
    let cached = values_of(e, ns, mailbox + ".tag"@);
    let f = retired(e, ns, mailbox, cached, tags);
    lemma_keys(ns, mailbox, mailbox);
    lemma_replaced(message.inner, ns, "marker"@, None, Some(MESSAGE_MARKER@), pair);
    lemma_replaced(a, ns, "mailbox"@, Some(mailbox), Some(mailbox), pair);
    lemma_replaced(
        b,
        ns,
        mailbox + ".uidvalidity"@,
        None,
        Some(text::digits_of(uidvalidity as nat)),
        pair,
    );
    lemma_replaced(c, ns, mailbox + ".uid"@, None, Some(text::digits_of(uid as nat)), pair);
    lemma_replaced(d, ns, mailbox + ".modseq"@, None, Some(text::digits_of(modseq as nat)), pair);
    lemma_values(e, ns, mailbox + ".tag"@, tag);
    lemma_values(message.inner, ns, mailbox + ".tag"@, tag);
    assert(cached.contains(tag) <==> message.cached_tags(mailbox).contains(tag));
    lemma_retired_tags(e, ns, mailbox, cached, tags, tag);
    lemma_adopted_tags(f, ns, mailbox, tags, cached, tag);
}

/// Forgetting a message in a mailbox leaves its tags, its files and its identifier.
pub proof fn lemma_forgotten_keeps(message: MessageView, mailbox: Seq<char>)
    ensures
        message.forgotten(mailbox).inner.tags == message.inner.tags,
        message.forgotten(mailbox).inner.paths == message.inner.paths,
        message.forgotten(mailbox).inner.id == message.inner.id,
{
    let ns = message.namespace;
    let a = replaced(message.inner, ns, "mailbox"@, Some(mailbox), None);
    let b = replaced(a, ns, mailbox + ".uidvalidity"@, None, None);
    let c = replaced(b, ns, mailbox + ".uid"@, None, None);
    let d = replaced(c, ns, mailbox + ".modseq"@, None, None);
    let e = replaced(d, ns, mailbox + ".tag"@, None, None);
    let pair = (ns, ns);
    lemma_replaced(message.inner, ns, "mailbox"@, Some(mailbox), None, pair);
    lemma_replaced(a, ns, mailbox + ".uidvalidity"@, None, None, pair);
    lemma_replaced(b, ns, mailbox + ".uid"@, None, None, pair);
    lemma_replaced(c, ns, mailbox + ".modseq"@, None, None, pair);
    lemma_replaced(d, ns, mailbox + ".tag"@, None, None, pair);
    lemma_replaced(e, ns, "marker"@, None, None, pair);
}

} // verus!
