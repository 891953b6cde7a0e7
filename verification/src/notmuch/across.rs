//! What holds of a message that the server holds twice in one mailbox, and of one that went
//! from one mailbox to another.
use vstd::prelude::*;
use crate::error::Error;
use crate::notmuch::laws::{
    accounted, belongs, consistent, forgotten_holds, holds, key, known, lemma_forgotten,
    lemma_forgotten_is_consistent, lemma_key_begins, lemma_keys, lemma_remembered,
    lemma_remembered_is_consistent, lemma_remembered_reads_back, lemma_single, lemma_values,
    listed, remembered_holds, tag_key, uid_key,
};
use crate::notmuch::merge::{lemma_forgotten_keeps, lemma_remembered_tags};
use crate::notmuch::MessageView;
use crate::text;

verus! {

/// Once a message is remembered in a mailbox under an identifier, every other identifier
/// under the same UIDVALIDITY is a duplicate of it there, its own is none, and under another
/// UIDVALIDITY nothing is.
pub proof fn lemma_duplicate_of_remembered(
    message: MessageView,
    mailbox: Seq<char>,
    uidvalidity: u64,
    uid: u64,
    modseq: u64,
    tags: Seq<Seq<char>>,
    again: u64,
    other: u64,
)
    requires
        message.wf(),
    ensures
        message.remembered(mailbox, uidvalidity, uid, modseq, tags).duplicate(
            mailbox,
            uidvalidity,
            other,
        ) == Ok::<bool, Error>(other != uid),
        again != uidvalidity ==> message.remembered(mailbox, uidvalidity, uid, modseq, tags).duplicate(
            mailbox,
            again,
            other,
        ) == Ok::<bool, Error>(false),
{
    let ns = message.namespace;
    let after = message.remembered(mailbox, uidvalidity, uid, modseq, tags);
    lemma_keys(ns, mailbox, mailbox);
    lemma_remembered(message, mailbox, uidvalidity, uid, modseq, tags, (ns, ns));
    lemma_remembered_reads_back(message, mailbox, uidvalidity, uid, modseq, tags);
    assert forall|value: Seq<char>| #[trigger]
        holds(after.inner, (key(ns, mailbox + ".uidvalidity"@), value)) <==> value
            == text::digits_of(uidvalidity as nat) by {
        lemma_remembered(
            message,
            mailbox,
            uidvalidity,
            uid,
            modseq,
            tags,
            (key(ns, mailbox + ".uidvalidity"@), value),
        );
    }
    lemma_single(after.inner, ns, mailbox + ".uidvalidity"@, text::digits_of(uidvalidity as nat));
    text::lemma_number_of_digits(uidvalidity);
}

/// Where the server holds a message twice in one mailbox, the message is remembered there
/// twice, and the second time counts alone: it has the properties that it would have had it
/// been remembered the second time only, and reads under the second identifier.
pub proof fn lemma_remembered_last(
    message: MessageView,
    mailbox: Seq<char>,
    uidvalidity: u64,
    first: (u64, u64, Seq<Seq<char>>),
    second: (u64, u64, Seq<Seq<char>>),
)
    requires
        message.wf(),
    ensures
        forall|pair: (Seq<char>, Seq<char>)|
            holds(
                message.remembered(mailbox, uidvalidity, first.0, first.1, first.2).remembered(
                    mailbox,
                    uidvalidity,
                    second.0,
                    second.1,
                    second.2,
                ).inner,
                pair,
            ) <==> holds(
                message.remembered(mailbox, uidvalidity, second.0, second.1, second.2).inner,
                pair,
            ),
        message.remembered(mailbox, uidvalidity, first.0, first.1, first.2).remembered(
            mailbox,
            uidvalidity,
            second.0,
            second.1,
            second.2,
        ).uid(mailbox) == Ok::<u64, Error>(second.0),
        message.remembered(mailbox, uidvalidity, first.0, first.1, first.2).remembered(
            mailbox,
            uidvalidity,
            second.0,
            second.1,
            second.2,
        ).modseq(mailbox) == Ok::<u64, Error>(second.1),
{
    let ns = message.namespace;
    let once = message.remembered(mailbox, uidvalidity, first.0, first.1, first.2);
    let twice = once.remembered(mailbox, uidvalidity, second.0, second.1, second.2);
    let only = message.remembered(mailbox, uidvalidity, second.0, second.1, second.2);
    lemma_keys(ns, mailbox, mailbox);
    lemma_remembered(message, mailbox, uidvalidity, first.0, first.1, first.2, (ns, ns));
    lemma_remembered_reads_back(once, mailbox, uidvalidity, second.0, second.1, second.2);
    assert forall|pair: (Seq<char>, Seq<char>)| holds(twice.inner, pair) <==> holds(
        only.inner,
        pair,
    ) by {
        lemma_remembered(message, mailbox, uidvalidity, first.0, first.1, first.2, pair);
        lemma_remembered(once, mailbox, uidvalidity, second.0, second.1, second.2, pair);
        lemma_remembered(message, mailbox, uidvalidity, second.0, second.1, second.2, pair);
    }
}

/// A message that went from `source` to `destination` on the server: the engine forgets it
/// in the one and remembers it in the other, in the order in which it comes to the two
/// mailboxes. Either way the properties are consistent, the engine knows the message in
/// `destination`, under the new identifier, and no longer in `source`; of every other
/// mailbox it knows what it knew.
pub proof fn lemma_moved(
    message: MessageView,
    source: Seq<char>,
    destination: Seq<char>,
    uidvalidity: u64,
    uid: u64,
    modseq: u64,
    tags: Seq<Seq<char>>,
)
    requires
        consistent(message),
        source != destination,
    ensures
        ({
            let after = message.forgotten(source).remembered(
                destination,
                uidvalidity,
                uid,
                modseq,
                tags,
            );
            &&& consistent(after)
            &&& after.uid(destination) == Ok::<u64, Error>(uid)
            &&& forall|mailbox: Seq<char>| #[trigger]
                known(after, mailbox) <==> mailbox == destination || (mailbox != source && known(
                    message,
                    mailbox,
                ))
            &&& forall|mailbox: Seq<char>| #[trigger]
                after.mailboxes().contains(mailbox) <==> known(after, mailbox)
        }),
        ({
            let after = message.remembered(destination, uidvalidity, uid, modseq, tags).forgotten(
                source,
            );
            &&& consistent(after)
            &&& after.uid(destination) == Ok::<u64, Error>(uid)
            &&& forall|mailbox: Seq<char>| #[trigger]
                known(after, mailbox) <==> mailbox == destination || (mailbox != source && known(
                    message,
                    mailbox,
                ))
            &&& forall|mailbox: Seq<char>| #[trigger]
                after.mailboxes().contains(mailbox) <==> known(after, mailbox)
        }),
{
    let ns = message.namespace;
    lemma_keys(ns, source, destination);
    lemma_keys(ns, destination, source);
    lemma_keys(ns, destination, destination);
    // Forgotten in the source first.
    let gone = message.forgotten(source);
    lemma_forgotten_is_consistent(message, source);
    lemma_forgotten(message, source, (ns, ns));
    let there = gone.remembered(destination, uidvalidity, uid, modseq, tags);
    lemma_remembered_is_consistent(gone, destination, uidvalidity, uid, modseq, tags);
    lemma_remembered_reads_back(gone, destination, uidvalidity, uid, modseq, tags);
    assert forall|mailbox: Seq<char>| #[trigger]
        known(there, mailbox) <==> mailbox == destination || (mailbox != source && known(
            message,
            mailbox,
        )) by {
        assert(known(gone, mailbox) <==> mailbox != source && known(message, mailbox));
    }
    lemma_named(there);
    // Remembered in the destination first.
    let both = message.remembered(destination, uidvalidity, uid, modseq, tags);
    lemma_remembered_is_consistent(message, destination, uidvalidity, uid, modseq, tags);
    lemma_remembered(message, destination, uidvalidity, uid, modseq, tags, (ns, ns));
    let left_over = both.forgotten(source);
    lemma_forgotten_is_consistent(both, source);
    lemma_forgotten(both, source, (ns, ns));
    assert forall|mailbox: Seq<char>| #[trigger]
        known(left_over, mailbox) <==> mailbox == destination || (mailbox != source && known(
            message,
            mailbox,
        )) by {
        assert(known(both, mailbox) <==> mailbox == destination || known(message, mailbox));
    }
    lemma_named(left_over);
    assert(known(left_over, destination));
    assert(listed(left_over, destination));
    assert forall|value: Seq<char>| #[trigger]
        holds(left_over.inner, (key(ns, destination + ".uid"@), value)) <==> value
            == text::digits_of(uid as nat) by {
        let pair = (uid_key(ns, destination), value);
        lemma_forgotten(both, source, pair);
        lemma_remembered(message, destination, uidvalidity, uid, modseq, tags, pair);
        assert(forgotten_holds(both, source, pair) <==> holds(both.inner, pair));
        assert(remembered_holds(message, destination, uidvalidity, uid, modseq, tags, pair)
            <==> value == text::digits_of(uid as nat));
    }
    lemma_single(left_over.inner, ns, destination + ".uid"@, text::digits_of(uid as nat));
    text::lemma_number_of_digits(uid);
}

/// No tags are cached for a mailbox in which the engine does not know the message.
pub proof fn lemma_unknown_has_no_tags(message: MessageView, mailbox: Seq<char>, tag: Seq<char>)
    requires
        consistent(message),
        !known(message, mailbox),
    ensures
        !message.cached_tags(mailbox).contains(tag),
{
    let ns = message.namespace;
    let pair = (tag_key(ns, mailbox), tag);
    lemma_values(message.inner, ns, mailbox + ".tag"@, tag);
    lemma_key_begins(ns, mailbox + ".tag"@);
    lemma_keys(ns, mailbox, mailbox);
    if holds(message.inner, pair) {
        assert(accounted(message, pair));
        let other = choose|other: Seq<char>| belongs(message, pair, other);
        lemma_keys(ns, other, mailbox);
        lemma_keys(ns, mailbox, other);
        lemma_keys(ns, other, other);
    }
}

/// A message that went from `source` to `destination`, where the engine did not know it,
/// keeps its files, its identifier and its tags, and takes the tags that the server has for
/// it in `destination`, in whichever order the engine comes to the two mailboxes.
pub proof fn lemma_moved_keeps(
    message: MessageView,
    source: Seq<char>,
    destination: Seq<char>,
    uidvalidity: u64,
    uid: u64,
    modseq: u64,
    tags: Seq<Seq<char>>,
    tag: Seq<char>,
)
    requires
        consistent(message),
        source != destination,
        !known(message, destination),
    ensures
        ({
            let after = message.forgotten(source).remembered(
                destination,
                uidvalidity,
                uid,
                modseq,
                tags,
            );
            &&& after.inner.paths == message.inner.paths
            &&& after.inner.id == message.inner.id
            &&& after.inner.tags.contains(tag) <==> message.inner.tags.contains(tag)
                || tags.contains(tag)
        }),
        ({
            let after = message.remembered(destination, uidvalidity, uid, modseq, tags).forgotten(
                source,
            );
            &&& after.inner.paths == message.inner.paths
            &&& after.inner.id == message.inner.id
            &&& after.inner.tags.contains(tag) <==> message.inner.tags.contains(tag)
                || tags.contains(tag)
        }),
{
    let gone = message.forgotten(source);
    lemma_forgotten_is_consistent(message, source);
    lemma_forgotten_keeps(message, source);
    lemma_unknown_has_no_tags(gone, destination, tag);
    lemma_remembered_tags(gone, destination, uidvalidity, uid, modseq, tags, tag);
    let both = message.remembered(destination, uidvalidity, uid, modseq, tags);
    lemma_unknown_has_no_tags(message, destination, tag);
    lemma_remembered_tags(message, destination, uidvalidity, uid, modseq, tags, tag);
    lemma_forgotten_keeps(both, source);
}

/// The mailboxes that a consistent message names are those in which the engine knows it.
pub proof fn lemma_named(message: MessageView)
    requires
        consistent(message),
    ensures
        forall|mailbox: Seq<char>| #[trigger]
            message.mailboxes().contains(mailbox) <==> known(message, mailbox),
{
    assert forall|mailbox: Seq<char>| #[trigger]
        message.mailboxes().contains(mailbox) <==> known(message, mailbox) by {
        lemma_values(message.inner, message.namespace, "mailbox"@, mailbox);
        assert(listed(message, mailbox) <==> known(message, mailbox));
    }
}

} // verus!
