//! What holds of the properties that the engine keeps on a message, whatever it is asked to
//! remember and to forget.
use vstd::prelude::*;
use crate::notmuch::bindings;
use crate::notmuch::bindings::{begins, except, kept, under_prefix, with, without_pair};
use crate::notmuch::root::RootView;
use crate::notmuch::{adopted, dotted, replaced, retired, values_of, MessageView, MESSAGE_MARKER};
use crate::text;

verus! {

/// The key of the property `name` of the engine under `namespace`.
pub open spec fn key(namespace: Seq<char>, name: Seq<char>) -> Seq<char> {
    dotted(namespace, name)
}

/// The message has the property `pair`.
pub open spec fn holds(message: bindings::MessageView, pair: (Seq<char>, Seq<char>)) -> bool {
    message.properties.contains(pair)
}

/// The message has a property under `key`.
pub open spec fn has_key(message: bindings::MessageView, key: Seq<char>) -> bool {
    exists|value: Seq<char>| holds(message, (key, value))
}

/// Two keys of one namespace are the same for the same name only.
pub proof fn lemma_key_injective(namespace: Seq<char>, a: Seq<char>, b: Seq<char>)
    requires
        key(namespace, a) == key(namespace, b),
    ensures
        a == b,
{
    let prefix = namespace + "."@;
    assert(key(namespace, a) == prefix + a);
    assert(key(namespace, b) == prefix + b);
    assert((prefix + a).len() == prefix.len() + a.len());
    assert((prefix + b).len() == prefix.len() + b.len());
    assert forall|i: int| 0 <= i < a.len() implies a[i] == b[i] by {
        assert((prefix + a)[prefix.len() + i] == a[i]);
        assert((prefix + b)[prefix.len() + i] == b[i]);
    }
    assert(a =~= b);
}

/// Two names with one ending are the same for the same mailbox only.
pub proof fn lemma_suffix_injective(a: Seq<char>, b: Seq<char>, suffix: Seq<char>)
    requires
        a + suffix == b + suffix,
    ensures
        a == b,
{
    assert((a + suffix).len() == a.len() + suffix.len());
    assert((b + suffix).len() == b.len() + suffix.len());
    assert forall|i: int| 0 <= i < a.len() implies a[i] == b[i] by {
        assert((a + suffix)[i] == a[i]);
        assert((b + suffix)[i] == b[i]);
    }
    assert(a =~= b);
}

/// Every key of the engine begins with its namespace and a dot.
pub proof fn lemma_key_begins(namespace: Seq<char>, name: Seq<char>)
    ensures
        begins(key(namespace, name), namespace + "."@),
{
    let prefix = namespace + "."@;
    assert(key(namespace, name) == prefix + name);
    assert((prefix + name).subrange(0, prefix.len() as int) =~= prefix);
}

/// The last character of a name that ends with `suffix`.
pub proof fn lemma_last_of(a: Seq<char>, suffix: Seq<char>)
    requires
        suffix.len() > 0,
    ensures
        (a + suffix).len() > 0,
        (a + suffix).last() == suffix.last(),
{
}

/// What `replaced` leaves: the new value, and what the message had but for what was to go.
pub proof fn lemma_replaced(
    message: bindings::MessageView,
    namespace: Seq<char>,
    name: Seq<char>,
    old: Option<Seq<char>>,
    new: Option<Seq<char>>,
    pair: (Seq<char>, Seq<char>),
)
    ensures
        holds(replaced(message, namespace, name, old, new), pair) <==> (new is Some && pair == (
            key(namespace, name),
            new->0,
        )) || (holds(message, pair) && match old {
            Some(value) => pair != (key(namespace, name), value),
            None => pair.0 != key(namespace, name),
        }),
        replaced(message, namespace, name, old, new).tags == message.tags,
        replaced(message, namespace, name, old, new).id == message.id,
        replaced(message, namespace, name, old, new).paths == message.paths,
{
    let k = key(namespace, name);
    let removed = match old {
        Some(value) => message.without_property(k, value),
        None => message.without_properties(k),
    };
    match old {
        Some(value) => {
            bindings::lemma_kept_contains(
                message.properties,
                bindings::is_other_pair(k, value),
                pair,
            );
        },
        None => {
            bindings::lemma_kept_contains(message.properties, bindings::is_off(k), pair);
        },
    }
    match new {
        Some(value) => {
            bindings::lemma_with_contains(removed.properties, (k, value), pair);
        },
        None => {},
    }
}

/// `replaced` keeps a message well formed.
pub proof fn lemma_replaced_wf(
    message: bindings::MessageView,
    namespace: Seq<char>,
    name: Seq<char>,
    old: Option<Seq<char>>,
    new: Option<Seq<char>>,
)
    requires
        message.wf(),
    ensures
        replaced(message, namespace, name, old, new).wf(),
{
    let k = key(namespace, name);
    match old {
        Some(value) => {
            bindings::lemma_kept_distinct(message.properties, bindings::is_other_pair(k, value));
        },
        None => {
            bindings::lemma_kept_distinct(message.properties, bindings::is_off(k));
        },
    }
    let removed = match old {
        Some(value) => message.without_property(k, value),
        None => message.without_properties(k),
    };
    match new {
        Some(value) => {
            if !removed.properties.contains((k, value)) {
                let after = removed.properties.push((k, value));
                assert forall|i: int, j: int| 0 <= i < j < after.len() implies after[i]
                    != after[j] by {
                    if j == removed.properties.len() {
                        assert(removed.properties[i] == after[i]);
                    }
                }
            }
        },
        None => {},
    }
}


/// The keys under which the engine keeps what it knows of a message in a mailbox.
pub open spec fn uid_key(namespace: Seq<char>, mailbox: Seq<char>) -> Seq<char> {
    key(namespace, mailbox + ".uid"@)
}

/// The key of the UIDVALIDITY under which the message is known in `mailbox`.
pub open spec fn uidvalidity_key(namespace: Seq<char>, mailbox: Seq<char>) -> Seq<char> {
    key(namespace, mailbox + ".uidvalidity"@)
}

/// The key of the mod-sequence of the message in `mailbox`.
pub open spec fn modseq_key(namespace: Seq<char>, mailbox: Seq<char>) -> Seq<char> {
    key(namespace, mailbox + ".modseq"@)
}

/// The key of the cached tags of `mailbox`.
pub open spec fn tag_key(namespace: Seq<char>, mailbox: Seq<char>) -> Seq<char> {
    key(namespace, mailbox + ".tag"@)
}

/// The key of the marker.
pub open spec fn marker_key(namespace: Seq<char>) -> Seq<char> {
    key(namespace, "marker"@)
}

/// The key under which the mailboxes of the message are named.
pub open spec fn mailbox_key(namespace: Seq<char>) -> Seq<char> {
    key(namespace, "mailbox"@)
}

/// `key` is one of the four keys of `mailbox`.
pub open spec fn is_of(namespace: Seq<char>, mailbox: Seq<char>, key: Seq<char>) -> bool {
    key == uid_key(namespace, mailbox) || key == uidvalidity_key(namespace, mailbox) || key
        == modseq_key(namespace, mailbox) || key == tag_key(namespace, mailbox)
}

/// No key of the engine is taken for another: the marker, the mailboxes and the four keys of
/// a mailbox differ, and so do the keys of two mailboxes.
pub proof fn lemma_keys(namespace: Seq<char>, x: Seq<char>, y: Seq<char>)
    ensures
        marker_key(namespace) != mailbox_key(namespace),
        !is_of(namespace, x, marker_key(namespace)),
        !is_of(namespace, x, mailbox_key(namespace)),
        uid_key(namespace, x) != uidvalidity_key(namespace, y),
        uid_key(namespace, x) != modseq_key(namespace, y),
        uid_key(namespace, x) != tag_key(namespace, y),
        uidvalidity_key(namespace, x) != modseq_key(namespace, y),
        uidvalidity_key(namespace, x) != tag_key(namespace, y),
        modseq_key(namespace, x) != tag_key(namespace, y),
        uid_key(namespace, x) == uid_key(namespace, y) ==> x == y,
        uidvalidity_key(namespace, x) == uidvalidity_key(namespace, y) ==> x == y,
        modseq_key(namespace, x) == modseq_key(namespace, y) ==> x == y,
        tag_key(namespace, x) == tag_key(namespace, y) ==> x == y,
{
    reveal_strlit(".uid");
    reveal_strlit(".uidvalidity");
    reveal_strlit(".modseq");
    reveal_strlit(".tag");
    reveal_strlit("marker");
    reveal_strlit("mailbox");
    lemma_last_of(x, ".uid"@);
    lemma_last_of(x, ".uidvalidity"@);
    lemma_last_of(x, ".modseq"@);
    lemma_last_of(x, ".tag"@);
    lemma_last_of(y, ".uid"@);
    lemma_last_of(y, ".uidvalidity"@);
    lemma_last_of(y, ".modseq"@);
    lemma_last_of(y, ".tag"@);
    assert(".uid"@.last() == 'd' && ".uidvalidity"@.last() == 'y' && ".modseq"@.last() == 'q'
        && ".tag"@.last() == 'g' && "marker"@.last() == 'r' && "mailbox"@.last() == 'x');
    if marker_key(namespace) == mailbox_key(namespace) {
        lemma_key_injective(namespace, "marker"@, "mailbox"@);
    }
    if is_of(namespace, x, marker_key(namespace)) {
        if marker_key(namespace) == uid_key(namespace, x) {
            lemma_key_injective(namespace, "marker"@, x + ".uid"@);
        } else if marker_key(namespace) == uidvalidity_key(namespace, x) {
            lemma_key_injective(namespace, "marker"@, x + ".uidvalidity"@);
        } else if marker_key(namespace) == modseq_key(namespace, x) {
            lemma_key_injective(namespace, "marker"@, x + ".modseq"@);
        } else {
            lemma_key_injective(namespace, "marker"@, x + ".tag"@);
        }
    }
    if is_of(namespace, x, mailbox_key(namespace)) {
        if mailbox_key(namespace) == uid_key(namespace, x) {
            lemma_key_injective(namespace, "mailbox"@, x + ".uid"@);
        } else if mailbox_key(namespace) == uidvalidity_key(namespace, x) {
            lemma_key_injective(namespace, "mailbox"@, x + ".uidvalidity"@);
        } else if mailbox_key(namespace) == modseq_key(namespace, x) {
            lemma_key_injective(namespace, "mailbox"@, x + ".modseq"@);
        } else {
            lemma_key_injective(namespace, "mailbox"@, x + ".tag"@);
        }
    }
    if uid_key(namespace, x) == uidvalidity_key(namespace, y) {
        lemma_key_injective(namespace, x + ".uid"@, y + ".uidvalidity"@);
    }
    if uid_key(namespace, x) == modseq_key(namespace, y) {
        lemma_key_injective(namespace, x + ".uid"@, y + ".modseq"@);
    }
    if uid_key(namespace, x) == tag_key(namespace, y) {
        lemma_key_injective(namespace, x + ".uid"@, y + ".tag"@);
    }
    if uidvalidity_key(namespace, x) == modseq_key(namespace, y) {
        lemma_key_injective(namespace, x + ".uidvalidity"@, y + ".modseq"@);
    }
    if uidvalidity_key(namespace, x) == tag_key(namespace, y) {
        lemma_key_injective(namespace, x + ".uidvalidity"@, y + ".tag"@);
    }
    if modseq_key(namespace, x) == tag_key(namespace, y) {
        lemma_key_injective(namespace, x + ".modseq"@, y + ".tag"@);
    }
    if uid_key(namespace, x) == uid_key(namespace, y) {
        lemma_key_injective(namespace, x + ".uid"@, y + ".uid"@);
        lemma_suffix_injective(x, y, ".uid"@);
    }
    if uidvalidity_key(namespace, x) == uidvalidity_key(namespace, y) {
        lemma_key_injective(namespace, x + ".uidvalidity"@, y + ".uidvalidity"@);
        lemma_suffix_injective(x, y, ".uidvalidity"@);
    }
    if modseq_key(namespace, x) == modseq_key(namespace, y) {
        lemma_key_injective(namespace, x + ".modseq"@, y + ".modseq"@);
        lemma_suffix_injective(x, y, ".modseq"@);
    }
    if tag_key(namespace, x) == tag_key(namespace, y) {
        lemma_key_injective(namespace, x + ".tag"@, y + ".tag"@);
        lemma_suffix_injective(x, y, ".tag"@);
    }
}

/// What `retired` leaves: what the message had, but for the cached tags that are not among
/// the tags any more.
pub proof fn lemma_retired(
    message: bindings::MessageView,
    namespace: Seq<char>,
    mailbox: Seq<char>,
    cached: Seq<Seq<char>>,
    tags: Seq<Seq<char>>,
    pair: (Seq<char>, Seq<char>),
)
    requires
        message.wf(),
    ensures
        retired(message, namespace, mailbox, cached, tags).wf(),
        holds(retired(message, namespace, mailbox, cached, tags), pair) <==> holds(message, pair)
            && !(pair.0 == tag_key(namespace, mailbox) && cached.contains(pair.1) && !tags.contains(
            pair.1,
        )),
    decreases cached.len(),
{
    if cached.len() > 0 {
        let front = cached.drop_last();
        let before = retired(message, namespace, mailbox, front, tags);
        lemma_retired(message, namespace, mailbox, front, tags, pair);
        assert(cached.contains(cached.last())) by {
            assert(cached[cached.len() - 1] == cached.last());
        }
        assert(cached.contains(pair.1) <==> front.contains(pair.1) || pair.1 == cached.last()) by {
            if cached.contains(pair.1) {
                let i = choose|i: int| 0 <= i < cached.len() && cached[i] == pair.1;
                if i < front.len() {
                    assert(front[i] == pair.1);
                }
            }
            if front.contains(pair.1) {
                let i = choose|i: int| 0 <= i < front.len() && front[i] == pair.1;
                assert(cached[i] == pair.1);
            }
        }
        if !tags.contains(cached.last()) {
            let gone = replaced(before, namespace, mailbox + ".tag"@, Some(cached.last()), None);
            lemma_replaced(before, namespace, mailbox + ".tag"@, Some(cached.last()), None, pair);
            lemma_replaced_wf(before, namespace, mailbox + ".tag"@, Some(cached.last()), None);
            bindings::lemma_kept_distinct(gone.tags, bindings::is_other(cached.last()));
        }
    }
}

/// What `adopted` leaves: what the message had, and the tags that were not cached yet.
pub proof fn lemma_adopted(
    message: bindings::MessageView,
    namespace: Seq<char>,
    mailbox: Seq<char>,
    tags: Seq<Seq<char>>,
    cached: Seq<Seq<char>>,
    pair: (Seq<char>, Seq<char>),
)
    requires
        message.wf(),
    ensures
        adopted(message, namespace, mailbox, tags, cached).wf(),
        holds(adopted(message, namespace, mailbox, tags, cached), pair) <==> holds(message, pair)
            || (pair.0 == tag_key(namespace, mailbox) && tags.contains(pair.1) && !cached.contains(
            pair.1,
        )),
    decreases tags.len(),
{
    if tags.len() > 0 {
        let front = tags.drop_last();
        let before = adopted(message, namespace, mailbox, front, cached);
        lemma_adopted(message, namespace, mailbox, front, cached, pair);
        assert(tags.contains(tags.last())) by {
            assert(tags[tags.len() - 1] == tags.last());
        }
        assert(tags.contains(pair.1) <==> front.contains(pair.1) || pair.1 == tags.last()) by {
            if tags.contains(pair.1) {
                let i = choose|i: int| 0 <= i < tags.len() && tags[i] == pair.1;
                if i < front.len() {
                    assert(front[i] == pair.1);
                }
            }
            if front.contains(pair.1) {
                let i = choose|i: int| 0 <= i < front.len() && front[i] == pair.1;
                assert(tags[i] == pair.1);
            }
        }
        if !cached.contains(tags.last()) {
            let added = replaced(
                before,
                namespace,
                mailbox + ".tag"@,
                Some(tags.last()),
                Some(tags.last()),
            );
            lemma_replaced(
                before,
                namespace,
                mailbox + ".tag"@,
                Some(tags.last()),
                Some(tags.last()),
                pair,
            );
            lemma_replaced_wf(
                before,
                namespace,
                mailbox + ".tag"@,
                Some(tags.last()),
                Some(tags.last()),
            );
            if !added.tags.contains(tags.last()) {
                let after = added.tags.push(tags.last());
                assert forall|i: int, j: int| 0 <= i < j < after.len() implies after[i]
                    != after[j] by {
                    if j == added.tags.len() {
                        assert(added.tags[i] == after[i]);
                    }
                }
            }
        }
    }
}

/// The values of a property are the values of the pairs that the message has under its key.
pub proof fn lemma_values(
    message: bindings::MessageView,
    namespace: Seq<char>,
    name: Seq<char>,
    value: Seq<char>,
)
    ensures
        values_of(message, namespace, name).contains(value) <==> holds(
            message,
            (key(namespace, name), value),
        ),
{
    let k = key(namespace, name);
    let found = bindings::under(message.properties, k);
    let all = values_of(message, namespace, name);
    bindings::lemma_kept_contains(message.properties, bindings::is_under(k), (k, value));
    if all.contains(value) {
        let i = choose|i: int| 0 <= i < all.len() && all[i] == value;
        bindings::lemma_kept_contains(message.properties, bindings::is_under(k), found[i]);
        assert(found.contains(found[i]));
        assert(found[i] == (k, value));
    }
    if found.contains((k, value)) {
        let i = choose|i: int| 0 <= i < found.len() && found[i] == (k, value);
        assert(all[i] == value);
    }
}


/// What a message holds once it is remembered in `mailbox`: the marker, the mailbox, the
/// three numbers, the tags as cached tags, and what it held under other keys.
pub open spec fn remembered_holds(
    message: MessageView,
    mailbox: Seq<char>,
    uidvalidity: u64,
    uid: u64,
    modseq: u64,
    tags: Seq<Seq<char>>,
    pair: (Seq<char>, Seq<char>),
) -> bool {
    let ns = message.namespace;
    ||| pair == (marker_key(ns), MESSAGE_MARKER@)
    ||| pair == (mailbox_key(ns), mailbox)
    ||| pair == (uidvalidity_key(ns, mailbox), text::digits_of(uidvalidity as nat))
    ||| pair == (uid_key(ns, mailbox), text::digits_of(uid as nat))
    ||| pair == (modseq_key(ns, mailbox), text::digits_of(modseq as nat))
    ||| pair.0 == tag_key(ns, mailbox) && tags.contains(pair.1)
    ||| holds(message.inner, pair) && pair.0 != marker_key(ns) && pair != (mailbox_key(ns), mailbox)
        && !is_of(ns, mailbox, pair.0)
}

/// What `remembered` leaves.
pub proof fn lemma_remembered(
    message: MessageView,
    mailbox: Seq<char>,
    uidvalidity: u64,
    uid: u64,
    modseq: u64,
    tags: Seq<Seq<char>>,
    pair: (Seq<char>, Seq<char>),
)
    requires
        message.wf(),
    ensures
        message.remembered(mailbox, uidvalidity, uid, modseq, tags).wf(),
        message.remembered(mailbox, uidvalidity, uid, modseq, tags).namespace == message.namespace,
        holds(message.remembered(mailbox, uidvalidity, uid, modseq, tags).inner, pair)
            <==> remembered_holds(message, mailbox, uidvalidity, uid, modseq, tags, pair),
{
    let ns = message.namespace;
    let a = replaced(message.inner, ns, "marker"@, None, Some(MESSAGE_MARKER@));
    let b = replaced(a, ns, "mailbox"@, Some(mailbox), Some(mailbox));
    let c = replaced(
        b,
        ns,
        mailbox + ".uidvalidity"@,
        None,
        Some(text::digits_of(uidvalidity as nat)),
    );
    let d = replaced(c, ns, mailbox + ".uid"@, None, Some(text::digits_of(uid as nat)));
    let e = replaced(d, ns, mailbox + ".modseq"@, None, Some(text::digits_of(modseq as nat)));
    let cached = values_of(e, ns, mailbox + ".tag"@);
    let f = retired(e, ns, mailbox, cached, tags);
    lemma_keys(ns, mailbox, mailbox);
    lemma_replaced(message.inner, ns, "marker"@, None, Some(MESSAGE_MARKER@), pair);
    lemma_replaced_wf(message.inner, ns, "marker"@, None, Some(MESSAGE_MARKER@));
    lemma_replaced(a, ns, "mailbox"@, Some(mailbox), Some(mailbox), pair);
    lemma_replaced_wf(a, ns, "mailbox"@, Some(mailbox), Some(mailbox));
    lemma_replaced(
        b,
        ns,
        mailbox + ".uidvalidity"@,
        None,
        Some(text::digits_of(uidvalidity as nat)),
        pair,
    );
    lemma_replaced_wf(
        b,
        ns,
        mailbox + ".uidvalidity"@,
        None,
        Some(text::digits_of(uidvalidity as nat)),
    );
    lemma_replaced(c, ns, mailbox + ".uid"@, None, Some(text::digits_of(uid as nat)), pair);
    lemma_replaced_wf(c, ns, mailbox + ".uid"@, None, Some(text::digits_of(uid as nat)));
    lemma_replaced(d, ns, mailbox + ".modseq"@, None, Some(text::digits_of(modseq as nat)), pair);
    lemma_replaced_wf(d, ns, mailbox + ".modseq"@, None, Some(text::digits_of(modseq as nat)));
    lemma_values(e, ns, mailbox + ".tag"@, pair.1);
    lemma_retired(e, ns, mailbox, cached, tags, pair);
    lemma_adopted(f, ns, mailbox, tags, cached, pair);
}

/// What a message holds once it is forgotten in `mailbox`, before the marker is looked at:
/// what it held, but for the mailbox and what stood under its four keys.
pub open spec fn forgotten_holds(
    message: MessageView,
    mailbox: Seq<char>,
    pair: (Seq<char>, Seq<char>),
) -> bool {
    holds(message.inner, pair) && pair != (mailbox_key(message.namespace), mailbox) && !is_of(
        message.namespace,
        mailbox,
        pair.0,
    )
}

/// The message once `mailbox` and what stood under its four keys are off it.
pub open spec fn stripped(message: MessageView, mailbox: Seq<char>) -> bindings::MessageView {
    let ns = message.namespace;
    let a = replaced(message.inner, ns, "mailbox"@, Some(mailbox), None);
    let b = replaced(a, ns, mailbox + ".uidvalidity"@, None, None);
    let c = replaced(b, ns, mailbox + ".uid"@, None, None);
    let d = replaced(c, ns, mailbox + ".modseq"@, None, None);
    replaced(d, ns, mailbox + ".tag"@, None, None)
}

/// The number of properties that are left under the namespace once `mailbox` is stripped.
pub open spec fn left(message: MessageView, mailbox: Seq<char>) -> nat {
    under_prefix(stripped(message, mailbox).properties, message.namespace + "."@).len()
}

/// What `forgotten` leaves.
pub proof fn lemma_forgotten(message: MessageView, mailbox: Seq<char>, pair: (Seq<char>, Seq<char>))
    requires
        message.wf(),
    ensures
        message.forgotten(mailbox).wf(),
        message.forgotten(mailbox).namespace == message.namespace,
        stripped(message, mailbox).wf(),
        holds(stripped(message, mailbox), pair) <==> forgotten_holds(message, mailbox, pair),
        holds(message.forgotten(mailbox).inner, pair) <==> forgotten_holds(message, mailbox, pair)
            && !(left(message, mailbox) == 1 && pair.0 == marker_key(message.namespace)),
{
    let ns = message.namespace;
    let a = replaced(message.inner, ns, "mailbox"@, Some(mailbox), None);
    let b = replaced(a, ns, mailbox + ".uidvalidity"@, None, None);
    let c = replaced(b, ns, mailbox + ".uid"@, None, None);
    let d = replaced(c, ns, mailbox + ".modseq"@, None, None);
    let e = replaced(d, ns, mailbox + ".tag"@, None, None);
    lemma_keys(ns, mailbox, mailbox);
    lemma_replaced(message.inner, ns, "mailbox"@, Some(mailbox), None, pair);
    lemma_replaced_wf(message.inner, ns, "mailbox"@, Some(mailbox), None);
    lemma_replaced(a, ns, mailbox + ".uidvalidity"@, None, None, pair);
    lemma_replaced_wf(a, ns, mailbox + ".uidvalidity"@, None, None);
    lemma_replaced(b, ns, mailbox + ".uid"@, None, None, pair);
    lemma_replaced_wf(b, ns, mailbox + ".uid"@, None, None);
    lemma_replaced(c, ns, mailbox + ".modseq"@, None, None, pair);
    lemma_replaced_wf(c, ns, mailbox + ".modseq"@, None, None);
    lemma_replaced(d, ns, mailbox + ".tag"@, None, None, pair);
    lemma_replaced_wf(d, ns, mailbox + ".tag"@, None, None);
    lemma_replaced(e, ns, "marker"@, None, None, pair);
    lemma_replaced_wf(e, ns, "marker"@, None, None);
}

/// Two different elements that are kept make a list of two or more.
pub proof fn lemma_kept_two<T>(list: Seq<T>, keep: spec_fn(T) -> bool, a: T, b: T)
    requires
        list.contains(a),
        list.contains(b),
        keep(a),
        keep(b),
        a != b,
    ensures
        kept(list, keep).len() >= 2,
{
    bindings::lemma_kept_contains(list, keep, a);
    bindings::lemma_kept_contains(list, keep, b);
    let found = kept(list, keep);
    let i = choose|i: int| 0 <= i < found.len() && found[i] == a;
    let j = choose|j: int| 0 <= j < found.len() && found[j] == b;
    assert(i != j);
}

/// Where one element only is kept of a list in which nothing stands twice, one is left.
pub proof fn lemma_kept_one<T>(list: Seq<T>, keep: spec_fn(T) -> bool, only: T)
    requires
        forall|i: int, j: int| 0 <= i < j < list.len() ==> list[i] != list[j],
        list.contains(only),
        keep(only),
        forall|other: T| list.contains(other) && keep(other) ==> other == only,
    ensures
        kept(list, keep).len() == 1,
{
    let found = kept(list, keep);
    bindings::lemma_kept_contains(list, keep, only);
    bindings::lemma_kept_distinct(list, keep);
    if found.len() >= 2 {
        bindings::lemma_kept_contains(list, keep, found[0]);
        bindings::lemma_kept_contains(list, keep, found[1]);
        assert(found.contains(found[0]));
        assert(found.contains(found[1]));
    }
}

/// The engine knows the message in `mailbox`: it has an identifier for it there.
pub open spec fn known(message: MessageView, mailbox: Seq<char>) -> bool {
    has_key(message.inner, uid_key(message.namespace, mailbox))
}

/// The message carries the property that names `mailbox`.
pub open spec fn listed(message: MessageView, mailbox: Seq<char>) -> bool {
    holds(message.inner, (mailbox_key(message.namespace), mailbox))
}

/// The message carries the marker of the engine.
pub open spec fn marked(message: MessageView) -> bool {
    holds(message.inner, (marker_key(message.namespace), MESSAGE_MARKER@))
}

/// `pair` is the property that names `mailbox` or stands under one of its four keys, and
/// the engine knows the message there.
pub open spec fn belongs(message: MessageView, pair: (Seq<char>, Seq<char>), mailbox: Seq<char>) -> bool {
    known(message, mailbox) && (pair == (mailbox_key(message.namespace), mailbox) || is_of(
        message.namespace,
        mailbox,
        pair.0,
    ))
}

/// `pair` is the marker, or belongs to a mailbox in which the engine knows the message.
pub open spec fn accounted(message: MessageView, pair: (Seq<char>, Seq<char>)) -> bool {
    pair == (marker_key(message.namespace), MESSAGE_MARKER@) || exists|mailbox: Seq<char>|
        belongs(message, pair, mailbox)
}

/// The properties of the engine on a message hang together: every mailbox in which the
/// message is known is named on it, every mailbox named on it is one in which it is known,
/// the marker is there where it is known anywhere and nowhere else, and nothing else stands
/// under the namespace of the engine.
pub open spec fn consistent(message: MessageView) -> bool {
    &&& message.wf()
    &&& forall|mailbox: Seq<char>| #[trigger]
        known(message, mailbox) ==> listed(message, mailbox) && marked(message)
    &&& forall|mailbox: Seq<char>| #[trigger] listed(message, mailbox) ==> known(message, mailbox)
    &&& marked(message) ==> exists|mailbox: Seq<char>| known(message, mailbox)
    &&& forall|pair: (Seq<char>, Seq<char>)| #[trigger]
        holds(message.inner, pair) && begins(pair.0, message.namespace + "."@) ==> accounted(
            message,
            pair,
        )
}

/// A message on which nothing stands under the namespace of the engine is consistent.
pub proof fn lemma_untouched_is_consistent(message: MessageView)
    requires
        message.wf(),
        forall|pair: (Seq<char>, Seq<char>)| #[trigger]
            holds(message.inner, pair) ==> !begins(pair.0, message.namespace + "."@),
    ensures
        consistent(message),
{
    let ns = message.namespace;
    assert forall|mailbox: Seq<char>| !#[trigger] known(message, mailbox) by {
        if known(message, mailbox) {
            let value = choose|value: Seq<char>| holds(message.inner, (uid_key(ns, mailbox), value));
            lemma_key_begins(ns, mailbox + ".uid"@);
            assert(holds(message.inner, (uid_key(ns, mailbox), value)));
        }
    }
    assert forall|mailbox: Seq<char>| !#[trigger] listed(message, mailbox) by {
        lemma_key_begins(ns, "mailbox"@);
    }
    lemma_key_begins(ns, "marker"@);
}

/// Where a message is consistent, the marker and the name of a mailbox are on it wherever
/// it is known in the mailbox, and both kinds are absent from it where it is known nowhere,
/// and there only.
pub proof fn lemma_consistent_marks(message: MessageView)
    requires
        consistent(message),
    ensures
        forall|mailbox: Seq<char>| #[trigger]
            known(message, mailbox) ==> listed(message, mailbox) && marked(message),
        (forall|mailbox: Seq<char>| !#[trigger] known(message, mailbox)) <==> !marked(message) && (
        forall|mailbox: Seq<char>| !#[trigger] listed(message, mailbox)),
{
    if !marked(message) && (forall|mailbox: Seq<char>| !#[trigger] listed(message, mailbox)) {
        assert forall|mailbox: Seq<char>| !#[trigger] known(message, mailbox) by {
            if known(message, mailbox) {
                assert(listed(message, mailbox));
            }
        }
    }
    if forall|mailbox: Seq<char>| !#[trigger] known(message, mailbox) {
        assert forall|mailbox: Seq<char>| !#[trigger] listed(message, mailbox) by {
            if listed(message, mailbox) {
                assert(known(message, mailbox));
            }
        }
    }
}


/// Remembering a message in a mailbox keeps its properties consistent, and the engine then
/// knows the message there, and in every other mailbox in which it knew the message, and in
/// no other.
pub proof fn lemma_remembered_is_consistent(
    message: MessageView,
    mailbox: Seq<char>,
    uidvalidity: u64,
    uid: u64,
    modseq: u64,
    tags: Seq<Seq<char>>,
)
    requires
        consistent(message),
    ensures
        consistent(message.remembered(mailbox, uidvalidity, uid, modseq, tags)),
        known(message.remembered(mailbox, uidvalidity, uid, modseq, tags), mailbox),
        forall|other: Seq<char>| #[trigger]
            known(message.remembered(mailbox, uidvalidity, uid, modseq, tags), other) <==> other
                == mailbox || known(message, other),
{
    let ns = message.namespace;
    let after = message.remembered(mailbox, uidvalidity, uid, modseq, tags);
    lemma_remembered(message, mailbox, uidvalidity, uid, modseq, tags, (ns, ns));
    assert forall|pair: (Seq<char>, Seq<char>)|
        holds(after.inner, pair) <==> #[trigger] remembered_holds(
            message,
            mailbox,
            uidvalidity,
            uid,
            modseq,
            tags,
            pair,
        ) by {
        lemma_remembered(message, mailbox, uidvalidity, uid, modseq, tags, pair);
    }
    let own = (uid_key(ns, mailbox), text::digits_of(uid as nat));
    assert(remembered_holds(message, mailbox, uidvalidity, uid, modseq, tags, own));
    assert(known(after, mailbox));
    let marker = (marker_key(ns), MESSAGE_MARKER@);
    assert(remembered_holds(message, mailbox, uidvalidity, uid, modseq, tags, marker));
    assert(remembered_holds(message, mailbox, uidvalidity, uid, modseq, tags, (mailbox_key(ns), mailbox)));
    // What the engine knew of another mailbox, it still knows.
    assert forall|other: Seq<char>| other != mailbox implies (known(after, other) <==> known(
        message,
        other,
    )) && (listed(after, other) <==> listed(message, other)) by {
        lemma_keys(ns, other, mailbox);
        lemma_keys(ns, mailbox, other);
        if known(message, other) {
            let value = choose|value: Seq<char>|
                holds(message.inner, (uid_key(ns, other), value));
            assert(remembered_holds(
                message,
                mailbox,
                uidvalidity,
                uid,
                modseq,
                tags,
                (uid_key(ns, other), value),
            ));
            assert(holds(after.inner, (uid_key(ns, other), value)));
        }
        if known(after, other) {
            let value = choose|value: Seq<char>| holds(after.inner, (uid_key(ns, other), value));
            assert(remembered_holds(
                message,
                mailbox,
                uidvalidity,
                uid,
                modseq,
                tags,
                (uid_key(ns, other), value),
            ));
            assert(holds(message.inner, (uid_key(ns, other), value)));
        }
        assert(remembered_holds(
            message,
            mailbox,
            uidvalidity,
            uid,
            modseq,
            tags,
            (mailbox_key(ns), other),
        ) <==> holds(message.inner, (mailbox_key(ns), other)));
    }
    assert forall|other: Seq<char>| #[trigger]
        known(after, other) implies listed(after, other) && marked(after) by {
        if other != mailbox {
            assert(known(message, other));
        }
    }
    assert forall|other: Seq<char>| #[trigger] listed(after, other) implies known(after, other) by {
        if other != mailbox {
            assert(listed(message, other));
        }
    }
    assert forall|pair: (Seq<char>, Seq<char>)| #[trigger]
        holds(after.inner, pair) && begins(pair.0, ns + "."@) implies accounted(after, pair) by {
        assert(remembered_holds(message, mailbox, uidvalidity, uid, modseq, tags, pair));
        if pair == marker {
        } else if pair == (mailbox_key(ns), mailbox) || is_of(ns, mailbox, pair.0) {
            assert(belongs(after, pair, mailbox));
        } else {
            assert(holds(message.inner, pair));
            assert(accounted(message, pair));
            let other = choose|other: Seq<char>| belongs(message, pair, other);
            assert(known(message, other));
            if other != mailbox {
                assert(known(after, other));
            }
            assert(belongs(after, pair, other));
        }
    }
}

/// Forgetting a message in a mailbox keeps its properties consistent, and the engine then
/// does not know the message there, and knows it in every other mailbox in which it knew the
/// message, and in no other.
pub proof fn lemma_forgotten_is_consistent(message: MessageView, mailbox: Seq<char>)
    requires
        consistent(message),
    ensures
        consistent(message.forgotten(mailbox)),
        !known(message.forgotten(mailbox), mailbox),
        !listed(message.forgotten(mailbox), mailbox),
        forall|other: Seq<char>| #[trigger]
            known(message.forgotten(mailbox), other) <==> other != mailbox && known(message, other),
{
    let ns = message.namespace;
    let after = message.forgotten(mailbox);
    let bare = stripped(message, mailbox);
    let prefix = ns + "."@;
    let marker = (marker_key(ns), MESSAGE_MARKER@);
    lemma_forgotten(message, mailbox, (ns, ns));
    lemma_keys(ns, mailbox, mailbox);
    assert forall|pair: (Seq<char>, Seq<char>)|
        (holds(bare, pair) <==> #[trigger] forgotten_holds(message, mailbox, pair)) && (holds(
            after.inner,
            pair,
        ) <==> forgotten_holds(message, mailbox, pair) && !(left(message, mailbox) == 1 && pair.0
            == marker_key(ns))) by {
        lemma_forgotten(message, mailbox, pair);
    }
    assert forall|other: Seq<char>|
        (#[trigger] known(after, other) <==> known(message, other) && other != mailbox) && (listed(
            after,
            other,
        ) <==> listed(message, other) && other != mailbox) by {
        lemma_keys(ns, other, mailbox);
        lemma_keys(ns, mailbox, other);
        if known(message, other) && other != mailbox {
            let value = choose|value: Seq<char>|
                holds(message.inner, (uid_key(ns, other), value));
            assert(forgotten_holds(message, mailbox, (uid_key(ns, other), value)));
            assert(holds(after.inner, (uid_key(ns, other), value)));
        }
        if known(after, other) {
            let value = choose|value: Seq<char>| holds(after.inner, (uid_key(ns, other), value));
            assert(forgotten_holds(message, mailbox, (uid_key(ns, other), value)));
            assert(holds(message.inner, (uid_key(ns, other), value)));
        }
        assert(forgotten_holds(message, mailbox, (mailbox_key(ns), other)) <==> holds(
            message.inner,
            (mailbox_key(ns), other),
        ) && other != mailbox);
    }
    lemma_key_begins(ns, "marker"@);
    lemma_key_begins(ns, "mailbox"@);
    if exists|other: Seq<char>| known(message, other) && other != mailbox {
        // The message is known elsewhere: the marker stays.
        let other = choose|other: Seq<char>| known(message, other) && other != mailbox;
        assert(listed(message, other) && marked(message));
        assert(forgotten_holds(message, mailbox, (mailbox_key(ns), other)));
        assert(forgotten_holds(message, mailbox, marker));
        lemma_kept_two(
            bare.properties,
            bindings::is_under_prefix(prefix),
            (mailbox_key(ns), other),
            marker,
        );
        assert(left(message, mailbox) != 1);
        assert(known(after, other));
    } else {
        // The message is known nowhere else: nothing but the marker is left, and it goes.
        if holds(bare, marker) {
            assert forall|pair: (Seq<char>, Seq<char>)|
                bare.properties.contains(pair) && (bindings::is_under_prefix(prefix))(
                    pair,
                ) implies pair == marker by {
                assert(forgotten_holds(message, mailbox, pair));
                assert(holds(message.inner, pair));
                assert(accounted(message, pair));
                if pair != marker {
                    let other = choose|other: Seq<char>| belongs(message, pair, other);
                    assert(known(message, other));
                    assert(other == mailbox);
                }
            }
            lemma_kept_one(bare.properties, bindings::is_under_prefix(prefix), marker);
            assert(left(message, mailbox) == 1);
        }
        assert(forgotten_holds(message, mailbox, marker) <==> holds(bare, marker));
        assert(!marked(after));
    }
    assert forall|other: Seq<char>| #[trigger]
        known(after, other) implies listed(after, other) && marked(after) by {
        assert(known(message, other) && other != mailbox);
        assert(listed(message, other) && marked(message));
    }
    assert forall|other: Seq<char>| #[trigger] listed(after, other) implies known(after, other) by {
        assert(known(after, other) <==> known(message, other) && other != mailbox);
        assert(listed(message, other) && other != mailbox);
    }
    assert forall|pair: (Seq<char>, Seq<char>)| #[trigger]
        holds(after.inner, pair) && begins(pair.0, prefix) implies accounted(after, pair) by {
        assert(forgotten_holds(message, mailbox, pair));
        assert(holds(message.inner, pair));
        assert(accounted(message, pair));
        if pair != marker {
            let other = choose|other: Seq<char>| belongs(message, pair, other);
            assert(other != mailbox);
            assert(known(after, other));
            assert(belongs(after, pair, other));
        }
    }
}

/// Once a message is remembered in a mailbox, it reads there as it was written: the three
/// numbers are those that were given, and the cached tags are the tags that were given.
pub proof fn lemma_remembered_reads_back(
    message: MessageView,
    mailbox: Seq<char>,
    uidvalidity: u64,
    uid: u64,
    modseq: u64,
    tags: Seq<Seq<char>>,
)
    requires
        message.wf(),
    ensures
        message.remembered(mailbox, uidvalidity, uid, modseq, tags).uidvalidity(mailbox) == Ok::<
            u64,
            crate::error::Error,
        >(uidvalidity),
        message.remembered(mailbox, uidvalidity, uid, modseq, tags).uid(mailbox) == Ok::<
            u64,
            crate::error::Error,
        >(uid),
        message.remembered(mailbox, uidvalidity, uid, modseq, tags).modseq(mailbox) == Ok::<
            u64,
            crate::error::Error,
        >(modseq),
        forall|tag: Seq<char>|
            message.remembered(mailbox, uidvalidity, uid, modseq, tags).cached_tags(
                mailbox,
            ).contains(tag) <==> tags.contains(tag),
{
    let ns = message.namespace;
    let after = message.remembered(mailbox, uidvalidity, uid, modseq, tags);
    lemma_keys(ns, mailbox, mailbox);
    lemma_remembered(message, mailbox, uidvalidity, uid, modseq, tags, (ns, ns));
    assert forall|pair: (Seq<char>, Seq<char>)|
        holds(after.inner, pair) <==> #[trigger] remembered_holds(
            message,
            mailbox,
            uidvalidity,
            uid,
            modseq,
            tags,
            pair,
        ) by {
        lemma_remembered(message, mailbox, uidvalidity, uid, modseq, tags, pair);
    }
    assert forall|other: Seq<char>| #[trigger]
        holds(after.inner, (key(ns, mailbox + ".uidvalidity"@), other)) <==> other
            == text::digits_of(uidvalidity as nat) by {
        assert(remembered_holds(
            message,
            mailbox,
            uidvalidity,
            uid,
            modseq,
            tags,
            (uidvalidity_key(ns, mailbox), other),
        ) <==> other == text::digits_of(uidvalidity as nat));
    }
    assert forall|other: Seq<char>| #[trigger]
        holds(after.inner, (key(ns, mailbox + ".uid"@), other)) <==> other == text::digits_of(
            uid as nat,
        ) by {
        assert(remembered_holds(
            message,
            mailbox,
            uidvalidity,
            uid,
            modseq,
            tags,
            (uid_key(ns, mailbox), other),
        ) <==> other == text::digits_of(uid as nat));
    }
    assert forall|other: Seq<char>| #[trigger]
        holds(after.inner, (key(ns, mailbox + ".modseq"@), other)) <==> other == text::digits_of(
            modseq as nat,
        ) by {
        assert(remembered_holds(
            message,
            mailbox,
            uidvalidity,
            uid,
            modseq,
            tags,
            (modseq_key(ns, mailbox), other),
        ) <==> other == text::digits_of(modseq as nat));
    }
    lemma_single(after.inner, ns, mailbox + ".uidvalidity"@, text::digits_of(uidvalidity as nat));
    lemma_single(after.inner, ns, mailbox + ".uid"@, text::digits_of(uid as nat));
    lemma_single(after.inner, ns, mailbox + ".modseq"@, text::digits_of(modseq as nat));
    text::lemma_number_of_digits(uidvalidity);
    text::lemma_number_of_digits(uid);
    text::lemma_number_of_digits(modseq);
    assert forall|tag: Seq<char>| after.cached_tags(mailbox).contains(tag) <==> tags.contains(
        tag,
    ) by {
        lemma_values(after.inner, ns, mailbox + ".tag"@, tag);
        assert(remembered_holds(
            message,
            mailbox,
            uidvalidity,
            uid,
            modseq,
            tags,
            (tag_key(ns, mailbox), tag),
        ) <==> tags.contains(tag));
    }
}

/// A property with one value reads as that value.
pub proof fn lemma_single(
    message: bindings::MessageView,
    namespace: Seq<char>,
    name: Seq<char>,
    value: Seq<char>,
)
    requires
        forall|other: Seq<char>|
            #[trigger] holds(message, (key(namespace, name), other)) <==> other == value,
    ensures
        crate::notmuch::value_of(message, namespace, name) == Some(value),
{
    let all = values_of(message, namespace, name);
    lemma_values(message, namespace, name, value);
    assert(holds(message, (key(namespace, name), value)));
    assert(all.len() > 0);
    lemma_values(message, namespace, name, all.last());
    assert(all.contains(all.last())) by {
        assert(all[all.len() - 1] == all.last());
    }
}


/// Remembering a message twice in the same way leaves the properties that remembering it
/// once leaves.
pub proof fn lemma_remembered_twice(
    message: MessageView,
    mailbox: Seq<char>,
    uidvalidity: u64,
    uid: u64,
    modseq: u64,
    tags: Seq<Seq<char>>,
)
    requires
        message.wf(),
    ensures
        forall|pair: (Seq<char>, Seq<char>)|
            holds(
                message.remembered(mailbox, uidvalidity, uid, modseq, tags).remembered(
                    mailbox,
                    uidvalidity,
                    uid,
                    modseq,
                    tags,
                ).inner,
                pair,
            ) <==> holds(message.remembered(mailbox, uidvalidity, uid, modseq, tags).inner, pair),
{
    let once = message.remembered(mailbox, uidvalidity, uid, modseq, tags);
    let twice = once.remembered(mailbox, uidvalidity, uid, modseq, tags);
    lemma_keys(message.namespace, mailbox, mailbox);
    lemma_remembered(message, mailbox, uidvalidity, uid, modseq, tags, (mailbox, mailbox));
    assert forall|pair: (Seq<char>, Seq<char>)| holds(twice.inner, pair) <==> holds(
        once.inner,
        pair,
    ) by {
        lemma_remembered(message, mailbox, uidvalidity, uid, modseq, tags, pair);
        lemma_remembered(once, mailbox, uidvalidity, uid, modseq, tags, pair);
    }
}


/// A property without a value reads as none.
pub proof fn lemma_none(message: bindings::MessageView, namespace: Seq<char>, name: Seq<char>)
    requires
        forall|value: Seq<char>| !#[trigger] holds(message, (key(namespace, name), value)),
    ensures
        crate::notmuch::value_of(message, namespace, name) is None,
{
    let all = values_of(message, namespace, name);
    if all.len() > 0 {
        lemma_values(message, namespace, name, all[0]);
        assert(all.contains(all[0]));
    }
}

/// Once a mailbox is on the record of the root message, it reads there as it was written:
/// the UIDVALIDITY, the HIGHESTMODSEQ and the separator are those that were given.
pub proof fn lemma_root_reads_back(
    root: RootView,
    mailbox: Seq<char>,
    separator: Option<char>,
    uidvalidity: u64,
    highestmodseq: u64,
)
    requires
        root.wf(),
    ensures
        root.remembered(mailbox, separator, uidvalidity, highestmodseq).wf(),
        root.remembered(mailbox, separator, uidvalidity, highestmodseq).validity(mailbox) == Ok::<
            (u64, u64),
            crate::error::Error,
        >((uidvalidity, highestmodseq)),
        root.remembered(mailbox, separator, uidvalidity, highestmodseq).separator(mailbox) == Ok::<
            Option<char>,
            crate::error::Error,
        >(separator),
        root.remembered(mailbox, separator, uidvalidity, highestmodseq).mailboxes().contains(
            mailbox,
        ),
{
    let ns = root.namespace;
    let after = root.remembered(mailbox, separator, uidvalidity, highestmodseq);
    let a = replaced(root.inner, ns, "mailbox"@, Some(mailbox), Some(mailbox));
    let b = replaced(a, ns, mailbox + ".separator"@, None, crate::notmuch::root::char_of(separator));
    let c = replaced(
        b,
        ns,
        mailbox + ".uidvalidity"@,
        None,
        Some(text::digits_of(uidvalidity as nat)),
    );
    let separator_key = key(ns, mailbox + ".separator"@);
    let uidvalidity_key = key(ns, mailbox + ".uidvalidity"@);
    let highestmodseq_key = key(ns, mailbox + ".highestmodseq"@);
    reveal_strlit(".separator");
    reveal_strlit(".uidvalidity");
    reveal_strlit(".highestmodseq");
    reveal_strlit("mailbox");
    lemma_last_of(mailbox, ".separator"@);
    lemma_last_of(mailbox, ".uidvalidity"@);
    lemma_last_of(mailbox, ".highestmodseq"@);
    assert(".separator"@.last() == 'r' && ".uidvalidity"@.last() == 'y' && ".highestmodseq"@.last()
        == 'q' && "mailbox"@.last() == 'x');
    if separator_key == uidvalidity_key {
        lemma_key_injective(ns, mailbox + ".separator"@, mailbox + ".uidvalidity"@);
    }
    if separator_key == highestmodseq_key {
        lemma_key_injective(ns, mailbox + ".separator"@, mailbox + ".highestmodseq"@);
    }
    if uidvalidity_key == highestmodseq_key {
        lemma_key_injective(ns, mailbox + ".uidvalidity"@, mailbox + ".highestmodseq"@);
    }
    if mailbox_key(ns) == separator_key {
        lemma_key_injective(ns, "mailbox"@, mailbox + ".separator"@);
    }
    if mailbox_key(ns) == uidvalidity_key {
        lemma_key_injective(ns, "mailbox"@, mailbox + ".uidvalidity"@);
    }
    if mailbox_key(ns) == highestmodseq_key {
        lemma_key_injective(ns, "mailbox"@, mailbox + ".highestmodseq"@);
    }
    lemma_replaced_wf(root.inner, ns, "mailbox"@, Some(mailbox), Some(mailbox));
    lemma_replaced_wf(a, ns, mailbox + ".separator"@, None, crate::notmuch::root::char_of(separator));
    lemma_replaced_wf(
        b,
        ns,
        mailbox + ".uidvalidity"@,
        None,
        Some(text::digits_of(uidvalidity as nat)),
    );
    lemma_replaced_wf(
        c,
        ns,
        mailbox + ".highestmodseq"@,
        None,
        Some(text::digits_of(highestmodseq as nat)),
    );
    assert forall|pair: (Seq<char>, Seq<char>)|
        #![trigger holds(after.inner, pair)]
        (pair.0 == uidvalidity_key ==> (holds(after.inner, pair) <==> pair.1 == text::digits_of(
            uidvalidity as nat,
        ))) && (pair.0 == highestmodseq_key ==> (holds(after.inner, pair) <==> pair.1
            == text::digits_of(highestmodseq as nat))) && (pair.0 == separator_key ==> (holds(
            after.inner,
            pair,
        ) <==> crate::notmuch::root::char_of(separator) == Some(pair.1))) && (pair == (
            mailbox_key(ns),
            mailbox,
        ) ==> holds(after.inner, pair)) by {
        lemma_replaced(root.inner, ns, "mailbox"@, Some(mailbox), Some(mailbox), pair);
        lemma_replaced(
            a,
            ns,
            mailbox + ".separator"@,
            None,
            crate::notmuch::root::char_of(separator),
            pair,
        );
        lemma_replaced(
            b,
            ns,
            mailbox + ".uidvalidity"@,
            None,
            Some(text::digits_of(uidvalidity as nat)),
            pair,
        );
        lemma_replaced(
            c,
            ns,
            mailbox + ".highestmodseq"@,
            None,
            Some(text::digits_of(highestmodseq as nat)),
            pair,
        );
    }
    assert forall|other: Seq<char>| #[trigger]
        holds(after.inner, (key(ns, mailbox + ".uidvalidity"@), other)) <==> other
            == text::digits_of(uidvalidity as nat) by {}
    assert forall|other: Seq<char>| #[trigger]
        holds(after.inner, (key(ns, mailbox + ".highestmodseq"@), other)) <==> other
            == text::digits_of(highestmodseq as nat) by {}
    lemma_single(after.inner, ns, mailbox + ".uidvalidity"@, text::digits_of(uidvalidity as nat));
    lemma_single(
        after.inner,
        ns,
        mailbox + ".highestmodseq"@,
        text::digits_of(highestmodseq as nat),
    );
    text::lemma_number_of_digits(uidvalidity);
    text::lemma_number_of_digits(highestmodseq);
    match separator {
        Some(c) => {
            assert forall|other: Seq<char>| #[trigger]
                holds(after.inner, (key(ns, mailbox + ".separator"@), other)) <==> other
                    == seq![c] by {}
            lemma_single(after.inner, ns, mailbox + ".separator"@, seq![c]);
        },
        None => {
            assert forall|other: Seq<char>|
                !#[trigger] holds(after.inner, (key(ns, mailbox + ".separator"@), other)) by {}
            lemma_none(after.inner, ns, mailbox + ".separator"@);
        },
    }
    lemma_values(after.inner, ns, "mailbox"@, mailbox);
    assert(holds(after.inner, (mailbox_key(ns), mailbox)));
}


/// Where the server reports a message at a mod-sequence that is not above the HIGHESTMODSEQ
/// of its mailbox, the mod-sequence that the message has on record is not above the
/// HIGHESTMODSEQ that the root message has on record, once both have taken note.
pub proof fn lemma_modseq_under_highestmodseq(
    message: MessageView,
    root: RootView,
    mailbox: Seq<char>,
    separator: Option<char>,
    uidvalidity: u64,
    uid: u64,
    modseq: u64,
    highestmodseq: u64,
    tags: Seq<Seq<char>>,
)
    requires
        message.wf(),
        root.wf(),
        modseq <= highestmodseq,
    ensures
        match (
            message.remembered(mailbox, uidvalidity, uid, modseq, tags).modseq(mailbox),
            root.remembered(mailbox, separator, uidvalidity, highestmodseq).validity(mailbox),
        ) {
            (Ok(of_message), Ok(of_mailbox)) => of_message <= of_mailbox.1,
            _ => false,
        },
{
    lemma_remembered_reads_back(message, mailbox, uidvalidity, uid, modseq, tags);
    lemma_root_reads_back(root, mailbox, separator, uidvalidity, highestmodseq);
}

/// A message that a pull leaves as it is stays under the HIGHESTMODSEQ of its mailbox:
/// where its mod-sequence was not above the HIGHESTMODSEQ on record, and the server does not
/// go back on its HIGHESTMODSEQ, it is not above the one that the pull puts on record.
pub proof fn lemma_modseq_stays_under_highestmodseq(
    message: MessageView,
    root: RootView,
    mailbox: Seq<char>,
    separator: Option<char>,
    uidvalidity: u64,
    highestmodseq: u64,
)
    requires
        root.wf(),
        match (message.modseq(mailbox), root.validity(mailbox)) {
            (Ok(of_message), Ok(of_mailbox)) => of_message <= of_mailbox.1 && of_mailbox.1
                <= highestmodseq,
            _ => false,
        },
    ensures
        match (
            message.modseq(mailbox),
            root.remembered(mailbox, separator, uidvalidity, highestmodseq).validity(mailbox),
        ) {
            (Ok(of_message), Ok(of_mailbox)) => of_message <= of_mailbox.1,
            _ => false,
        },
{
    lemma_root_reads_back(root, mailbox, separator, uidvalidity, highestmodseq);
}

} // verus!
