//! The index: its messages, the properties that the engine keeps on them, and how flags of the
//! server and tags of the index stand for each other.
use vstd::prelude::*;
use vstd::string::{StrSliceExecFns, StringExecFns};
use crate::error::Error;
use crate::maildir;
use crate::text;
use crate::text::{distinct, strs};

pub mod across;
pub mod bindings;
pub mod database;
pub mod laws;
pub mod merge;
pub mod root;

pub use database::{Atomic, Attached, Claim, Database, Detached, Messages, Step};
pub use root::{RootMessage, RootView};

verus! {

/// The value of the marker property on the message that keeps the state of the engine.
pub const ROOT_MARKER: &'static str = "root";

/// The value of the marker property on a message that the engine keeps track of.
pub const MESSAGE_MARKER: &'static str = "message";

/// `s` with every `"` doubled.
pub open spec fn quoted(s: Seq<char>) -> Seq<char>
    decreases s.len(),
{
    if s.len() == 0 {
        s
    } else if s.last() == '"' {
        quoted(s.drop_last()).push('"').push('"')
    } else {
        quoted(s.drop_last()).push(s.last())
    }
}

/// Writes a string so that it can stand between two `"` in a query: every `"` in it is
/// doubled.
pub fn quote(s: &str) -> (r: String)
    ensures
        r@ == quoted(s@),
{
    let len = s.unicode_len();
    let mut out = String::new();
    let mut i: usize = 0;
    assert(s@.subrange(0, 0) =~= Seq::<char>::empty());
    while i < len
        invariant
            i <= len,
            len == s@.len(),
            out@ == quoted(s@.subrange(0, i as int)),
        decreases len - i,
    {
        let c = s.get_char(i);
        proof {
            let next = s@.subrange(0, i + 1);
            assert(next.drop_last() =~= s@.subrange(0, i as int));
            assert(next.last() == c);
        }
        if c == '"' {
            text::push(&mut out, '"');
        }
        text::push(&mut out, c);
        i += 1;
    }
    assert(s@.subrange(0, len as int) =~= s@);
    out
}

/// `s` begins with a backslash, as the flags do that are no keywords.
pub open spec fn is_system(s: Seq<char>) -> bool {
    s.len() > 0 && s[0] == '\\'
}

/// The tag that stands for a flag, if one does: `\Answered`, `\Flagged` and `\Draft` have a tag
/// of their own, no other system flag has one, and a keyword is its own tag.
pub open spec fn tag_of(flag: Seq<char>) -> Option<Seq<char>> {
    if flag == "\\Answered"@ {
        Some("replied"@)
    } else if flag == "\\Flagged"@ {
        Some("flagged"@)
    } else if flag == "\\Draft"@ {
        Some("draft"@)
    } else if is_system(flag) {
        None
    } else {
        Some(flag)
    }
}

/// The flag that stands for a tag, if one does: `unread` has none, `replied`, `flagged` and
/// `draft` have a system flag, and any other tag is its own keyword.
pub open spec fn flag_of(tag: Seq<char>) -> Option<Seq<char>> {
    if tag == "unread"@ {
        None
    } else if tag == "replied"@ {
        Some("\\Answered"@)
    } else if tag == "flagged"@ {
        Some("\\Flagged"@)
    } else if tag == "draft"@ {
        Some("\\Draft"@)
    } else {
        Some(tag)
    }
}

/// `tag` is one of the tags that stand for `flags`: `unread` where `\Seen` is not among them,
/// and the tag of each flag that has one.
pub open spec fn is_tag_of(flags: Seq<Seq<char>>, tag: Seq<char>) -> bool {
    ||| tag == "unread"@ && !flags.contains("\\Seen"@)
    ||| exists|i: int| 0 <= i < flags.len() && #[trigger] tag_of(flags[i]) == Some(tag)
}

/// `flag` is one of the flags that stand for `tags`: `\Seen` where `unread` is not among them,
/// and the flag of each tag that has one.
pub open spec fn is_flag_of(tags: Seq<Seq<char>>, flag: Seq<char>) -> bool {
    ||| flag == "\\Seen"@ && !tags.contains("unread"@)
    ||| exists|i: int| 0 <= i < tags.len() && #[trigger] flag_of(tags[i]) == Some(flag)
}

/// `list` with `item` at its end, unless it holds `item` already.
fn insert(list: &mut Vec<String>, item: &str)
    requires
        distinct(strs(old(list)@)),
    ensures
        distinct(strs(final(list)@)),
        strs(final(list)@) == bindings::with(strs(old(list)@), item@),
{
    let ghost before = strs(list@);
    if !text::contains(list, item) {
        list.push(String::from_str(item));
        assert(strs(list@) =~= before.push(item@));
    }
}

fn system(s: &str) -> (r: bool)
    ensures
        r == is_system(s@),
{
    s.unicode_len() > 0 && s.get_char(0) == '\\'
}

/// The tags that stand for the first `n` of `flags`, in the order in which they come up:
/// `unread` first where `\Seen` is not among the flags, then the tag of each flag that has one
/// and whose tag did not come up before.
pub open spec fn tags_upto(flags: Seq<Seq<char>>, n: nat) -> Seq<Seq<char>>
    decreases n,
{
    if n == 0 {
        if flags.contains("\\Seen"@) {
            Seq::empty()
        } else {
            seq!["unread"@]
        }
    } else {
        let before = tags_upto(flags, (n - 1) as nat);
        match tag_of(flags[n - 1]) {
            Some(tag) => bindings::with(before, tag),
            None => before,
        }
    }
}

/// The tags that stand for `flags`.
pub open spec fn tags_of(flags: Seq<Seq<char>>) -> Seq<Seq<char>> {
    tags_upto(flags, flags.len())
}

/// The flags that stand for the first `n` of `tags`, in the order in which they come up: the
/// flag of each tag that has one and whose flag did not come up before.
pub open spec fn flags_upto(tags: Seq<Seq<char>>, n: nat) -> Seq<Seq<char>>
    decreases n,
{
    if n == 0 {
        Seq::empty()
    } else {
        let before = flags_upto(tags, (n - 1) as nat);
        match flag_of(tags[n - 1]) {
            Some(flag) => bindings::with(before, flag),
            None => before,
        }
    }
}

/// The flags that stand for `tags`: the flag of each tag that has one, and at the end `\Seen`
/// where `unread` is not among the tags.
pub open spec fn flags_of(tags: Seq<Seq<char>>) -> Seq<Seq<char>> {
    if tags.contains("unread"@) {
        flags_upto(tags, tags.len())
    } else {
        bindings::with(flags_upto(tags, tags.len()), "\\Seen"@)
    }
}

/// `with` keeps a list free of doubles.
pub proof fn lemma_with_distinct(list: Seq<Seq<char>>, item: Seq<char>)
    requires
        distinct(list),
    ensures
        distinct(bindings::with(list, item)),
{
    if !list.contains(item) {
        let after = list.push(item);
        assert forall|i: int, j: int| 0 <= i < j < after.len() implies after[i] != after[j] by {
            if j == list.len() {
                assert(list[i] == after[i]);
            }
        }
    }
}

/// What `tags_upto` holds: nothing twice, `unread` where `\Seen` is not among the flags, and
/// the tag of each of the first `n` flags that has one.
pub proof fn lemma_tags_upto(flags: Seq<Seq<char>>, n: nat, tag: Seq<char>)
    requires
        n <= flags.len(),
    ensures
        distinct(tags_upto(flags, n)),
        tags_upto(flags, n).contains(tag) <==> (tag == "unread"@ && !flags.contains("\\Seen"@))
            || exists|j: int| 0 <= j < n && #[trigger] tag_of(flags[j]) == Some(tag),
    decreases n,
{
    if n == 0 {
        if !flags.contains("\\Seen"@) {
            assert(seq!["unread"@][0] == "unread"@);
        }
    } else {
        let before = tags_upto(flags, (n - 1) as nat);
        lemma_tags_upto(flags, (n - 1) as nat, tag);
        match tag_of(flags[n - 1]) {
            Some(new) => {
                lemma_with_distinct(before, new);
                bindings::lemma_with_contains(before, new, tag);
            },
            None => {},
        }
        if exists|j: int| 0 <= j < n && #[trigger] tag_of(flags[j]) == Some(tag) {
            let j = choose|j: int| 0 <= j < n && #[trigger] tag_of(flags[j]) == Some(tag);
            if j < n - 1 {
                assert(before.contains(tag));
            }
        }
        if tag_of(flags[n - 1]) == Some(tag) {
            assert(exists|j: int| 0 <= j < n && #[trigger] tag_of(flags[j]) == Some(tag));
        }
    }
}

/// What `flags_upto` holds: nothing twice, and the flag of each of the first `n` tags that has
/// one.
pub proof fn lemma_flags_upto(tags: Seq<Seq<char>>, n: nat, flag: Seq<char>)
    requires
        n <= tags.len(),
    ensures
        distinct(flags_upto(tags, n)),
        flags_upto(tags, n).contains(flag) <==> exists|j: int|
            0 <= j < n && #[trigger] flag_of(tags[j]) == Some(flag),
    decreases n,
{
    if n > 0 {
        let before = flags_upto(tags, (n - 1) as nat);
        lemma_flags_upto(tags, (n - 1) as nat, flag);
        match flag_of(tags[n - 1]) {
            Some(new) => {
                lemma_with_distinct(before, new);
                bindings::lemma_with_contains(before, new, flag);
            },
            None => {},
        }
        if exists|j: int| 0 <= j < n && #[trigger] flag_of(tags[j]) == Some(flag) {
            let j = choose|j: int| 0 <= j < n && #[trigger] flag_of(tags[j]) == Some(flag);
            if j < n - 1 {
                assert(before.contains(flag));
            }
        }
        if flag_of(tags[n - 1]) == Some(flag) {
            assert(exists|j: int| 0 <= j < n && #[trigger] flag_of(tags[j]) == Some(flag));
        }
    }
}

/// The tags that stand for flags are a set: nothing stands twice among them, and a tag is
/// among them where it is one of the tags that stand for the flags.
pub proof fn lemma_tags_of(flags: Seq<Seq<char>>)
    ensures
        distinct(tags_of(flags)),
        forall|tag: Seq<char>| tags_of(flags).contains(tag) <==> is_tag_of(flags, tag),
{
    lemma_tags_upto(flags, flags.len(), Seq::empty());
    assert forall|tag: Seq<char>| tags_of(flags).contains(tag) <==> is_tag_of(flags, tag) by {
        lemma_tags_upto(flags, flags.len(), tag);
    }
}

/// The flags that stand for tags are a set: nothing stands twice among them, and a flag is
/// among them where it is one of the flags that stand for the tags.
pub proof fn lemma_flags_of(tags: Seq<Seq<char>>)
    ensures
        distinct(flags_of(tags)),
        forall|flag: Seq<char>| flags_of(tags).contains(flag) <==> is_flag_of(tags, flag),
{
    lemma_flags_upto(tags, tags.len(), Seq::empty());
    lemma_with_distinct(flags_upto(tags, tags.len()), "\\Seen"@);
    assert forall|flag: Seq<char>| flags_of(tags).contains(flag) <==> is_flag_of(tags, flag) by {
        lemma_flags_upto(tags, tags.len(), flag);
        bindings::lemma_with_contains(flags_upto(tags, tags.len()), "\\Seen"@, flag);
    }
}

/// The tags that stand for the flags of a message.
pub fn flags_to_tags(flags: &Vec<String>) -> (r: Vec<String>)
    ensures
        strs(r@) == tags_of(strs(flags@)),
{
    let mut tags: Vec<String> = Vec::new();
    assert(strs(tags@) =~= Seq::<Seq<char>>::empty());
    if !text::contains(flags, "\\Seen") {
        insert(&mut tags, "unread");
        assert(strs(tags@) =~= seq!["unread"@]);
    }
    let mut i: usize = 0;
    while i < flags.len()
        invariant
            i <= flags.len(),
            distinct(strs(tags@)),
            strs(tags@) == tags_upto(strs(flags@), i as nat),
        decreases flags.len() - i,
    {
        let flag = flags[i].as_str();
        assert(strs(flags@)[i as int] == flag@);
        if text::equal(flag, "\\Answered") {
            insert(&mut tags, "replied");
        } else if text::equal(flag, "\\Flagged") {
            insert(&mut tags, "flagged");
        } else if text::equal(flag, "\\Draft") {
            insert(&mut tags, "draft");
        } else if system(flag) {
        } else {
            insert(&mut tags, flag);
        }
        i += 1;
    }
    tags
}

/// The flags that stand for the tags of a message.
pub fn tags_to_flags(tags: &Vec<String>) -> (r: Vec<String>)
    ensures
        strs(r@) == flags_of(strs(tags@)),
{
    let mut flags: Vec<String> = Vec::new();
    assert(strs(flags@) =~= Seq::<Seq<char>>::empty());
    let mut i: usize = 0;
    while i < tags.len()
        invariant
            i <= tags.len(),
            distinct(strs(flags@)),
            strs(flags@) == flags_upto(strs(tags@), i as nat),
        decreases tags.len() - i,
    {
        let tag = tags[i].as_str();
        assert(strs(tags@)[i as int] == tag@);
        if text::equal(tag, "unread") {
        } else if text::equal(tag, "replied") {
            insert(&mut flags, "\\Answered");
        } else if text::equal(tag, "flagged") {
            insert(&mut flags, "\\Flagged");
        } else if text::equal(tag, "draft") {
            insert(&mut flags, "\\Draft");
        } else {
            insert(&mut flags, tag);
        }
        i += 1;
    }
    if !text::contains(tags, "unread") {
        insert(&mut flags, "\\Seen");
    }
    flags
}

/// Turning tags into flags and these back into tags gives the tags again, as a set, where no
/// tag begins with a backslash.
pub proof fn lemma_tags_round_trip(tags: Seq<Seq<char>>)
    requires
        forall|i: int| 0 <= i < tags.len() ==> !is_system(#[trigger] tags[i]),
    ensures
        forall|tag: Seq<char>| tags_of(flags_of(tags)).contains(tag) <==> tags.contains(tag),
{
    lemma_flags_of(tags);
    lemma_tags_of(flags_of(tags));
    lemma_tags_survive_flags(tags, flags_of(tags), tags_of(flags_of(tags)));
}

/// Where flags stand for tags of which none begins with a backslash, and tags stand for
/// these flags, the latter tags are the former.
pub proof fn lemma_tags_survive_flags(tags: Seq<Seq<char>>, flags: Seq<Seq<char>>, back: Seq<Seq<char>>)
    requires
        forall|i: int| 0 <= i < tags.len() ==> !is_system(#[trigger] tags[i]),
        forall|flag: Seq<char>| flags.contains(flag) <==> is_flag_of(tags, flag),
        forall|tag: Seq<char>| back.contains(tag) <==> is_tag_of(flags, tag),
    ensures
        forall|tag: Seq<char>| back.contains(tag) <==> tags.contains(tag),
{
    reveal_strlit("unread");
    reveal_strlit("replied");
    reveal_strlit("flagged");
    reveal_strlit("draft");
    reveal_strlit("\\Seen");
    reveal_strlit("\\Answered");
    reveal_strlit("\\Flagged");
    reveal_strlit("\\Draft");
    assert(is_system("\\Seen"@) && is_system("\\Answered"@) && is_system("\\Flagged"@) && is_system(
        "\\Draft"@,
    ));
    assert("unread"@ != "replied"@ && "unread"@ != "flagged"@ && "unread"@ != "draft"@) by {
        assert("unread"@[0] == 'u' && "replied"@[0] == 'r' && "flagged"@[0] == 'f' && "draft"@[0]
            == 'd');
    }
    assert("\\Seen"@ != "\\Answered"@ && "\\Seen"@ != "\\Flagged"@ && "\\Seen"@ != "\\Draft"@) by {
        assert("\\Seen"@[1] == 'S' && "\\Answered"@[1] == 'A' && "\\Flagged"@[1] == 'F'
            && "\\Draft"@[1] == 'D');
    }
    assert("replied"@ != "flagged"@ && "replied"@ != "draft"@ && "flagged"@ != "draft"@) by {
        assert("replied"@[0] == 'r' && "flagged"@[0] == 'f' && "draft"@[0] == 'd');
    }
    assert(!is_system("unread"@) && !is_system("replied"@) && !is_system("flagged"@) && !is_system(
        "draft"@,
    )) by {
        assert("unread"@[0] == 'u' && "replied"@[0] == 'r' && "flagged"@[0] == 'f' && "draft"@[0]
            == 'd');
    }
    assert forall|tag: Seq<char>| back.contains(tag) <==> tags.contains(tag) by {
        if tags.contains(tag) {
            let i = choose|i: int| 0 <= i < tags.len() && tags[i] == tag;
            assert(!is_system(tags[i]));
            if tag == "unread"@ {
                assert(tags.contains("unread"@));
                if flags.contains("\\Seen"@) {
                    assert(is_flag_of(tags, "\\Seen"@));
                    let j = choose|j: int|
                        0 <= j < tags.len() && #[trigger] flag_of(tags[j]) == Some("\\Seen"@);
                    assert(!is_system(tags[j]));
                }
                assert(is_tag_of(flags, tag));
            } else {
                let flag = flag_of(tag)->0;
                assert(flag_of(tags[i]) == Some(flag));
                assert(is_flag_of(tags, flag));
                let j = choose|j: int| 0 <= j < flags.len() && flags[j] == flag;
                assert(tag_of(flags[j]) == Some(tag));
                assert(is_tag_of(flags, tag));
            }
        }
        if back.contains(tag) {
            assert(is_tag_of(flags, tag));
            if tag == "unread"@ && !flags.contains("\\Seen"@) {
                assert(!is_flag_of(tags, "\\Seen"@));
            } else {
                let j = choose|j: int|
                    0 <= j < flags.len() && #[trigger] tag_of(flags[j]) == Some(tag);
                assert(flags.contains(flags[j]));
                assert(is_flag_of(tags, flags[j]));
                if flags[j] == "\\Seen"@ && !tags.contains("unread"@) {
                } else {
                    let k = choose|k: int|
                        0 <= k < tags.len() && #[trigger] flag_of(tags[k]) == Some(flags[j]);
                    assert(!is_system(tags[k]));
                    assert(tags[k] == tag);
                }
            }
        }
    }
}


/// `a`, a dot, and `b`.
pub open spec fn dotted(a: Seq<char>, b: Seq<char>) -> Seq<char> {
    a + "."@ + b
}

pub(crate) fn dot(a: &str, b: &str) -> (r: String)
    ensures
        r@ == dotted(a@, b@),
{
    let mut out = String::from_str(a);
    out.append(".");
    out.append(b);
    out
}

/// The characters that `s` holds, if it holds any.
pub open spec fn text_of(s: Option<&str>) -> Option<Seq<char>> {
    match s {
        Some(s) => Some(s@),
        None => None,
    }
}

/// The characters that `s` holds, if it holds any.
pub open spec fn string_of(s: Option<String>) -> Option<Seq<char>> {
    match s {
        Some(s) => Some(s@),
        None => None,
    }
}

/// The message once the property `property` of `namespace` is replaced: the value `old`, or
/// every value where `old` is none, goes, and then `new` is added, if there is one.
pub open spec fn replaced(
    message: bindings::MessageView,
    namespace: Seq<char>,
    property: Seq<char>,
    old: Option<Seq<char>>,
    new: Option<Seq<char>>,
) -> bindings::MessageView {
    let key = dotted(namespace, property);
    let removed = match old {
        Some(value) => message.without_property(key, value),
        None => message.without_properties(key),
    };
    match new {
        Some(value) => removed.with_property(key, value),
        None => removed,
    }
}

/// The values of the property `property` of `namespace`, in the order of the index.
pub open spec fn values_of(
    message: bindings::MessageView,
    namespace: Seq<char>,
    property: Seq<char>,
) -> Seq<Seq<char>> {
    bindings::values(bindings::under(message.properties, dotted(namespace, property)))
}

/// The value of the property `property` of `namespace`: the last one where it has several.
pub open spec fn value_of(
    message: bindings::MessageView,
    namespace: Seq<char>,
    property: Seq<char>,
) -> Option<Seq<char>> {
    let all = values_of(message, namespace, property);
    if all.len() == 0 {
        None
    } else {
        Some(all.last())
    }
}

/// The number that the property `property` of `namespace` holds, or `default` where the
/// message has no such property.
pub open spec fn number_at(
    message: bindings::MessageView,
    namespace: Seq<char>,
    property: Seq<char>,
    default: Option<u64>,
) -> Result<u64, Error> {
    match value_of(message, namespace, property) {
        Some(value) => match text::number_of(value) {
            Some(n) => Ok(n),
            None => Err(Error::InvalidProperty),
        },
        None => match default {
            Some(n) => Ok(n),
            None => Err(Error::InvalidProperty),
        },
    }
}

pub(crate) fn replace_property(
    message: &mut bindings::Message,
    namespace: &str,
    name: &str,
    old_value: Option<&str>,
    new_value: Option<&str>,
)
    requires
        old(message)@.wf(),
    ensures
        final(message)@.wf(),
        final(message)@ == replaced(
            old(message)@,
            namespace@,
            name@,
            text_of(old_value),
            text_of(new_value),
        ),
{
    let key = dot(namespace, name);
    match old_value {
        Some(value) => message.remove_property(key.as_str(), value),
        None => message.remove_all_properties(key.as_str()),
    }
    match new_value {
        Some(value) => message.add_property(key.as_str(), value),
        None => {},
    }
}

pub(crate) fn properties(message: &bindings::Message, namespace: &str, name: &str) -> (r: Vec<String>)
    ensures
        strs(r@) == values_of(message@, namespace@, name@),
{
    let key = dot(namespace, name);
    let found = message.properties(key.as_str(), true);
    let mut out: Vec<String> = Vec::new();
    let mut i: usize = 0;
    while i < found.len()
        invariant
            i <= found.len(),
            out@.len() == i,
            forall|j: int| 0 <= j < i ==> out@[j]@ == found@[j].1@,
        decreases found.len() - i,
    {
        out.push(found[i].1.clone());
        i += 1;
    }
    assert(strs(out@) =~= bindings::values(bindings::pairs(found@)));
    out
}

pub(crate) fn property(message: &bindings::Message, namespace: &str, name: &str) -> (r: Option<String>)
    ensures
        string_of(r) == value_of(message@, namespace@, name@),
{
    let mut all = properties(message, namespace, name);
    let ghost before = strs(all@);
    let last = all.pop();
    proof {
        if before.len() > 0 {
            assert(last->0@ == before.last());
        }
    }
    last
}

pub(crate) fn number(message: &bindings::Message, namespace: &str, name: &str, default: Option<u64>) -> (r:
    Result<u64, Error>)
    ensures
        r == number_at(message@, namespace@, name@, default),
{
    match property(message, namespace, name) {
        Some(value) => match text::parse_u64(value.as_str()) {
            Some(n) => Ok(n),
            None => Err(Error::InvalidProperty),
        },
        None => match default {
            Some(n) => Ok(n),
            None => Err(Error::InvalidProperty),
        },
    }
}

/// What a message holds for the engine: the message of the index, and the namespace under
/// which the engine keeps its properties on it.
pub struct MessageView {
    pub inner: bindings::MessageView,
    pub namespace: Seq<char>,
}

/// The message once the cached tags `cached` that are not among `tags` are retired: each
/// leaves the cache of `mailbox` and the tags of the message.
pub open spec fn retired(
    message: bindings::MessageView,
    namespace: Seq<char>,
    mailbox: Seq<char>,
    cached: Seq<Seq<char>>,
    tags: Seq<Seq<char>>,
) -> bindings::MessageView
    decreases cached.len(),
{
    if cached.len() == 0 {
        message
    } else {
        let before = retired(message, namespace, mailbox, cached.drop_last(), tags);
        if tags.contains(cached.last()) {
            before
        } else {
            replaced(before, namespace, mailbox + ".tag"@, Some(cached.last()), None).without_tag(
                cached.last(),
            )
        }
    }
}

/// The message once the tags `tags` that are not among `cached` are adopted: each enters the
/// cache of `mailbox` and the tags of the message.
pub open spec fn adopted(
    message: bindings::MessageView,
    namespace: Seq<char>,
    mailbox: Seq<char>,
    tags: Seq<Seq<char>>,
    cached: Seq<Seq<char>>,
) -> bindings::MessageView
    decreases tags.len(),
{
    if tags.len() == 0 {
        message
    } else {
        let before = adopted(message, namespace, mailbox, tags.drop_last(), cached);
        if cached.contains(tags.last()) {
            before
        } else {
            replaced(
                before,
                namespace,
                mailbox + ".tag"@,
                Some(tags.last()),
                Some(tags.last()),
            ).with_tag(tags.last())
        }
    }
}

impl MessageView {
    /// Nothing stands twice among the tags, nor among the properties.
    pub open spec fn wf(self) -> bool {
        self.inner.wf()
    }

    /// The mailboxes in which the engine knows the message.
    pub open spec fn mailboxes(self) -> Seq<Seq<char>> {
        values_of(self.inner, self.namespace, "mailbox"@)
    }

    /// The tags on which the engine and the server agreed for `mailbox`.
    pub open spec fn cached_tags(self, mailbox: Seq<char>) -> Seq<Seq<char>> {
        values_of(self.inner, self.namespace, mailbox + ".tag"@)
    }

    /// The identifier of the message in `mailbox`.
    pub open spec fn uid(self, mailbox: Seq<char>) -> Result<u64, Error> {
        number_at(self.inner, self.namespace, mailbox + ".uid"@, None)
    }

    /// The mod-sequence of the message in `mailbox`.
    pub open spec fn modseq(self, mailbox: Seq<char>) -> Result<u64, Error> {
        number_at(self.inner, self.namespace, mailbox + ".modseq"@, None)
    }

    /// The UIDVALIDITY under which the message is known in `mailbox`.
    pub open spec fn uidvalidity(self, mailbox: Seq<char>) -> Result<u64, Error> {
        number_at(self.inner, self.namespace, mailbox + ".uidvalidity"@, None)
    }

    /// Whether the message is known in `mailbox` under `uidvalidity` with another identifier
    /// than `uid`: the index then holds two copies of it, of which only one can be kept track
    /// of. It is an error where the message is known in `mailbox` under a UIDVALIDITY that
    /// cannot be read, or under `uidvalidity` with an identifier that is missing or cannot
    /// be read.
    pub open spec fn duplicate(self, mailbox: Seq<char>, uidvalidity: u64, uid: u64) -> Result<
        bool,
        Error,
    > {
        match value_of(self.inner, self.namespace, mailbox + ".uidvalidity"@) {
            None => Ok(false),
            Some(value) => match text::number_of(value) {
                None => Err(Error::InvalidProperty),
                Some(current) => if current == uidvalidity {
                    match self.uid(mailbox) {
                        Ok(known) => Ok(known != uid),
                        Err(error) => Err(error),
                    }
                } else {
                    Ok(false)
                },
            },
        }
    }

    /// The message once it is known in `mailbox` under `uid`: the marker and the mailbox are
    /// on it, the three numbers replace those it had for `mailbox`, and the cached tags and
    /// the tags of the message follow `tags`.
    pub open spec fn remembered(
        self,
        mailbox: Seq<char>,
        uidvalidity: u64,
        uid: u64,
        modseq: u64,
        tags: Seq<Seq<char>>,
    ) -> MessageView {
        let ns = self.namespace;
        let a = replaced(self.inner, ns, "marker"@, None, Some(MESSAGE_MARKER@));
        let b = replaced(a, ns, "mailbox"@, Some(mailbox), Some(mailbox));
        let c = replaced(
            b,
            ns,
            mailbox + ".uidvalidity"@,
            None,
            Some(text::digits_of(uidvalidity as nat)),
        );
        let d = replaced(c, ns, mailbox + ".uid"@, None, Some(text::digits_of(uid as nat)));
        let e = replaced(d, ns, mailbox + ".modseq"@, None, Some(text::digits_of(modseq as nat)));
        let cached = values_of(e, ns, mailbox + ".tag"@);
        let f = retired(e, ns, mailbox, cached, tags);
        MessageView { inner: adopted(f, ns, mailbox, tags, cached), ..self }
    }

    /// The message once it is no longer known in `mailbox`: the mailbox and what was kept for
    /// it go, and so does the marker where nothing else of the engine is left.
    pub open spec fn forgotten(self, mailbox: Seq<char>) -> MessageView {
        let ns = self.namespace;
        let a = replaced(self.inner, ns, "mailbox"@, Some(mailbox), None);
        let b = replaced(a, ns, mailbox + ".uidvalidity"@, None, None);
        let c = replaced(b, ns, mailbox + ".uid"@, None, None);
        let d = replaced(c, ns, mailbox + ".modseq"@, None, None);
        let e = replaced(d, ns, mailbox + ".tag"@, None, None);
        if bindings::under_prefix(e.properties, ns + "."@).len() == 1 {
            MessageView { inner: replaced(e, ns, "marker"@, None, None), ..self }
        } else {
            MessageView { inner: e, ..self }
        }
    }
}

/// A message that the engine keeps track of.
#[derive(Debug)]
pub struct Message {
    inner: bindings::Message,
    namespace: String,
}

impl View for Message {
    type V = MessageView;

    closed spec fn view(&self) -> MessageView {
        MessageView { inner: self.inner@, namespace: self.namespace@ }
    }
}

impl Message {
    /// The message `inner` of the index, seen by the engine that works under `namespace`.
    pub fn new(inner: bindings::Message, namespace: &str) -> (r: Message)
        ensures
            r@ == (MessageView { inner: inner@, namespace: namespace@ }),
    {
        Message { inner, namespace: String::from_str(namespace) }
    }

    /// The message of the index, with the changes made to it on record.
    pub fn into_inner(self) -> (r: bindings::Message)
        ensures
            r@ == self@.inner,
    {
        self.inner
    }

    /// The identifier of the message in the index.
    pub fn message_id(&self) -> (r: &str)
        ensures
            r@ == self@.inner.id,
    {
        self.inner.id()
    }

    /// The mailboxes in which the engine knows the message.
    pub fn mailboxes(&self) -> (r: Vec<String>)
        ensures
            strs(r@) == self@.mailboxes(),
    {
        properties(&self.inner, self.namespace.as_str(), "mailbox")
    }

    /// The identifier of the message in `mailbox`.
    pub fn uid(&self, mailbox: &str) -> (r: Result<u64, Error>)
        ensures
            r == self@.uid(mailbox@),
    {
        let name = text::join(mailbox, ".uid");
        number(&self.inner, self.namespace.as_str(), name.as_str(), None)
    }

    /// The mod-sequence at which the message last changed in `mailbox`, as far as known here.
    pub fn modseq(&self, mailbox: &str) -> (r: Result<u64, Error>)
        ensures
            r == self@.modseq(mailbox@),
    {
        let name = text::join(mailbox, ".modseq");
        number(&self.inner, self.namespace.as_str(), name.as_str(), None)
    }

    /// The paths of the files that carry the message.
    pub fn paths(&self) -> (r: Vec<String>)
        ensures
            strs(r@) == self@.inner.paths,
    {
        self.inner.paths()
    }

    /// The tags on which the engine and the server agreed for `mailbox`.
    pub fn cached_tags(&self, mailbox: &str) -> (r: Vec<String>)
        ensures
            strs(r@) == self@.cached_tags(mailbox@),
    {
        let name = text::join(mailbox, ".tag");
        properties(&self.inner, self.namespace.as_str(), name.as_str())
    }

    /// The tags of the message.
    pub fn tags(&self) -> (r: Vec<String>)
        ensures
            strs(r@) == self@.inner.tags,
    {
        self.inner.tags()
    }

    /// Whether the message is known in `mailbox` under `uidvalidity` with another identifier
    /// than `uid`, or the error that what is on record of the message in `mailbox` cannot be
    /// read.
    pub fn has_duplicate(&self, mailbox: &str, uidvalidity: u64, uid: u64) -> (r: Result<bool, Error>)
        ensures
            r == self@.duplicate(mailbox@, uidvalidity, uid),
    {
        let name = text::join(mailbox, ".uidvalidity");
        match property(&self.inner, self.namespace.as_str(), name.as_str()) {
            None => Ok(false),
            Some(value) => match text::parse_u64(value.as_str()) {
                None => Err(Error::InvalidProperty),
                Some(current) => if current == uidvalidity {
                    match self.uid(mailbox) {
                        Ok(known) => Ok(known != uid),
                        Err(error) => Err(error),
                    }
                } else {
                    Ok(false)
                },
            },
        }
    }

    /// Forgets that the message is in `mailbox`.
    pub fn remove_mailbox_properties(&mut self, mailbox: &str)
        requires
            old(self)@.wf(),
        ensures
            final(self)@.wf(),
            final(self)@ == old(self)@.forgotten(mailbox@),
    {
        let uidvalidity = text::join(mailbox, ".uidvalidity");
        let uid = text::join(mailbox, ".uid");
        let modseq = text::join(mailbox, ".modseq");
        let tag = text::join(mailbox, ".tag");
        replace_property(&mut self.inner, self.namespace.as_str(), "mailbox", Some(mailbox), None);
        replace_property(&mut self.inner, self.namespace.as_str(), uidvalidity.as_str(), None, None);
        replace_property(&mut self.inner, self.namespace.as_str(), uid.as_str(), None, None);
        replace_property(&mut self.inner, self.namespace.as_str(), modseq.as_str(), None, None);
        replace_property(&mut self.inner, self.namespace.as_str(), tag.as_str(), None, None);
        let prefix = text::join(self.namespace.as_str(), ".");
        let left = self.inner.properties(prefix.as_str(), false);
        if left.len() == 1 {
            replace_property(&mut self.inner, self.namespace.as_str(), "marker", None, None);
        }
    }

    /// Records that the message is in `mailbox` under `uid`, at `modseq`, with `tags`, and
    /// tells whether the message was known there under another identifier. Where what is on
    /// record of the message in `mailbox` cannot be read, that is an error, and nothing is
    /// recorded.
    pub fn update_mailbox_properties(
        &mut self,
        mailbox: &str,
        uidvalidity: u64,
        uid: u64,
        modseq: u64,
        tags: &Vec<String>,
    ) -> (r: Result<bool, Error>)
        requires
            old(self)@.wf(),
        ensures
            final(self)@.wf(),
            r == old(self)@.duplicate(mailbox@, uidvalidity, uid),
            final(self)@ == (if r is Ok {
                old(self)@.remembered(mailbox@, uidvalidity, uid, modseq, strs(tags@))
            } else {
                old(self)@
            }),
    {
        let duplicate = self.has_duplicate(mailbox, uidvalidity, uid)?;
        let uidvalidity_name = text::join(mailbox, ".uidvalidity");
        let uid_name = text::join(mailbox, ".uid");
        let modseq_name = text::join(mailbox, ".modseq");
        let tag_name = text::join(mailbox, ".tag");
        let uidvalidity_value = text::decimal(uidvalidity);
        let uid_value = text::decimal(uid);
        let modseq_value = text::decimal(modseq);
        replace_property(
            &mut self.inner,
            self.namespace.as_str(),
            "marker",
            None,
            Some(MESSAGE_MARKER),
        );
        replace_property(
            &mut self.inner,
            self.namespace.as_str(),
            "mailbox",
            Some(mailbox),
            Some(mailbox),
        );
        replace_property(
            &mut self.inner,
            self.namespace.as_str(),
            uidvalidity_name.as_str(),
            None,
            Some(uidvalidity_value.as_str()),
        );
        replace_property(
            &mut self.inner,
            self.namespace.as_str(),
            uid_name.as_str(),
            None,
            Some(uid_value.as_str()),
        );
        replace_property(
            &mut self.inner,
            self.namespace.as_str(),
            modseq_name.as_str(),
            None,
            Some(modseq_value.as_str()),
        );
        let cached = properties(&self.inner, self.namespace.as_str(), tag_name.as_str());
        let ghost start = self.inner@;
        let mut i: usize = 0;
        assert(strs(cached@).subrange(0, 0) =~= Seq::<Seq<char>>::empty());
        while i < cached.len()
            invariant
                i <= cached.len(),
                self.inner@.wf(),
                self.namespace@ == old(self).namespace@,
                tag_name@ == mailbox@ + ".tag"@,
                self.inner@ == retired(
                    start,
                    self.namespace@,
                    mailbox@,
                    strs(cached@).subrange(0, i as int),
                    strs(tags@),
                ),
            decreases cached.len() - i,
        {
            proof {
                let next = strs(cached@).subrange(0, i + 1);
                assert(next.drop_last() =~= strs(cached@).subrange(0, i as int));
                assert(next.last() == cached@[i as int]@);
            }
            if !text::contains(tags, cached[i].as_str()) {
                replace_property(
                    &mut self.inner,
                    self.namespace.as_str(),
                    tag_name.as_str(),
                    Some(cached[i].as_str()),
                    None,
                );
                self.inner.remove_tag(cached[i].as_str());
            }
            i += 1;
        }
        assert(strs(cached@).subrange(0, cached@.len() as int) =~= strs(cached@));
        let ghost middle = self.inner@;
        let mut i: usize = 0;
        assert(strs(tags@).subrange(0, 0) =~= Seq::<Seq<char>>::empty());
        while i < tags.len()
            invariant
                i <= tags.len(),
                self.inner@.wf(),
                self.namespace@ == old(self).namespace@,
                tag_name@ == mailbox@ + ".tag"@,
                self.inner@ == adopted(
                    middle,
                    self.namespace@,
                    mailbox@,
                    strs(tags@).subrange(0, i as int),
                    strs(cached@),
                ),
            decreases tags.len() - i,
        {
            proof {
                let next = strs(tags@).subrange(0, i + 1);
                assert(next.drop_last() =~= strs(tags@).subrange(0, i as int));
                assert(next.last() == tags@[i as int]@);
            }
            if !text::contains(&cached, tags[i].as_str()) {
                replace_property(
                    &mut self.inner,
                    self.namespace.as_str(),
                    tag_name.as_str(),
                    Some(tags[i].as_str()),
                    Some(tags[i].as_str()),
                );
                self.inner.add_tag(tags[i].as_str());
            }
            i += 1;
        }
        assert(strs(tags@).subrange(0, tags@.len() as int) =~= strs(tags@));
        Ok(duplicate)
    }

    /// Asks the index to rename the files of the message after its tags.
    pub fn tags_to_maildir_flags(&mut self)
        ensures
            final(self)@ == (MessageView {
                inner: old(self)@.inner.noted(bindings::ChangeView::TagsToMaildirFlags),
                ..old(self)@
            }),
    {
        self.inner.tags_to_maildir_flags();
    }
}

} // verus!
