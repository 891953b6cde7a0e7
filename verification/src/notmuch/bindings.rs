//! A message of the index as plain values: its identifier, its paths, its tags and its
//! properties, with the record of every change made to them.
//!
//! The index keeps the tags of a message as a set of strings and its properties as a set of
//! pairs of a key and a value, so a key may have several values. A `Message` holds both as
//! lists in which nothing stands twice.
use vstd::prelude::*;
use crate::text;
use crate::text::{distinct, strs};

verus! {

/// The status with which the index refuses to open a database whose files it cannot read.
pub const STATUS_FILE_ERROR: u32 = 4;

/// The status with which the index refuses to open a database that is not there.
pub const STATUS_NO_DATABASE: u32 = 20;

/// What the index answers when it fails.
#[derive(Clone, Copy, Debug, PartialEq, Eq, Structural)]
pub enum Error {
    /// The status that the index gave.
    Status(u32),
    /// The index gave a string that is not UTF-8.
    UTF8,
}

impl Error {
    /// Whether the index found no database.
    pub fn no_database(&self) -> (r: bool)
        ensures
            r == (*self == Error::Status(STATUS_NO_DATABASE)),
    {
        match self {
            Error::Status(status) => *status == STATUS_NO_DATABASE,
            Error::UTF8 => false,
        }
    }

    /// Whether the index could not read a file.
    pub fn file_error(&self) -> (r: bool)
        ensures
            r == (*self == Error::Status(STATUS_FILE_ERROR)),
    {
        match self {
            Error::Status(status) => *status == STATUS_FILE_ERROR,
            Error::UTF8 => false,
        }
    }
}

/// One change to a message, as the index has to be told of it.
#[derive(Clone, Debug, PartialEq, Eq)]
pub enum Change {
    AddTag(String),
    RemoveTag(String),
    AddProperty(String, String),
    RemoveProperty(String, String),
    RemoveAllProperties(String),
    RemoveAllPropertiesWithPrefix(String),
    TagsToMaildirFlags,
}

/// What a [`Change`] denotes.
pub enum ChangeView {
    AddTag(Seq<char>),
    RemoveTag(Seq<char>),
    AddProperty(Seq<char>, Seq<char>),
    RemoveProperty(Seq<char>, Seq<char>),
    RemoveAllProperties(Seq<char>),
    RemoveAllPropertiesWithPrefix(Seq<char>),
    TagsToMaildirFlags,
}

impl View for Change {
    type V = ChangeView;

    open spec fn view(&self) -> ChangeView {
        match self {
            Change::AddTag(tag) => ChangeView::AddTag(tag@),
            Change::RemoveTag(tag) => ChangeView::RemoveTag(tag@),
            Change::AddProperty(key, value) => ChangeView::AddProperty(key@, value@),
            Change::RemoveProperty(key, value) => ChangeView::RemoveProperty(key@, value@),
            Change::RemoveAllProperties(key) => ChangeView::RemoveAllProperties(key@),
            Change::RemoveAllPropertiesWithPrefix(prefix) => ChangeView::RemoveAllPropertiesWithPrefix(
                prefix@,
            ),
            Change::TagsToMaildirFlags => ChangeView::TagsToMaildirFlags,
        }
    }
}

/// The changes that `v` holds.
pub open spec fn changes(v: Seq<Change>) -> Seq<ChangeView> {
    Seq::new(v.len(), |i: int| v[i]@)
}

/// The pairs that `v` holds.
pub open spec fn pairs(v: Seq<(String, String)>) -> Seq<(Seq<char>, Seq<char>)> {
    Seq::new(v.len(), |i: int| (v[i].0@, v[i].1@))
}

/// No pair stands twice in `list`.
pub open spec fn distinct_pairs(list: Seq<(Seq<char>, Seq<char>)>) -> bool {
    forall|i: int, j: int| 0 <= i < j < list.len() ==> list[i] != list[j]
}

/// `s` begins with `prefix`.
pub open spec fn begins(s: Seq<char>, prefix: Seq<char>) -> bool {
    text::begins(s, prefix)
}

/// The elements of `list` that `keep` holds of, in their order.
pub open spec fn kept<T>(list: Seq<T>, keep: spec_fn(T) -> bool) -> Seq<T>
    decreases list.len(),
{
    if list.len() == 0 {
        list
    } else if keep(list.last()) {
        kept(list.drop_last(), keep).push(list.last())
    } else {
        kept(list.drop_last(), keep)
    }
}

/// `list` with `item` at its end, unless it holds `item` already.
pub open spec fn with<T>(list: Seq<T>, item: T) -> Seq<T> {
    if list.contains(item) {
        list
    } else {
        list.push(item)
    }
}

/// Holds of what is not `item`.
pub open spec fn is_other<T>(item: T) -> spec_fn(T) -> bool {
    |other: T| other != item
}

/// Holds of the pairs other than that of `key` and `value`.
pub open spec fn is_other_pair(key: Seq<char>, value: Seq<char>) -> spec_fn(
    (Seq<char>, Seq<char>),
) -> bool {
    |pair: (Seq<char>, Seq<char>)| pair != (key, value)
}

/// Holds of the pairs under `key`.
pub open spec fn is_under(key: Seq<char>) -> spec_fn((Seq<char>, Seq<char>)) -> bool {
    |pair: (Seq<char>, Seq<char>)| pair.0 == key
}

/// Holds of the pairs whose key begins with `prefix`.
pub open spec fn is_under_prefix(prefix: Seq<char>) -> spec_fn((Seq<char>, Seq<char>)) -> bool {
    |pair: (Seq<char>, Seq<char>)| begins(pair.0, prefix)
}

/// Holds of the pairs under another key than `key`.
pub open spec fn is_off(key: Seq<char>) -> spec_fn((Seq<char>, Seq<char>)) -> bool {
    |pair: (Seq<char>, Seq<char>)| pair.0 != key
}

/// Holds of the pairs whose key does not begin with `prefix`.
pub open spec fn is_off_prefix(prefix: Seq<char>) -> spec_fn((Seq<char>, Seq<char>)) -> bool {
    |pair: (Seq<char>, Seq<char>)| !begins(pair.0, prefix)
}

/// `list` without `item`.
pub open spec fn without<T>(list: Seq<T>, item: T) -> Seq<T> {
    kept(list, is_other(item))
}

/// The properties other than the pair of `key` and `value`.
pub open spec fn without_pair(
    properties: Seq<(Seq<char>, Seq<char>)>,
    key: Seq<char>,
    value: Seq<char>,
) -> Seq<(Seq<char>, Seq<char>)> {
    kept(properties, is_other_pair(key, value))
}

/// The properties under `key`.
pub open spec fn under(
    properties: Seq<(Seq<char>, Seq<char>)>,
    key: Seq<char>,
) -> Seq<(Seq<char>, Seq<char>)> {
    kept(properties, is_under(key))
}

/// The properties whose key begins with `prefix`.
pub open spec fn under_prefix(
    properties: Seq<(Seq<char>, Seq<char>)>,
    prefix: Seq<char>,
) -> Seq<(Seq<char>, Seq<char>)> {
    kept(properties, is_under_prefix(prefix))
}

/// The properties under another key than `key`.
pub open spec fn except(
    properties: Seq<(Seq<char>, Seq<char>)>,
    key: Seq<char>,
) -> Seq<(Seq<char>, Seq<char>)> {
    kept(properties, is_off(key))
}

/// The properties whose key does not begin with `prefix`.
pub open spec fn except_prefix(
    properties: Seq<(Seq<char>, Seq<char>)>,
    prefix: Seq<char>,
) -> Seq<(Seq<char>, Seq<char>)> {
    kept(properties, is_off_prefix(prefix))
}

/// The values of the pairs.
pub open spec fn values(properties: Seq<(Seq<char>, Seq<char>)>) -> Seq<Seq<char>> {
    Seq::new(properties.len(), |i: int| properties[i].1)
}

/// What `kept` keeps: an element is in the result where it is in the list and `keep` holds of
/// it.
pub proof fn lemma_kept_contains<T>(list: Seq<T>, keep: spec_fn(T) -> bool, item: T)
    ensures
        kept(list, keep).contains(item) <==> list.contains(item) && keep(item),
    decreases list.len(),
{
    if list.len() > 0 {
        lemma_kept_contains(list.drop_last(), keep, item);
        let rest = kept(list.drop_last(), keep);
        if list.contains(item) {
            let i = choose|i: int| 0 <= i < list.len() && list[i] == item;
            if i < list.len() - 1 {
                assert(list.drop_last()[i] == item);
            }
        }
        if list.drop_last().contains(item) {
            let i = choose|i: int| 0 <= i < list.drop_last().len() && list.drop_last()[i] == item;
            assert(list[i] == item);
        }
        if keep(list.last()) {
            assert(rest.push(list.last()).last() == list.last());
            if rest.contains(item) {
                let i = choose|i: int| 0 <= i < rest.len() && rest[i] == item;
                assert(rest.push(list.last())[i] == item);
            }
            if rest.push(list.last()).contains(item) {
                let i = choose|i: int|
                    0 <= i < rest.push(list.last()).len() && rest.push(list.last())[i] == item;
                if i < rest.len() {
                    assert(rest[i] == item);
                }
            }
        }
        assert(list.last() == list[list.len() - 1]);
    }
}

/// What `with` holds: what the list held, and the item.
pub proof fn lemma_with_contains<T>(list: Seq<T>, item: T, other: T)
    ensures
        with(list, item).contains(other) <==> list.contains(other) || other == item,
{
    if list.contains(item) {
    } else {
        let after = list.push(item);
        assert(after[list.len() as int] == item);
        if list.contains(other) {
            let i = choose|i: int| 0 <= i < list.len() && list[i] == other;
            assert(after[i] == other);
        }
        if after.contains(other) {
            let i = choose|i: int| 0 <= i < after.len() && after[i] == other;
            if i < list.len() {
                assert(list[i] == other);
            }
        }
    }
}

/// `kept` keeps the order, so what stood once stands once.
pub proof fn lemma_kept_distinct<T>(list: Seq<T>, keep: spec_fn(T) -> bool)
    requires
        forall|i: int, j: int| 0 <= i < j < list.len() ==> list[i] != list[j],
    ensures
        forall|i: int, j: int|
            0 <= i < j < kept(list, keep).len() ==> kept(list, keep)[i] != kept(list, keep)[j],
    decreases list.len(),
{
    if list.len() > 0 {
        let front = list.drop_last();
        assert forall|i: int, j: int| 0 <= i < j < front.len() implies front[i] != front[j] by {
            assert(front[i] == list[i] && front[j] == list[j]);
        }
        lemma_kept_distinct(front, keep);
        let rest = kept(front, keep);
        if keep(list.last()) {
            assert forall|i: int, j: int| 0 <= i < j < rest.push(list.last()).len() implies rest.push(
                list.last(),
            )[i] != rest.push(list.last())[j] by {
                if j == rest.len() {
                    lemma_kept_contains(front, keep, rest[i]);
                    assert(rest.contains(rest[i]));
                    let k = choose|k: int| 0 <= k < front.len() && front[k] == rest[i];
                    assert(list[k] == rest[i]);
                    assert(list[list.len() - 1] == list.last());
                }
            }
        }
    }
}

/// What a message of the index holds.
pub struct MessageView {
    pub id: Seq<char>,
    pub paths: Seq<Seq<char>>,
    pub tags: Seq<Seq<char>>,
    pub properties: Seq<(Seq<char>, Seq<char>)>,
    /// The changes made since the message was read from the index, the first one first.
    pub changes: Seq<ChangeView>,
}

impl MessageView {
    /// Nothing stands twice among the tags, nor among the properties.
    pub open spec fn wf(self) -> bool {
        distinct(self.tags) && distinct_pairs(self.properties)
    }

    /// The message once `change` is on record.
    pub open spec fn noted(self, change: ChangeView) -> MessageView {
        MessageView { changes: self.changes.push(change), ..self }
    }

    /// The message once `tag` is on it.
    pub open spec fn with_tag(self, tag: Seq<char>) -> MessageView {
        MessageView { tags: with(self.tags, tag), ..self }.noted(ChangeView::AddTag(tag))
    }

    /// The message once `tag` is off it.
    pub open spec fn without_tag(self, tag: Seq<char>) -> MessageView {
        MessageView { tags: without(self.tags, tag), ..self }.noted(ChangeView::RemoveTag(tag))
    }

    /// The message once it has the property.
    pub open spec fn with_property(self, key: Seq<char>, value: Seq<char>) -> MessageView {
        MessageView { properties: with(self.properties, (key, value)), ..self }.noted(
            ChangeView::AddProperty(key, value),
        )
    }

    /// The message once it has not the property.
    pub open spec fn without_property(self, key: Seq<char>, value: Seq<char>) -> MessageView {
        MessageView { properties: without_pair(self.properties, key, value), ..self }.noted(
            ChangeView::RemoveProperty(key, value),
        )
    }

    /// The message once it has no property under `key`.
    pub open spec fn without_properties(self, key: Seq<char>) -> MessageView {
        MessageView { properties: except(self.properties, key), ..self }.noted(
            ChangeView::RemoveAllProperties(key),
        )
    }

    /// The message once it has no property whose key begins with `prefix`.
    pub open spec fn without_prefix(self, prefix: Seq<char>) -> MessageView {
        MessageView { properties: except_prefix(self.properties, prefix), ..self }.noted(
            ChangeView::RemoveAllPropertiesWithPrefix(prefix),
        )
    }
}

/// A message of the index.
#[derive(Clone, Debug)]
pub struct Message {
    id: String,
    paths: Vec<String>,
    tags: Vec<String>,
    properties: Vec<(String, String)>,
    changes: Vec<Change>,
}

impl View for Message {
    type V = MessageView;

    closed spec fn view(&self) -> MessageView {
        MessageView {
            id: self.id@,
            paths: strs(self.paths@),
            tags: strs(self.tags@),
            properties: pairs(self.properties@),
            changes: changes(self.changes@),
        }
    }
}

/// The strings of `list` other than `item`.
fn strings_without(list: &Vec<String>, item: &str) -> (r: Vec<String>)
    ensures
        strs(r@) == without(strs(list@), item@),
{
    let mut out: Vec<String> = Vec::new();
    let mut i: usize = 0;
    assert(strs(list@).subrange(0, 0) =~= Seq::<Seq<char>>::empty());
    assert(strs(out@) =~= Seq::<Seq<char>>::empty());
    while i < list.len()
        invariant
            i <= list.len(),
            strs(out@) == without(strs(list@).subrange(0, i as int), item@),
        decreases list.len() - i,
    {
        let ghost before = strs(out@);
        proof {
            let next = strs(list@).subrange(0, i + 1);
            assert(next.drop_last() =~= strs(list@).subrange(0, i as int));
            assert(next.last() == list@[i as int]@);
        }
        if !text::equal(list[i].as_str(), item) {
            out.push(list[i].clone());
            assert(strs(out@) =~= before.push(list@[i as int]@));
        }
        i += 1;
    }
    assert(strs(list@).subrange(0, list@.len() as int) =~= strs(list@));
    out
}

/// Which pairs a selection takes.
enum Selection<'a> {
    Under(&'a str),
    UnderPrefix(&'a str),
    Except(&'a str),
    ExceptPrefix(&'a str),
    Without(&'a str, &'a str),
}

impl<'a> Selection<'a> {
    spec fn keeps(self) -> spec_fn((Seq<char>, Seq<char>)) -> bool {
        match self {
            Selection::Under(key) => is_under(key@),
            Selection::UnderPrefix(prefix) => is_under_prefix(prefix@),
            Selection::Except(key) => is_off(key@),
            Selection::ExceptPrefix(prefix) => is_off_prefix(prefix@),
            Selection::Without(key, value) => is_other_pair(key@, value@),
        }
    }

    fn takes(&self, pair: &(String, String)) -> (r: bool)
        ensures
            r == (self.keeps())((pair.0@, pair.1@)),
    {
        match self {
            Selection::Under(key) => text::equal(pair.0.as_str(), key),
            Selection::UnderPrefix(prefix) => text::starts_with(pair.0.as_str(), prefix),
            Selection::Except(key) => !text::equal(pair.0.as_str(), key),
            Selection::ExceptPrefix(prefix) => !text::starts_with(pair.0.as_str(), prefix),
            Selection::Without(key, value) => !(text::equal(pair.0.as_str(), key) && text::equal(
                pair.1.as_str(),
                value,
            )),
        }
    }
}

/// The pairs of `list` that `selection` takes.
fn select(list: &Vec<(String, String)>, selection: &Selection<'_>) -> (r: Vec<(String, String)>)
    ensures
        pairs(r@) == kept(pairs(list@), selection.keeps()),
{
    let mut out: Vec<(String, String)> = Vec::new();
    let mut i: usize = 0;
    assert(pairs(list@).subrange(0, 0) =~= Seq::<(Seq<char>, Seq<char>)>::empty());
    assert(pairs(out@) =~= Seq::<(Seq<char>, Seq<char>)>::empty());
    while i < list.len()
        invariant
            i <= list.len(),
            pairs(out@) == kept(pairs(list@).subrange(0, i as int), selection.keeps()),
        decreases list.len() - i,
    {
        let ghost before = pairs(out@);
        proof {
            let next = pairs(list@).subrange(0, i + 1);
            assert(next.drop_last() =~= pairs(list@).subrange(0, i as int));
            assert(next.last() == (list@[i as int].0@, list@[i as int].1@));
        }
        if selection.takes(&list[i]) {
            out.push((list[i].0.clone(), list[i].1.clone()));
            assert(pairs(out@) =~= before.push((list@[i as int].0@, list@[i as int].1@)));
        }
        i += 1;
    }
    assert(pairs(list@).subrange(0, list@.len() as int) =~= pairs(list@));
    out
}

/// Whether `list` holds the pair of `key` and `value`.
fn holds(list: &Vec<(String, String)>, key: &str, value: &str) -> (r: bool)
    ensures
        r == pairs(list@).contains((key@, value@)),
{
    let mut i: usize = 0;
    while i < list.len()
        invariant
            i <= list.len(),
            forall|j: int| 0 <= j < i ==> pairs(list@)[j] != (key@, value@),
        decreases list.len() - i,
    {
        if text::equal(list[i].0.as_str(), key) && text::equal(list[i].1.as_str(), value) {
            assert(pairs(list@)[i as int] == (key@, value@));
            return true;
        }
        i += 1;
    }
    false
}

impl Message {
    /// A message as it was read from the index. A tag or a property given twice is taken once.
    pub fn new(
        id: String,
        paths: Vec<String>,
        tags: Vec<String>,
        properties: Vec<(String, String)>,
    ) -> (r: Message)
        ensures
            r@.wf(),
            r@.id == id@,
            r@.paths == strs(paths@),
            r@.changes == Seq::<ChangeView>::empty(),
            forall|tag: Seq<char>| r@.tags.contains(tag) <==> strs(tags@).contains(tag),
            forall|pair: (Seq<char>, Seq<char>)|
                r@.properties.contains(pair) <==> pairs(properties@).contains(pair),
            distinct(strs(tags@)) ==> r@.tags == strs(tags@),
            distinct_pairs(pairs(properties@)) ==> r@.properties == pairs(properties@),
    {
        let mut once: Vec<String> = Vec::new();
        let mut i: usize = 0;
        assert(strs(once@) =~= strs(tags@).subrange(0, 0));
        while i < tags.len()
            invariant
                i <= tags.len(),
                distinct(strs(once@)),
                forall|tag: Seq<char>|
                    strs(once@).contains(tag) <==> strs(tags@).subrange(0, i as int).contains(tag),
                distinct(strs(tags@)) ==> strs(once@) == strs(tags@).subrange(0, i as int),
            decreases tags.len() - i,
        {
            let ghost before = strs(once@);
            let ghost seen = strs(tags@).subrange(0, i as int);
            let ghost next = strs(tags@).subrange(0, i + 1);
            proof {
                assert(next =~= seen.push(tags@[i as int]@));
            }
            if !text::contains(&once, tags[i].as_str()) {
                once.push(tags[i].clone());
                assert(strs(once@) =~= before.push(tags@[i as int]@));
            } else {
                proof {
                    assert(seen.contains(tags@[i as int]@));
                    if distinct(strs(tags@)) {
                        let j = choose|j: int| 0 <= j < seen.len() && seen[j] == tags@[i as int]@;
                        assert(strs(tags@)[j] == strs(tags@)[i as int]);
                    }
                }
            }
            proof {
                assert forall|tag: Seq<char>| strs(once@).contains(tag) <==> next.contains(
                    tag,
                ) by {
                    if next.contains(tag) {
                        let j = choose|j: int| 0 <= j < next.len() && next[j] == tag;
                        if j < i {
                            assert(seen[j] == tag);
                        }
                    }
                    if seen.contains(tag) {
                        let j = choose|j: int| 0 <= j < seen.len() && seen[j] == tag;
                        assert(next[j] == tag);
                    }
                    if before.contains(tag) {
                        let j = choose|j: int| 0 <= j < before.len() && before[j] == tag;
                        assert(strs(once@)[j] == tag);
                    }
                    if strs(once@).contains(tag) && !before.contains(tag) {
                        let j = choose|j: int| 0 <= j < strs(once@).len() && strs(once@)[j] == tag;
                        if j < before.len() {
                            assert(before[j] == tag);
                        }
                        assert(next[i as int] == tag);
                    }
                    if tag == tags@[i as int]@ {
                        assert(next[i as int] == tag);
                        if !before.contains(tag) {
                            assert(strs(once@)[before.len() as int] == tag);
                        }
                    }
                }
            }
            i += 1;
        }
        assert(strs(tags@).subrange(0, tags@.len() as int) =~= strs(tags@));
        let mut single: Vec<(String, String)> = Vec::new();
        let mut i: usize = 0;
        assert(pairs(single@) =~= pairs(properties@).subrange(0, 0));
        while i < properties.len()
            invariant
                i <= properties.len(),
                distinct_pairs(pairs(single@)),
                forall|pair: (Seq<char>, Seq<char>)|
                    pairs(single@).contains(pair) <==> pairs(properties@).subrange(
                        0,
                        i as int,
                    ).contains(pair),
                distinct_pairs(pairs(properties@)) ==> pairs(single@) == pairs(
                    properties@,
                ).subrange(0, i as int),
            decreases properties.len() - i,
        {
            let ghost before = pairs(single@);
            let ghost seen = pairs(properties@).subrange(0, i as int);
            let ghost next = pairs(properties@).subrange(0, i + 1);
            let ghost this = (properties@[i as int].0@, properties@[i as int].1@);
            proof {
                assert(next =~= seen.push(this));
            }
            if !holds(&single, properties[i].0.as_str(), properties[i].1.as_str()) {
                single.push((properties[i].0.clone(), properties[i].1.clone()));
                assert(pairs(single@) =~= before.push(this));
            } else {
                proof {
                    assert(seen.contains(this));
                    if distinct_pairs(pairs(properties@)) {
                        let j = choose|j: int| 0 <= j < seen.len() && seen[j] == this;
                        assert(pairs(properties@)[j] == pairs(properties@)[i as int]);
                    }
                }
            }
            proof {
                assert forall|pair: (Seq<char>, Seq<char>)|
                    pairs(single@).contains(pair) <==> next.contains(pair) by {
                    if next.contains(pair) {
                        let j = choose|j: int| 0 <= j < next.len() && next[j] == pair;
                        if j < i {
                            assert(seen[j] == pair);
                        }
                    }
                    if seen.contains(pair) {
                        let j = choose|j: int| 0 <= j < seen.len() && seen[j] == pair;
                        assert(next[j] == pair);
                    }
                    if before.contains(pair) {
                        let j = choose|j: int| 0 <= j < before.len() && before[j] == pair;
                        assert(pairs(single@)[j] == pair);
                    }
                    if pairs(single@).contains(pair) && !before.contains(pair) {
                        let j = choose|j: int|
                            0 <= j < pairs(single@).len() && pairs(single@)[j] == pair;
                        if j < before.len() {
                            assert(before[j] == pair);
                        }
                        assert(next[i as int] == pair);
                    }
                    if pair == this {
                        assert(next[i as int] == pair);
                        if !before.contains(pair) {
                            assert(pairs(single@)[before.len() as int] == pair);
                        }
                    }
                }
            }
            i += 1;
        }
        assert(pairs(properties@).subrange(0, properties@.len() as int) =~= pairs(properties@));
        let r = Message { id, paths, tags: once, properties: single, changes: Vec::new() };
        assert(r@.changes =~= Seq::<ChangeView>::empty());
        r
    }

    /// The identifier of the message.
    pub fn id(&self) -> (r: &str)
        ensures
            r@ == self@.id,
    {
        self.id.as_str()
    }

    /// The paths of the files that carry the message.
    pub fn paths(&self) -> (r: Vec<String>)
        ensures
            strs(r@) == self@.paths,
    {
        let r = self.paths.clone();
        assert(strs(r@) =~= strs(self.paths@));
        r
    }

    /// The tags of the message.
    pub fn tags(&self) -> (r: Vec<String>)
        ensures
            strs(r@) == self@.tags,
    {
        let r = self.tags.clone();
        assert(strs(r@) =~= strs(self.tags@));
        r
    }

    /// The properties under `key`, or, unless `exact`, under any key that begins with `key`.
    pub fn properties(&self, key: &str, exact: bool) -> (r: Vec<(String, String)>)
        ensures
            pairs(r@) == (if exact {
                under(self@.properties, key@)
            } else {
                under_prefix(self@.properties, key@)
            }),
    {
        if exact {
            select(&self.properties, &Selection::Under(key))
        } else {
            select(&self.properties, &Selection::UnderPrefix(key))
        }
    }

    /// The changes made so far, which are then no longer on record.
    pub fn take_changes(&mut self) -> (r: Vec<Change>)
        ensures
            changes(r@) == old(self)@.changes,
            final(self)@ == (MessageView { changes: Seq::empty(), ..old(self)@ }),
    {
        let mut taken: Vec<Change> = Vec::new();
        std::mem::swap(&mut self.changes, &mut taken);
        assert(changes(self.changes@) =~= Seq::<ChangeView>::empty());
        taken
    }

    /// Puts `tag` on the message.
    pub fn add_tag(&mut self, tag: &str)
        requires
            old(self)@.wf(),
        ensures
            final(self)@.wf(),
            final(self)@ == old(self)@.with_tag(tag@),
    {
        let ghost before = strs(self.tags@);
        let ghost noted = changes(self.changes@);
        if !text::contains(&self.tags, tag) {
            self.tags.push(String::from_str(tag));
            assert(strs(self.tags@) =~= before.push(tag@));
        }
        self.changes.push(Change::AddTag(String::from_str(tag)));
        assert(changes(self.changes@) =~= noted.push(ChangeView::AddTag(tag@)));
    }

    /// Takes `tag` off the message.
    pub fn remove_tag(&mut self, tag: &str)
        requires
            old(self)@.wf(),
        ensures
            final(self)@.wf(),
            final(self)@ == old(self)@.without_tag(tag@),
    {
        let ghost noted = changes(self.changes@);
        proof {
            lemma_kept_distinct(strs(self.tags@), is_other(tag@));
        }
        self.tags = strings_without(&self.tags, tag);
        self.changes.push(Change::RemoveTag(String::from_str(tag)));
        assert(changes(self.changes@) =~= noted.push(ChangeView::RemoveTag(tag@)));
    }

    /// Gives the message the property of `key` and `value`.
    pub fn add_property(&mut self, key: &str, value: &str)
        requires
            old(self)@.wf(),
        ensures
            final(self)@.wf(),
            final(self)@ == old(self)@.with_property(key@, value@),
    {
        let ghost before = pairs(self.properties@);
        let ghost noted = changes(self.changes@);
        if !holds(&self.properties, key, value) {
            self.properties.push((String::from_str(key), String::from_str(value)));
            assert(pairs(self.properties@) =~= before.push((key@, value@)));
        }
        self.changes.push(Change::AddProperty(String::from_str(key), String::from_str(value)));
        assert(changes(self.changes@) =~= noted.push(ChangeView::AddProperty(key@, value@)));
    }

    /// Takes the property of `key` and `value` off the message.
    pub fn remove_property(&mut self, key: &str, value: &str)
        requires
            old(self)@.wf(),
        ensures
            final(self)@.wf(),
            final(self)@ == old(self)@.without_property(key@, value@),
    {
        let ghost noted = changes(self.changes@);
        proof {
            lemma_kept_distinct(pairs(self.properties@), is_other_pair(key@, value@));
        }
        self.properties = select(&self.properties, &Selection::Without(key, value));
        self.changes.push(Change::RemoveProperty(String::from_str(key), String::from_str(value)));
        assert(changes(self.changes@) =~= noted.push(ChangeView::RemoveProperty(key@, value@)));
    }

    /// Takes every property under `key` off the message.
    pub fn remove_all_properties(&mut self, key: &str)
        requires
            old(self)@.wf(),
        ensures
            final(self)@.wf(),
            final(self)@ == old(self)@.without_properties(key@),
    {
        let ghost noted = changes(self.changes@);
        proof {
            lemma_kept_distinct(pairs(self.properties@), is_off(key@));
        }
        self.properties = select(&self.properties, &Selection::Except(key));
        self.changes.push(Change::RemoveAllProperties(String::from_str(key)));
        assert(changes(self.changes@) =~= noted.push(ChangeView::RemoveAllProperties(key@)));
    }

    /// Takes every property whose key begins with `prefix` off the message.
    pub fn remove_all_properties_with_prefix(&mut self, prefix: &str)
        requires
            old(self)@.wf(),
        ensures
            final(self)@.wf(),
            final(self)@ == old(self)@.without_prefix(prefix@),
    {
        let ghost noted = changes(self.changes@);
        proof {
            lemma_kept_distinct(pairs(self.properties@), is_off_prefix(prefix@));
        }
        self.properties = select(&self.properties, &Selection::ExceptPrefix(prefix));
        self.changes.push(Change::RemoveAllPropertiesWithPrefix(String::from_str(prefix)));
        assert(changes(self.changes@) =~= noted.push(
            ChangeView::RemoveAllPropertiesWithPrefix(prefix@),
        ));
    }

    /// Asks the index to rename the files of the message after its tags.
    pub fn tags_to_maildir_flags(&mut self)
        ensures
            final(self)@ == old(self)@.noted(ChangeView::TagsToMaildirFlags),
    {
        let ghost noted = changes(self.changes@);
        self.changes.push(Change::TagsToMaildirFlags);
        assert(changes(self.changes@) =~= noted.push(ChangeView::TagsToMaildirFlags));
    }
}

} // verus!
