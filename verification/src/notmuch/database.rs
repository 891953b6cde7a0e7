//! What a query found, and what is known of the database: where it lies, which engine works
//! on which maildir tree, and whether an atomic section is open.
use vstd::prelude::*;
use vstd::string::StringExecFns;
use crate::maildir;
use crate::notmuch::bindings;
use crate::notmuch::{dot, dotted, Message, MessageView, MESSAGE_MARKER, ROOT_MARKER};
use crate::text;

verus! {

/// The messages that a query found, in the order in which the index gave them.
pub struct MessagesView {
    pub left: Seq<bindings::MessageView>,
    pub namespace: Seq<char>,
}

/// What the messages in `v` hold.
pub open spec fn records(v: Seq<bindings::Message>) -> Seq<bindings::MessageView> {
    Seq::new(v.len(), |i: int| v[i]@)
}

/// The messages that a query found.
#[derive(Debug)]
pub struct Messages {
    inner: Option<Vec<bindings::Message>>,
    namespace: String,
}

impl View for Messages {
    type V = MessagesView;

    closed spec fn view(&self) -> MessagesView {
        MessagesView {
            left: match self.inner {
                Some(inner) => records(inner@),
                None => Seq::empty(),
            },
            namespace: self.namespace@,
        }
    }
}

impl MessagesView {
    /// Every message that is left is well formed.
    pub open spec fn wf(self) -> bool {
        forall|i: int| 0 <= i < self.left.len() ==> (#[trigger] self.left[i]).wf()
    }
}

impl Messages {
    /// No message at all: what a query finds that was not run.
    pub fn none() -> (r: Messages)
        ensures
            r@ == (MessagesView { left: Seq::empty(), namespace: Seq::empty() }),
            r@.wf(),
    {
        Messages { inner: None, namespace: String::new() }
    }

    /// The messages that a query of the engine under `namespace` found.
    pub fn new(found: Vec<bindings::Message>, namespace: &str) -> (r: Messages)
        ensures
            r@ == (MessagesView { left: records(found@), namespace: namespace@ }),
    {
        Messages { inner: Some(found), namespace: String::from_str(namespace) }
    }

    /// The next message, if one is left.
    pub fn next(&mut self) -> (r: Option<Message>)
        ensures
            match r {
                Some(message) => old(self)@.left.len() > 0 && message@ == (MessageView {
                    inner: old(self)@.left[0],
                    namespace: old(self)@.namespace,
                }) && final(self)@ == (MessagesView {
                    left: old(self)@.left.subrange(1, old(self)@.left.len() as int),
                    ..old(self)@
                }),
                None => old(self)@.left.len() == 0 && final(self)@ == old(self)@,
            },
            old(self)@.wf() ==> final(self)@.wf() && (r is Some ==> r->0@.wf()),
    {
        match &mut self.inner {
            Some(inner) => {
                if inner.len() > 0 {
                    let ghost before = records(inner@);
                    let first = inner.remove(0);
                    assert(records(inner@) =~= before.subrange(1, before.len() as int));
                    Some(Message { inner: first, namespace: self.namespace.clone() })
                } else {
                    None
                }
            },
            None => None,
        }
    }
}


/// A character that has the property White_Space of Unicode.
pub open spec fn is_white_space(c: char) -> bool {
    ('\u{9}' <= c && c <= '\u{d}') || c == ' ' || c == '\u{85}' || c == '\u{a0}' || c == '\u{1680}'
        || ('\u{2000}' <= c && c <= '\u{200a}') || c == '\u{2028}' || c == '\u{2029}' || c
        == '\u{202f}' || c == '\u{205f}' || c == '\u{3000}'
}

/// `s` without the white space at its two ends.
pub open spec fn trimmed(s: Seq<char>) -> Seq<char>
    decreases s.len(),
{
    if s.len() == 0 {
        s
    } else if is_white_space(s.first()) {
        trimmed(s.drop_first())
    } else if is_white_space(s.last()) {
        trimmed(s.drop_last())
    } else {
        s
    }
}

/// `str::trim`: the string without the white space at its two ends, white space being the
/// characters with the property White_Space of Unicode.
#[verifier::external_body]
fn trim(s: &str) -> (r: String)
    ensures
        r@ == trimmed(s@),
{
    s.trim().to_string()
}

/// A query that sets out with four spaces and a letter, and ends in a quotation mark, a
/// parenthesis, a dot or a slash, is run without its four spaces.
pub proof fn lemma_trimmed_of_query(query: Seq<char>)
    requires
        query.len() > 4,
        forall|i: int| 0 <= i < 4 ==> #[trigger] query[i] == ' ',
        'a' <= query[4] && query[4] <= 'z',
        query.last() == '"' || query.last() == ')' || query.last() == '.' || query.last() == '/',
    ensures
        trimmed(query) == query.subrange(4, query.len() as int),
{
    lemma_trimmed_of_indented(query, 4);
}

/// A string that is indented, and ends without white space, is trimmed of its indentation
/// and of nothing else.
pub proof fn lemma_trimmed_of_indented(s: Seq<char>, indent: int)
    requires
        0 <= indent < s.len(),
        forall|i: int| 0 <= i < indent ==> is_white_space(#[trigger] s[i]),
        !is_white_space(s[indent]),
        !is_white_space(s.last()),
    ensures
        trimmed(s) == s.subrange(indent, s.len() as int),
    decreases indent,
{
    if indent == 0 {
        assert(s.subrange(0, s.len() as int) =~= s);
    } else {
        let rest = s.drop_first();
        assert(rest.last() == s.last());
        assert forall|i: int| 0 <= i < indent - 1 implies is_white_space(#[trigger] rest[i]) by {
            assert(rest[i] == s[i + 1]);
        }
        lemma_trimmed_of_indented(rest, indent - 1);
        assert(rest.subrange(indent - 1, rest.len() as int) =~= s.subrange(
            indent,
            s.len() as int,
        ));
    }
}

/// What happens to an atomic section.
#[derive(Clone, Copy, Debug, PartialEq, Eq, Structural)]
pub enum Atomic {
    /// It is to be opened.
    Begin,
    /// What was done in it succeeded.
    Commit,
    /// What was done in it failed.
    Abort,
}

/// What to ask of the index for an atomic section.
#[derive(Clone, Copy, Debug, PartialEq, Eq, Structural)]
pub enum Step {
    /// To open the section.
    BeginAtomic,
    /// To close the section, and to open the database again so that what was done is kept.
    EndAtomicAndReopen,
    /// To open the database again, which drops what was done in the section.
    Reopen,
}

/// What to ask of the index on `event`.
pub open spec fn step_of(event: Atomic) -> Step {
    match event {
        Atomic::Begin => Step::BeginAtomic,
        Atomic::Commit => Step::EndAtomicAndReopen,
        Atomic::Abort => Step::Reopen,
    }
}

/// The number that a new root message takes: one more than the largest in use, 0 where none
/// is.
pub open spec fn claimed(ids: Seq<u64>) -> nat
    decreases ids.len(),
{
    if ids.len() == 0 {
        0
    } else if ids.last() + 1 > claimed(ids.drop_last()) {
        (ids.last() + 1) as nat
    } else {
        claimed(ids.drop_last())
    }
}

/// The numbers below `n` that are not in use, in rising order.
pub open spec fn unused_below(ids: Seq<u64>, n: nat) -> Seq<u64>
    decreases n,
{
    if n == 0 {
        Seq::empty()
    } else if ids.contains((n - 1) as u64) {
        unused_below(ids, (n - 1) as nat)
    } else {
        unused_below(ids, (n - 1) as nat).push((n - 1) as u64)
    }
}

/// The file of the root message number `id` of the engine under `namespace`.
pub open spec fn root_file(namespace: Seq<char>, id: u64) -> Seq<char> {
    "Subject: DO NOT REMOVE, THIS KEEPS TRACKS OF "@ + namespace + "'S INTERNAL STATE\nMessage-ID: "@
        + text::digits_of(id as nat) + "@"@ + namespace + "\n"@
}

/// The query for the root messages of the engine under `namespace`.
pub open spec fn roots_query(namespace: Seq<char>) -> Seq<char> {
    "property:"@ + namespace + ".marker="@ + ROOT_MARKER@
}

/// The prefix of the properties that the engine number `id` under `namespace` keeps.
pub open spec fn instance_prefix(namespace: Seq<char>, id: u64) -> Seq<char> {
    namespace + "."@ + text::digits_of(id as nat) + "."@
}

/// The query for the messages that the engine number `id` under `namespace` kept track of.
pub open spec fn leftovers_query(namespace: Seq<char>, id: u64) -> Seq<char> {
    "property:"@ + instance_prefix(namespace, id) + "marker="@ + MESSAGE_MARKER@
}

/// A database that no maildir is tied to yet.
#[derive(Clone, Debug)]
pub struct Detached {
    namespace: String,
}

/// A database tied to the maildir tree at `path`.
#[derive(Clone, Debug)]
pub struct Attached {
    detached: Detached,
    path: String,
    namespace: String,
}

/// What is known of the index: where it lies, its revision, and whether an atomic section is
/// open.
#[derive(Clone, Debug)]
pub struct Database<S> {
    path: String,
    lastmod: u64,
    transaction: bool,
    state: S,
}

/// A new root message: its number, the numbers whose leftovers are to be cleaned up, and the
/// text of its file.
#[derive(Clone, Debug)]
pub struct Claim {
    pub id: u64,
    pub unused: Vec<u64>,
    pub file: String,
}

fn in_use(ids: &Vec<u64>, n: u64) -> (r: bool)
    ensures
        r == ids@.contains(n),
{
    let mut i: usize = 0;
    while i < ids.len()
        invariant
            i <= ids.len(),
            forall|j: int| 0 <= j < i ==> ids@[j] != n,
        decreases ids.len() - i,
    {
        if ids[i] == n {
            return true;
        }
        i += 1;
    }
    false
}

impl<S> Database<S> {
    /// Where the database lies.
    pub closed spec fn spec_path(&self) -> Seq<char> {
        self.path@
    }

    /// The revision of the index, as it was last seen.
    pub closed spec fn spec_lastmod(&self) -> u64 {
        self.lastmod
    }

    /// Whether an atomic section is open.
    pub closed spec fn in_transaction(&self) -> bool {
        self.transaction
    }

    /// What the database is tied to.
    pub closed spec fn spec_state(&self) -> S {
        self.state
    }

    /// One step of an atomic section: it is opened, or what was done in it is kept or
    /// dropped. Gives what to ask of the index. A section cannot be opened inside another.
    pub fn transaction(&mut self, event: Atomic) -> (r: Step)
        requires
            event == Atomic::Begin ==> !old(self).in_transaction(),
        ensures
            r == step_of(event),
            final(self).in_transaction() == (event == Atomic::Begin),
            final(self).spec_path() == old(self).spec_path(),
            final(self).spec_lastmod() == old(self).spec_lastmod(),
            final(self).spec_state() == old(self).spec_state(),
    {
        match event {
            Atomic::Begin => {
                self.transaction = true;
                Step::BeginAtomic
            },
            Atomic::Commit => {
                self.transaction = false;
                Step::EndAtomicAndReopen
            },
            Atomic::Abort => {
                self.transaction = false;
                Step::Reopen
            },
        }
    }

    /// Whether an atomic section is open.
    pub fn is_atomic(&self) -> (r: bool)
        ensures
            r == self.in_transaction(),
    {
        self.transaction
    }

    /// Where the database lies.
    pub fn path(&self) -> (r: &str)
        ensures
            r@ == self.spec_path(),
    {
        self.path.as_str()
    }

    /// The revision of the index, as it was last seen.
    pub fn lastmod(&self) -> (r: u64)
        ensures
            r == self.spec_lastmod(),
    {
        self.lastmod
    }

    /// Takes note of the revision that the index has reached.
    pub fn refresh(&mut self, lastmod: u64)
        ensures
            final(self).spec_lastmod() == lastmod,
            final(self).spec_path() == old(self).spec_path(),
            final(self).in_transaction() == old(self).in_transaction(),
            final(self).spec_state() == old(self).spec_state(),
    {
        self.lastmod = lastmod;
    }
}

impl Database<Detached> {
    /// The namespace that all engines on this database share.
    pub closed spec fn spec_namespace(&self) -> Seq<char> {
        self.state.namespace@
    }

    /// The database at `path`, at the revision `lastmod`, for the engine under `namespace`.
    pub fn open(path: &str, namespace: &str, lastmod: u64) -> (r: Database<Detached>)
        ensures
            r.spec_path() == path@,
            r.spec_lastmod() == lastmod,
            !r.in_transaction(),
            r.spec_namespace() == namespace@,
    {
        Database {
            path: String::from_str(path),
            lastmod,
            transaction: false,
            state: Detached { namespace: String::from_str(namespace) },
        }
    }

    /// The namespace that all engines on this database share.
    pub fn namespace(&self) -> (r: &str)
        ensures
            r@ == self.spec_namespace(),
    {
        self.state.namespace.as_str()
    }

    /// The path of the file of the root message for the maildir tree at `maildir`.
    pub fn find(&self, maildir: &str) -> (r: String)
        ensures
            r@ == maildir::path_join(maildir@, self.spec_namespace()),
    {
        maildir::join(maildir, self.state.namespace.as_str())
    }

    /// The query for the root messages in use.
    pub fn roots(&self) -> (r: String)
        ensures
            r@ == roots_query(self.spec_namespace()),
    {
        let mut query = String::from_str("property:");
        query.append(self.state.namespace.as_str());
        query.append(".marker=");
        query.append(ROOT_MARKER);
        query
    }

    /// The query for what the engine number `id` left on the messages, and the prefix of the
    /// properties to strip from each.
    pub fn leftovers(&self, id: u64) -> (r: (String, String))
        ensures
            r.0@ == leftovers_query(self.spec_namespace(), id),
            r.1@ == instance_prefix(self.spec_namespace(), id),
    {
        let number = text::decimal(id);
        let mut prefix = String::from_str(self.state.namespace.as_str());
        prefix.append(".");
        prefix.append(number.as_str());
        prefix.append(".");
        let mut query = String::from_str("property:");
        query.append(prefix.as_str());
        query.append("marker=");
        query.append(MESSAGE_MARKER);
        (query, prefix)
    }

    /// A new root message, given the numbers `ids` of those in use: it takes the number
    /// behind the largest, and every number up to its own that is not in use may have left
    /// properties behind. None where no number is left.
    pub fn add(&self, ids: &Vec<u64>) -> (r: Option<Claim>)
        ensures
            match r {
                Some(claim) => claim.id == claimed(ids@) && claim.unused@ == unused_below(
                    ids@,
                    (claim.id + 1) as nat,
                ) && claim.file@ == root_file(self.spec_namespace(), claim.id),
                None => claimed(ids@) > u64::MAX,
            },
    {
        let mut id: u64 = 0;
        let mut over = false;
        let mut i: usize = 0;
        assert(ids@.subrange(0, 0) =~= Seq::<u64>::empty());
        while i < ids.len()
            invariant
                i <= ids.len(),
                over ==> claimed(ids@.subrange(0, i as int)) > u64::MAX,
                !over ==> id == claimed(ids@.subrange(0, i as int)),
            decreases ids.len() - i,
        {
            proof {
                let next = ids@.subrange(0, i + 1);
                assert(next.drop_last() =~= ids@.subrange(0, i as int));
                assert(next.last() == ids@[i as int]);
            }
            if ids[i] == u64::MAX {
                over = true;
            } else if !over && ids[i] + 1 > id {
                id = ids[i] + 1;
            }
            i += 1;
        }
        assert(ids@.subrange(0, ids@.len() as int) =~= ids@);
        if over {
            return None;
        }
        let mut unused: Vec<u64> = Vec::new();
        let mut n: u64 = 0;
        while n < id
            invariant
                n <= id,
                unused@ == unused_below(ids@, n as nat),
            decreases id - n,
        {
            if !in_use(ids, n) {
                unused.push(n);
            }
            n += 1;
        }
        if !in_use(ids, id) {
            unused.push(id);
        }
        let number = text::decimal(id);
        let mut file = String::from_str("Subject: DO NOT REMOVE, THIS KEEPS TRACKS OF ");
        file.append(self.state.namespace.as_str());
        file.append("'S INTERNAL STATE\nMessage-ID: ");
        file.append(number.as_str());
        file.append("@");
        file.append(self.state.namespace.as_str());
        file.append("\n");
        Some(Claim { id, unused, file })
    }

    /// Ties the database to the maildir tree at `path`, whose root message has the number
    /// `id`: the engine keeps its properties under its namespace, a dot and that number.
    pub fn attach(self, path: &str, id: u64) -> (r: Database<Attached>)
        ensures
            r.spec_path() == self.spec_path(),
            r.spec_lastmod() == self.spec_lastmod(),
            r.in_transaction() == self.in_transaction(),
            r.spec_root_namespace() == self.spec_namespace(),
            r.spec_namespace() == dotted(self.spec_namespace(), text::digits_of(id as nat)),
            r.spec_maildir() == path@,
    {
        let number = text::decimal(id);
        let namespace = dot(self.state.namespace.as_str(), number.as_str());
        Database {
            path: self.path,
            lastmod: self.lastmod,
            transaction: self.transaction,
            state: Attached { detached: self.state, path: String::from_str(path), namespace },
        }
    }
}

impl Database<Attached> {
    /// The namespace that all engines on this database share.
    pub closed spec fn spec_root_namespace(&self) -> Seq<char> {
        self.state.detached.namespace@
    }

    /// The namespace of this engine.
    pub closed spec fn spec_namespace(&self) -> Seq<char> {
        self.state.namespace@
    }

    /// The maildir tree that the database is tied to.
    pub closed spec fn spec_maildir(&self) -> Seq<char> {
        self.state.path@
    }

    /// The namespace that all engines on this database share.
    pub fn root_namespace(&self) -> (r: &str)
        ensures
            r@ == self.spec_root_namespace(),
    {
        self.state.detached.namespace.as_str()
    }

    /// The namespace of this engine.
    pub fn namespace(&self) -> (r: &str)
        ensures
            r@ == self.spec_namespace(),
    {
        self.state.namespace.as_str()
    }

    /// The query to run for `query`, which may be indented.
    pub fn query(&self, query: &str) -> (r: String)
        ensures
            r@ == trimmed(query@),
    {
        trim(query)
    }

    /// The path of the file of the root message.
    pub fn root(&self) -> (r: String)
        ensures
            r@ == maildir::path_join(self.spec_maildir(), self.spec_root_namespace()),
    {
        maildir::join(self.state.path.as_str(), self.state.detached.namespace.as_str())
    }

    /// The message that the index holds for the file that was added, seen by this engine.
    pub fn add(&self, indexed: bindings::Message) -> (r: Message)
        ensures
            r@ == (MessageView { inner: indexed@, namespace: self.spec_namespace() }),
    {
        Message::new(indexed, self.state.namespace.as_str())
    }
}

} // verus!
