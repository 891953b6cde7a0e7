//! The root message: the message of the index on which the engine keeps what it knows of
//! the mailboxes.
use vstd::prelude::*;
use vstd::string::{StrSliceExecFns, StringExecFns};
use crate::error::Error;
use crate::notmuch::bindings;
use crate::notmuch::{number, number_at, properties, property, replace_property, replaced, value_of, values_of, ROOT_MARKER};
use crate::text;
use crate::text::strs;

verus! {

/// Where the first `@` stands in `id`, or the length of `id` where none does.
pub open spec fn at_sign(id: Seq<char>, from: int) -> int
    decreases id.len() - from,
{
    if from < 0 || from >= id.len() {
        id.len() as int
    } else if id[from] == '@' {
        from
    } else {
        at_sign(id, from + 1)
    }
}

/// The number in front of the first `@` of the identifier of a root message.
pub open spec fn root_id(id: Seq<char>) -> Result<u64, Error> {
    if at_sign(id, 0) < id.len() {
        match text::number_of(id.subrange(0, at_sign(id, 0))) {
            Some(n) => Ok(n),
            None => Err(Error::InvalidProperty),
        }
    } else {
        Err(Error::InvalidProperty)
    }
}

/// What the root message holds: the message of the index, and the namespace of the engine.
pub struct RootView {
    pub inner: bindings::MessageView,
    pub namespace: Seq<char>,
}

/// The string of the one character `c`, if there is one.
pub open spec fn char_of(c: Option<char>) -> Option<Seq<char>> {
    match c {
        Some(c) => Some(seq![c]),
        None => None,
    }
}

impl RootView {
    /// Nothing stands twice among the tags, nor among the properties.
    pub open spec fn wf(self) -> bool {
        self.inner.wf()
    }

    /// The root message once it is marked as such: it carries the tag that hides it from the
    /// searches of the user, and the marker.
    pub open spec fn set_up(self) -> RootView {
        RootView {
            inner: replaced(
                self.inner.with_tag(self.namespace + ".internal"@),
                self.namespace,
                "marker"@,
                None,
                Some(ROOT_MARKER@),
            ),
            ..self
        }
    }

    /// The mailboxes on record.
    pub open spec fn mailboxes(self) -> Seq<Seq<char>> {
        values_of(self.inner, self.namespace, "mailbox"@)
    }

    /// The UIDVALIDITY and the HIGHESTMODSEQ on record for `mailbox`, 0 for what is not.
    pub open spec fn validity(self, mailbox: Seq<char>) -> Result<(u64, u64), Error> {
        match number_at(self.inner, self.namespace, mailbox + ".uidvalidity"@, Some(0)) {
            Ok(uidvalidity) => match number_at(
                self.inner,
                self.namespace,
                mailbox + ".highestmodseq"@,
                Some(0),
            ) {
                Ok(highestmodseq) => Ok((uidvalidity, highestmodseq)),
                Err(error) => Err(error),
            },
            Err(error) => Err(error),
        }
    }

    /// The hierarchy separator on record for `mailbox`.
    pub open spec fn separator(self, mailbox: Seq<char>) -> Result<Option<char>, Error> {
        match value_of(self.inner, self.namespace, mailbox + ".separator"@) {
            Some(value) => if value.len() > 0 {
                Ok(Some(value[0]))
            } else {
                Err(Error::InvalidProperty)
            },
            None => Ok(None),
        }
    }

    /// The revision of the index that the last push left.
    pub open spec fn lastmod(self) -> Result<u64, Error> {
        number_at(self.inner, self.namespace, "lastmod"@, Some(0))
    }

    /// The root message once `mailbox` is on record with these values.
    pub open spec fn remembered(
        self,
        mailbox: Seq<char>,
        separator: Option<char>,
        uidvalidity: u64,
        highestmodseq: u64,
    ) -> RootView {
        let ns = self.namespace;
        let a = replaced(self.inner, ns, "mailbox"@, Some(mailbox), Some(mailbox));
        let b = replaced(a, ns, mailbox + ".separator"@, None, char_of(separator));
        let c = replaced(
            b,
            ns,
            mailbox + ".uidvalidity"@,
            None,
            Some(text::digits_of(uidvalidity as nat)),
        );
        RootView {
            inner: replaced(
                c,
                ns,
                mailbox + ".highestmodseq"@,
                None,
                Some(text::digits_of(highestmodseq as nat)),
            ),
            ..self
        }
    }

    /// The root message once `mailbox` is off the record.
    pub open spec fn forgotten(self, mailbox: Seq<char>) -> RootView {
        let ns = self.namespace;
        let a = replaced(self.inner, ns, "mailbox"@, Some(mailbox), None);
        let b = replaced(a, ns, mailbox + ".uidvalidity"@, None, None);
        let c = replaced(b, ns, mailbox + ".highestmodseq"@, None, None);
        RootView { inner: replaced(c, ns, mailbox + ".separator"@, None, None), ..self }
    }
}

/// The message of the index on which the engine keeps what it knows of the mailboxes.
#[derive(Debug)]
pub struct RootMessage {
    inner: bindings::Message,
    namespace: String,
}

impl View for RootMessage {
    type V = RootView;

    closed spec fn view(&self) -> RootView {
        RootView { inner: self.inner@, namespace: self.namespace@ }
    }
}

impl RootMessage {
    /// The message `inner` of the index as the root message of the engine that works under
    /// `namespace`.
    pub fn new(inner: bindings::Message, namespace: &str) -> (r: RootMessage)
        ensures
            r@ == (RootView { inner: inner@, namespace: namespace@ }),
    {
        RootMessage { inner, namespace: String::from_str(namespace) }
    }

    /// The message of the index, with the changes made to it on record.
    pub fn into_inner(self) -> (r: bindings::Message)
        ensures
            r@ == self@.inner,
    {
        self.inner
    }

    /// Marks the message as the root message.
    pub fn setup(&mut self)
        requires
            old(self)@.wf(),
        ensures
            final(self)@.wf(),
            final(self)@ == old(self)@.set_up(),
    {
        let tag = text::join(self.namespace.as_str(), ".internal");
        self.inner.add_tag(tag.as_str());
        replace_property(&mut self.inner, self.namespace.as_str(), "marker", None, Some(ROOT_MARKER));
    }

    /// The number of the root message `message`, which its identifier starts with.
    pub fn inner_id(message: &bindings::Message) -> (r: Result<u64, Error>)
        ensures
            r == root_id(message@.id),
    {
        let id = message.id();
        let len = id.unicode_len();
        let mut at: usize = 0;
        while at < len && id.get_char(at) != '@'
            invariant
                at <= len,
                len == id@.len(),
                at_sign(id@, 0) == at_sign(id@, at as int),
            decreases len - at,
        {
            at += 1;
        }
        if at < len {
            match text::parse_u64(id.substring_char(0, at)) {
                Some(n) => Ok(n),
                None => Err(Error::InvalidProperty),
            }
        } else {
            Err(Error::InvalidProperty)
        }
    }

    /// The number of this root message.
    pub fn id(&self) -> (r: Result<u64, Error>)
        ensures
            r == root_id(self@.inner.id),
    {
        RootMessage::inner_id(&self.inner)
    }

    /// The UIDVALIDITY and the HIGHESTMODSEQ on record for `mailbox`, 0 for what is not.
    pub fn validity(&self, mailbox: &str) -> (r: Result<(u64, u64), Error>)
        ensures
            r == self@.validity(mailbox@),
    {
        let uidvalidity_name = text::join(mailbox, ".uidvalidity");
        let highestmodseq_name = text::join(mailbox, ".highestmodseq");
        let uidvalidity = number(
            &self.inner,
            self.namespace.as_str(),
            uidvalidity_name.as_str(),
            Some(0),
        )?;
        let highestmodseq = number(
            &self.inner,
            self.namespace.as_str(),
            highestmodseq_name.as_str(),
            Some(0),
        )?;
        Ok((uidvalidity, highestmodseq))
    }

    /// Puts `mailbox` on record with these values.
    pub fn update_mailbox_properties(
        &mut self,
        mailbox: &str,
        separator: Option<char>,
        uidvalidity: u64,
        highestmodseq: u64,
    )
        requires
            old(self)@.wf(),
        ensures
            final(self)@.wf(),
            final(self)@ == old(self)@.remembered(mailbox@, separator, uidvalidity, highestmodseq),
    {
        let separator_name = text::join(mailbox, ".separator");
        let uidvalidity_name = text::join(mailbox, ".uidvalidity");
        let highestmodseq_name = text::join(mailbox, ".highestmodseq");
        let uidvalidity_value = text::decimal(uidvalidity);
        let highestmodseq_value = text::decimal(highestmodseq);
        replace_property(
            &mut self.inner,
            self.namespace.as_str(),
            "mailbox",
            Some(mailbox),
            Some(mailbox),
        );
        match separator {
            Some(c) => {
                let mut value = String::new();
                text::push(&mut value, c);
                assert(value@ =~= seq![c]);
                replace_property(
                    &mut self.inner,
                    self.namespace.as_str(),
                    separator_name.as_str(),
                    None,
                    Some(value.as_str()),
                );
            },
            None => {
                replace_property(
                    &mut self.inner,
                    self.namespace.as_str(),
                    separator_name.as_str(),
                    None,
                    None,
                );
            },
        }
        replace_property(
            &mut self.inner,
            self.namespace.as_str(),
            uidvalidity_name.as_str(),
            None,
            Some(uidvalidity_value.as_str()),
        );
        replace_property(
            &mut self.inner,
            self.namespace.as_str(),
            highestmodseq_name.as_str(),
            None,
            Some(highestmodseq_value.as_str()),
        );
    }

    /// The revision of the index that the last push left, 0 before the first.
    pub fn lastmod(&self) -> (r: Result<u64, Error>)
        ensures
            r == self@.lastmod(),
    {
        number(&self.inner, self.namespace.as_str(), "lastmod", Some(0))
    }

    /// Records the revision of the index that a push leaves.
    pub fn update_lastmod(&mut self, lastmod: u64)
        requires
            old(self)@.wf(),
        ensures
            final(self)@.wf(),
            final(self)@ == (RootView {
                inner: replaced(
                    old(self)@.inner,
                    old(self)@.namespace,
                    "lastmod"@,
                    None,
                    Some(text::digits_of(lastmod as nat)),
                ),
                ..old(self)@
            }),
    {
        let value = text::decimal(lastmod);
        replace_property(
            &mut self.inner,
            self.namespace.as_str(),
            "lastmod",
            None,
            Some(value.as_str()),
        );
    }

    /// Takes `mailbox` off the record.
    pub fn remove_mailbox_properties(&mut self, mailbox: &str)
        requires
            old(self)@.wf(),
        ensures
            final(self)@.wf(),
            final(self)@ == old(self)@.forgotten(mailbox@),
    {
        let uidvalidity = text::join(mailbox, ".uidvalidity");
        let highestmodseq = text::join(mailbox, ".highestmodseq");
        let separator = text::join(mailbox, ".separator");
        replace_property(&mut self.inner, self.namespace.as_str(), "mailbox", Some(mailbox), None);
        replace_property(&mut self.inner, self.namespace.as_str(), uidvalidity.as_str(), None, None);
        replace_property(
            &mut self.inner,
            self.namespace.as_str(),
            highestmodseq.as_str(),
            None,
            None,
        );
        replace_property(&mut self.inner, self.namespace.as_str(), separator.as_str(), None, None);
    }

    /// The mailboxes on record.
    pub fn mailboxes(&self) -> (r: Vec<String>)
        ensures
            strs(r@) == self@.mailboxes(),
    {
        properties(&self.inner, self.namespace.as_str(), "mailbox")
    }

    /// The hierarchy separator on record for `mailbox`.
    pub fn separator(&self, mailbox: &str) -> (r: Result<Option<char>, Error>)
        ensures
            r == self@.separator(mailbox@),
    {
        let name = text::join(mailbox, ".separator");
        match property(&self.inner, self.namespace.as_str(), name.as_str()) {
            Some(value) => if value.as_str().unicode_len() > 0 {
                Ok(Some(value.as_str().get_char(0)))
            } else {
                Err(Error::InvalidProperty)
            },
            None => Ok(None),
        }
    }
}

} // verus!
