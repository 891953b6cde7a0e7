//! The maildir++ tree: which directory holds which mailbox, and which files are whose.
//!
//! INBOX is the root of the tree. Every other mailbox is a directory beside `cur`, `new` and
//! `tmp` of the root, named by a dot and the name of the mailbox, in which a dot stands for
//! each hierarchy separator.
use vstd::prelude::*;
use vstd::string::{StrSliceExecFns, StringExecFns};
use crate::error::Error;
use crate::text;

verus! {

/// What `std::path::Path::parent` gives for the path written `path`.
pub uninterp spec fn path_parent(path: Seq<char>) -> Option<Seq<char>>;

/// What `std::path::Path::file_name` gives for the path written `path`.
pub uninterp spec fn path_file_name(path: Seq<char>) -> Option<Seq<char>>;

/// What `std::path::Path::join` gives for the paths written `base` and `part`.
pub uninterp spec fn path_join(base: Seq<char>, part: Seq<char>) -> Seq<char>;

/// Whether `std::path::Path` takes the paths written `a` and `b` for equal.
pub uninterp spec fn path_same(a: Seq<char>, b: Seq<char>) -> bool;

/// `std::path::Path::parent`: the path without its last component, if it has one to lose.
#[verifier::external_body]
fn parent(path: &str) -> (r: Option<String>)
    ensures
        text::string_of(r) == path_parent(path@),
{
    match std::path::Path::new(path).parent() {
        Some(parent) => parent.to_str().map(String::from),
        None => None,
    }
}

/// `std::path::Path::file_name`: the last component of the path, if it is a name.
#[verifier::external_body]
pub(crate) fn file_name(path: &str) -> (r: Option<String>)
    ensures
        text::string_of(r) == path_file_name(path@),
{
    match std::path::Path::new(path).file_name() {
        Some(name) => name.to_str().map(String::from),
        None => None,
    }
}

/// `std::path::Path::join`: `part` put under `base`.
#[verifier::external_body]
pub(crate) fn join(base: &str, part: &str) -> (r: String)
    ensures
        r@ == path_join(base@, part@),
{
    std::path::Path::new(base).join(part).to_string_lossy().into_owned()
}

/// `std::path::Path::eq`: whether two paths have the same components.
#[verifier::external_body]
pub(crate) fn same(a: &str, b: &str) -> (r: bool)
    ensures
        r == path_same(a@, b@),
{
    std::path::Path::new(a) == std::path::Path::new(b)
}

/// `name` with a dot in place of each `separator`.
pub open spec fn flattened(name: Seq<char>, separator: char) -> Seq<char> {
    Seq::new(
        name.len(),
        |i: int|
            if name[i] == separator {
                '.'
            } else {
                name[i]
            },
    )
}

/// The name of the directory of the mailbox `mailbox`, which is not INBOX.
pub open spec fn directory(mailbox: Seq<char>, separator: Option<char>) -> Seq<char> {
    match separator {
        Some(separator) => "."@ + flattened(mailbox, separator),
        None => "."@ + mailbox,
    }
}

/// The maildir of `mailbox` under the tree at `tree`.
pub open spec fn maildir_of(tree: Seq<char>, mailbox: Seq<char>, separator: Option<char>) -> MaildirView {
    if mailbox == "INBOX"@ {
        MaildirView { path: tree, root: true }
    } else {
        MaildirView { path: path_join(tree, directory(mailbox, separator)), root: false }
    }
}

/// The three paths of a message in a maildir: the maildir, the directory in it, the file.
pub open spec fn components_of(path: Seq<char>) -> Result<[Seq<char>; 3], Error> {
    match path_parent(path) {
        Some(parent) => match path_parent(parent) {
            Some(grandparent) => Ok([grandparent, parent, path]),
            None => Err(Error::InvalidPath),
        },
        None => Err(Error::InvalidPath),
    }
}

/// The names of three paths.
pub open spec fn names_of(paths: [Seq<char>; 3]) -> Result<[Seq<char>; 3], Error> {
    match (path_file_name(paths[0]), path_file_name(paths[1]), path_file_name(paths[2])) {
        (Some(grandparent), Some(parent), Some(file)) => Ok([grandparent, parent, file]),
        _ => Err(Error::InvalidPath),
    }
}

/// Where a maildir++ tree lies.
#[derive(Clone, Debug)]
pub struct Builder {
    path: String,
}

impl View for Builder {
    type V = Seq<char>;

    closed spec fn view(&self) -> Seq<char> {
        self.path@
    }
}

/// What a [`Maildir`] denotes.
pub struct MaildirView {
    pub path: Seq<char>,
    /// Whether this is the root of the tree, the maildir of INBOX.
    pub root: bool,
}

impl MaildirView {
    /// The directory `name` of the maildir.
    pub open spec fn sub(self, name: Seq<char>) -> Seq<char> {
        path_join(self.path, name)
    }

    /// Whether the file at `path` lies in `cur`, `new` or `tmp` of the maildir.
    pub open spec fn has(self, path: Seq<char>) -> bool {
        match path_parent(path) {
            Some(parent) => path_same(self.sub("cur"@), parent) || path_same(self.sub("new"@), parent)
                || path_same(self.sub("tmp"@), parent),
            None => false,
        }
    }

    /// The path of the file `name` in `tmp`.
    pub open spec fn tmp(self, name: Seq<char>) -> Seq<char> {
        path_join(self.sub("tmp"@), name)
    }
}

/// The maildir of one mailbox.
#[derive(Clone, Debug)]
pub struct Maildir {
    path: String,
    root: bool,
}

impl View for Maildir {
    type V = MaildirView;

    closed spec fn view(&self) -> MaildirView {
        MaildirView { path: self.path@, root: self.root }
    }
}

impl Builder {
    /// The tree at `path`.
    pub fn new(path: &str) -> (r: Builder)
        ensures
            r@ == path@,
    {
        Builder { path: String::from_str(path) }
    }

    /// Where the tree lies.
    pub fn path(&self) -> (r: &str)
        ensures
            r@ == self@,
    {
        self.path.as_str()
    }

    /// The maildir of `mailbox`, whose hierarchy separator is `separator`.
    pub fn maildir(&self, mailbox: &str, separator: &Option<char>) -> (r: Maildir)
        ensures
            r@ == maildir_of(self@, mailbox@, *separator),
    {
        if text::equal(mailbox, "INBOX") {
            return Maildir { path: self.path.clone(), root: true };
        }
        let mut name = String::from_str(".");
        match separator {
            Some(separator) => {
                let len = mailbox.unicode_len();
                let mut i: usize = 0;
                while i < len
                    invariant
                        i <= len,
                        len == mailbox@.len(),
                        name@ == "."@ + flattened(mailbox@, *separator).subrange(0, i as int),
                    decreases len - i,
                {
                    let c = mailbox.get_char(i);
                    if c == *separator {
                        text::push(&mut name, '.');
                    } else {
                        text::push(&mut name, c);
                    }
                    assert(name@ =~= "."@ + flattened(mailbox@, *separator).subrange(0, i + 1));
                    i += 1;
                }
                assert(flattened(mailbox@, *separator).subrange(0, len as int) =~= flattened(
                    mailbox@,
                    *separator,
                ));
            },
            None => {
                name.append(mailbox);
            },
        }
        Maildir { path: join(self.path.as_str(), name.as_str()), root: false }
    }
}

impl Maildir {
    /// The maildir at `path`.
    pub fn new(path: &str, root: bool) -> (r: Maildir)
        ensures
            r@ == (MaildirView { path: path@, root }),
    {
        Maildir { path: String::from_str(path), root }
    }

    /// Whether this is the root of the tree, the maildir of INBOX.
    pub fn root(&self) -> (r: bool)
        ensures
            r == self@.root,
    {
        self.root
    }

    /// Where the maildir lies.
    pub fn path(&self) -> (r: &str)
        ensures
            r@ == self@.path,
    {
        self.path.as_str()
    }

    /// Whether the file at `path` lies in `cur`, `new` or `tmp` of this maildir.
    pub fn has(&self, path: &str) -> (r: bool)
        ensures
            r == self@.has(path@),
    {
        match parent(path) {
            Some(parent) => {
                let cur = join(self.path.as_str(), "cur");
                let new = join(self.path.as_str(), "new");
                let tmp = join(self.path.as_str(), "tmp");
                same(cur.as_str(), parent.as_str()) || same(new.as_str(), parent.as_str()) || same(
                    tmp.as_str(),
                    parent.as_str(),
                )
            },
            None => false,
        }
    }

    /// The path of the file `name` in `tmp`, where a message is staged under a name that
    /// another run can find again.
    pub fn tmp_named(&self, name: &str) -> (r: String)
        ensures
            r@ == self@.tmp(name@),
    {
        let tmp = join(self.path.as_str(), "tmp");
        join(tmp.as_str(), name)
    }

    /// The path of the file `name` in `tmp` where the file there has `size` bytes, `found`
    /// being its size if there is one: a message staged by an earlier run is complete only
    /// then.
    pub fn tmp_named_with_size(&self, name: &str, size: u64, found: Option<u64>) -> (r: Option<
        String,
    >)
        ensures
            text::string_of(r) == (if found == Some(size) {
                Some(self@.tmp(name@))
            } else {
                None
            }),
    {
        match found {
            Some(length) => if length == size {
                Some(self.tmp_named(name))
            } else {
                None
            },
            None => None,
        }
    }

    /// The path of a file in `tmp` under a name that was not used before, a random
    /// identifier: the name holds no colon, and so no flags.
    pub fn tmp(&self) -> (r: String)
        ensures
            exists|name: Seq<char>|
                text::is_identifier(name) && !name.contains(':') && r@ == #[trigger] self@.tmp(
                    name,
                ),
    {
        proof {
            assert forall|name: Seq<char>| text::is_identifier(name) implies !name.contains(
                ':',
            ) by {
                text::lemma_identifier_is_plain(name);
            }
        }
        let name = text::unique();
        self.tmp_named(name.as_str())
    }
}

/// The three paths of a message in a maildir: the maildir, the directory in it, the file.
pub fn components(path: &str) -> (r: Result<[String; 3], Error>)
    ensures
        match r {
            Ok(paths) => components_of(path@) == Ok::<[Seq<char>; 3], Error>(
                [paths[0]@, paths[1]@, paths[2]@],
            ),
            Err(error) => components_of(path@) == Err::<[Seq<char>; 3], Error>(error),
        },
{
    match parent(path) {
        Some(parent_path) => match parent(parent_path.as_str()) {
            Some(grandparent) => Ok([grandparent, parent_path, String::from_str(path)]),
            None => Err(Error::InvalidPath),
        },
        None => Err(Error::InvalidPath),
    }
}

/// The names of the three paths of a message: of the maildir, of the directory, of the file.
pub fn components_to_str(directories: &[String; 3]) -> (r: Result<[String; 3], Error>)
    ensures
        match r {
            Ok(names) => names_of([directories[0]@, directories[1]@, directories[2]@]) == Ok::<
                [Seq<char>; 3],
                Error,
            >([names[0]@, names[1]@, names[2]@]),
            Err(error) => names_of([directories[0]@, directories[1]@, directories[2]@]) == Err::<
                [Seq<char>; 3],
                Error,
            >(error),
        },
{
    let file = file_name(directories[2].as_str());
    let parent = file_name(directories[1].as_str());
    let grandparent = file_name(directories[0].as_str());
    match (grandparent, parent, file) {
        (Some(grandparent), Some(parent), Some(file)) => Ok([grandparent, parent, file]),
        _ => Err(Error::InvalidPath),
    }
}

} // verus!
