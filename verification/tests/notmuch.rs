use sin::error::Error;
use sin::notmuch::bindings;
use sin::notmuch::bindings::{Change, STATUS_FILE_ERROR, STATUS_NO_DATABASE};
use sin::notmuch::{
    flags_to_tags, quote, tags_to_flags, Atomic, Database, Message, Messages, RootMessage, Step,
    MESSAGE_MARKER, ROOT_MARKER,
};

fn strings(list: &[&str]) -> Vec<String> {
    list.iter().map(|s| s.to_string()).collect()
}

fn sorted(mut list: Vec<String>) -> Vec<String> {
    list.sort();
    list
}

fn pairs(list: &[(&str, &str)]) -> Vec<(String, String)> {
    list.iter().map(|(k, v)| (k.to_string(), v.to_string())).collect()
}

fn email(id: &str, path: &str) -> bindings::Message {
    bindings::Message::new(id.to_string(), strings(&[path]), Vec::new(), Vec::new())
}

fn dump(message: &bindings::Message) -> Vec<(String, String)> {
    let mut all = message.properties("", false);
    all.sort();
    all
}

#[test]
fn quoting() {
    assert_eq!("folder with spaces", quote("folder with spaces"));
    assert_eq!(
        "folder with spaces and \"\"quotes\"\"",
        quote("folder with spaces and \"quotes\"")
    );
    assert_eq!("", quote(""));
    assert_eq!("\"\"\"\"", quote("\"\""));
}

#[test]
fn markers() {
    assert_eq!("root", ROOT_MARKER);
    assert_eq!("message", MESSAGE_MARKER);
}

#[test]
fn flags_to_tags_of_the_system_flags() {
    assert_eq!(strings(&["unread"]), flags_to_tags(&Vec::new()));
    assert!(flags_to_tags(&strings(&["\\Seen"])).is_empty());
    assert_eq!(
        strings(&["draft", "flagged", "replied"]),
        sorted(flags_to_tags(&strings(&[
            "\\Seen",
            "\\Answered",
            "\\Flagged",
            "\\Draft",
            "\\Deleted",
            "\\Recent"
        ])))
    );
    assert_eq!(
        strings(&["keyword", "unread"]),
        sorted(flags_to_tags(&strings(&["keyword", "keyword", "\\Deleted"])))
    );
}

#[test]
fn tags_to_flags_of_the_system_tags() {
    assert_eq!(strings(&["\\Seen"]), tags_to_flags(&Vec::new()));
    assert!(tags_to_flags(&strings(&["unread"])).is_empty());
    assert_eq!(
        strings(&["\\Answered", "\\Draft", "\\Flagged", "\\Seen", "keyword"]),
        sorted(tags_to_flags(&strings(&["replied", "flagged", "draft", "keyword"])))
    );
}

#[test]
fn tags_survive_a_round_trip() {
    for tags in [
        strings(&[]),
        strings(&["unread"]),
        strings(&["replied", "flagged", "draft"]),
        strings(&["unread", "replied", "inbox", "to-do", "Seen"]),
    ] {
        assert_eq!(
            sorted(tags.clone()),
            sorted(flags_to_tags(&tags_to_flags(&tags)))
        );
    }
}

#[test]
fn properties_are_a_set_of_pairs() {
    let mut message = bindings::Message::new(
        "id".to_string(),
        Vec::new(),
        strings(&["a", "b", "a"]),
        pairs(&[("k", "1"), ("k", "2"), ("k", "1"), ("kk", "3")]),
    );
    assert_eq!(strings(&["a", "b"]), message.tags());
    assert_eq!(pairs(&[("k", "1"), ("k", "2")]), message.properties("k", true));
    assert_eq!(
        pairs(&[("k", "1"), ("k", "2"), ("kk", "3")]),
        message.properties("k", false)
    );
    message.add_property("k", "2");
    message.add_property("k", "4");
    message.remove_property("k", "1");
    message.remove_property("k", "absent");
    assert_eq!(pairs(&[("k", "2"), ("k", "4")]), message.properties("k", true));
    message.remove_all_properties("k");
    assert_eq!(pairs(&[("kk", "3")]), message.properties("", false));
    message.add_property("other", "5");
    message.remove_all_properties_with_prefix("k");
    assert_eq!(pairs(&[("other", "5")]), message.properties("", false));
    message.add_tag("a");
    message.add_tag("c");
    message.remove_tag("b");
    assert_eq!(strings(&["a", "c"]), message.tags());
    assert_eq!(
        vec![
            Change::AddProperty("k".to_string(), "2".to_string()),
            Change::AddProperty("k".to_string(), "4".to_string()),
            Change::RemoveProperty("k".to_string(), "1".to_string()),
            Change::RemoveProperty("k".to_string(), "absent".to_string()),
            Change::RemoveAllProperties("k".to_string()),
            Change::AddProperty("other".to_string(), "5".to_string()),
            Change::RemoveAllPropertiesWithPrefix("k".to_string()),
            Change::AddTag("a".to_string()),
            Change::AddTag("c".to_string()),
            Change::RemoveTag("b".to_string()),
        ],
        message.take_changes()
    );
    assert!(message.take_changes().is_empty());
}

#[test]
fn simple() {
    let tags = strings(&["tag1", "tag2"]);
    let mut message = Message::new(email("id1", "/mail/cur/test1"), "test.0");
    message.update_mailbox_properties("INBOX", 0, 1, 2, &tags).unwrap();
    message.tags_to_maildir_flags();
    let mut inner = message.into_inner();
    assert_eq!(
        pairs(&[
            ("test.0.INBOX.modseq", "2"),
            ("test.0.INBOX.tag", "tag1"),
            ("test.0.INBOX.tag", "tag2"),
            ("test.0.INBOX.uid", "1"),
            ("test.0.INBOX.uidvalidity", "0"),
            ("test.0.mailbox", "INBOX"),
            ("test.0.marker", "message"),
        ]),
        dump(&inner)
    );
    assert_eq!(tags, inner.tags());
    assert_eq!(
        Some(&Change::TagsToMaildirFlags),
        inner.take_changes().last()
    );
}

#[test]
fn update_reads_back() {
    let mut message = Message::new(email("id", "/mail/cur/test"), "sin.0");
    assert_eq!(Err(Error::InvalidProperty), message.uid("INBOX"));
    assert_eq!(Err(Error::InvalidProperty), message.modseq("INBOX"));
    assert!(message.mailboxes().is_empty());
    message.update_mailbox_properties("INBOX", 1676645821, 1, 2, &strings(&["unread"])).unwrap();
    assert_eq!(Ok(1), message.uid("INBOX"));
    assert_eq!(Ok(2), message.modseq("INBOX"));
    assert_eq!(strings(&["INBOX"]), message.mailboxes());
    assert_eq!(strings(&["unread"]), message.cached_tags("INBOX"));
    assert_eq!(strings(&["unread"]), message.tags());
    assert_eq!("id", message.message_id());
    assert_eq!(strings(&["/mail/cur/test"]), message.paths());
    assert_eq!(Ok(false), message.has_duplicate("INBOX", 1676645821, 1));
    assert_eq!(Ok(true), message.has_duplicate("INBOX", 1676645821, 7));
    assert_eq!(Ok(false), message.has_duplicate("INBOX", 5, 7));
    assert_eq!(Ok(false), message.has_duplicate("other", 1676645821, 7));
}

#[test]
fn update_follows_the_tags() {
    let inner = bindings::Message::new(
        "id".to_string(),
        Vec::new(),
        strings(&["unread", "local", "old"]),
        pairs(&[("sin.0.INBOX.tag", "unread"), ("sin.0.INBOX.tag", "old"), ("other.key", "kept")]),
    );
    let mut message = Message::new(inner, "sin.0");
    message.update_mailbox_properties("INBOX", 3, 4, 5, &strings(&["unread", "new"])).unwrap();
    assert_eq!(
        strings(&["new", "unread"]),
        sorted(message.cached_tags("INBOX"))
    );
    assert_eq!(strings(&["local", "new", "unread"]), sorted(message.tags()));
    let inner = message.into_inner();
    assert_eq!(pairs(&[("other.key", "kept")]), inner.properties("other.key", true));
}

#[test]
fn update_twice_is_update_once() {
    let mut once = Message::new(email("id", "/mail/cur/test"), "sin.0");
    once.update_mailbox_properties("INBOX", 3, 4, 5, &strings(&["unread", "new"])).unwrap();
    let mut twice = Message::new(email("id", "/mail/cur/test"), "sin.0");
    twice.update_mailbox_properties("INBOX", 3, 4, 5, &strings(&["unread", "new"])).unwrap();
    twice.update_mailbox_properties("INBOX", 3, 4, 5, &strings(&["unread", "new"])).unwrap();
    assert_eq!(sorted(once.tags()), sorted(twice.tags()));
    assert_eq!(dump(&once.into_inner()), dump(&twice.into_inner()));
}

#[test]
fn remove_leaves_the_marker_while_another_mailbox_is_left() {
    let mut message = Message::new(email("id", "/mail/cur/test"), "sin.0");
    message.update_mailbox_properties("INBOX", 3, 4, 5, &strings(&["unread"])).unwrap();
    message.update_mailbox_properties("folder", 6, 7, 8, &strings(&["unread"])).unwrap();
    message.remove_mailbox_properties("INBOX");
    assert_eq!(strings(&["folder"]), message.mailboxes());
    assert_eq!(Err(Error::InvalidProperty), message.uid("INBOX"));
    assert_eq!(Ok(7), message.uid("folder"));
    let inner = message.into_inner();
    assert_eq!(
        pairs(&[
            ("sin.0.folder.modseq", "8"),
            ("sin.0.folder.tag", "unread"),
            ("sin.0.folder.uid", "7"),
            ("sin.0.folder.uidvalidity", "6"),
            ("sin.0.mailbox", "folder"),
            ("sin.0.marker", "message"),
        ]),
        dump(&inner)
    );
    let mut message = Message::new(inner, "sin.0");
    message.remove_mailbox_properties("folder");
    assert!(dump(&message.into_inner()).is_empty());
}

#[test]
fn remove_of_what_is_not_there_changes_nothing() {
    let mut message = Message::new(email("id", "/mail/cur/test"), "sin.0");
    message.update_mailbox_properties("INBOX", 3, 4, 5, &strings(&["unread"])).unwrap();
    let before = dump(&Message::new(email("id", "/mail/cur/test"), "sin.0").into_inner());
    assert!(before.is_empty());
    message.remove_mailbox_properties("other");
    assert_eq!(Ok(4), message.uid("INBOX"));
    assert_eq!(strings(&["INBOX"]), message.mailboxes());
    assert_eq!(6, dump(&message.into_inner()).len());
}

#[test]
fn root_message() {
    let inner = bindings::Message::new("0@sin".to_string(), Vec::new(), Vec::new(), Vec::new());
    assert_eq!(Ok(0), RootMessage::inner_id(&inner));
    let mut root = RootMessage::new(inner, "sin");
    root.setup();
    assert_eq!(Ok(0), root.id());
    assert_eq!(Ok((0, 0)), root.validity("INBOX"));
    assert_eq!(Ok(None), root.separator("INBOX"));
    assert_eq!(Ok(0), root.lastmod());
    assert!(root.mailboxes().is_empty());
    root.update_mailbox_properties("INBOX", Some('/'), 1676645821, 2);
    root.update_mailbox_properties("folder/sub", Some('/'), 7, 1);
    root.update_lastmod(12);
    assert_eq!(Ok((1676645821, 2)), root.validity("INBOX"));
    assert_eq!(Ok(Some('/')), root.separator("INBOX"));
    assert_eq!(Ok(12), root.lastmod());
    assert_eq!(strings(&["INBOX", "folder/sub"]), root.mailboxes());
    root.update_mailbox_properties("INBOX", None, 1676645821, 3);
    assert_eq!(Ok((1676645821, 3)), root.validity("INBOX"));
    assert_eq!(Ok(None), root.separator("INBOX"));
    root.remove_mailbox_properties("folder/sub");
    assert_eq!(strings(&["INBOX"]), root.mailboxes());
    assert_eq!(Ok((0, 0)), root.validity("folder/sub"));
    let inner = root.into_inner();
    assert_eq!(strings(&["sin.internal"]), inner.tags());
    assert_eq!(
        pairs(&[
            ("sin.INBOX.highestmodseq", "3"),
            ("sin.INBOX.uidvalidity", "1676645821"),
            ("sin.lastmod", "12"),
            ("sin.mailbox", "INBOX"),
            ("sin.marker", "root"),
        ]),
        dump(&inner)
    );
}

#[test]
fn root_message_with_what_it_cannot_read() {
    for id in ["", "sin", "@sin", "x@sin", "-1@sin", "18446744073709551616@sin"] {
        let inner = bindings::Message::new(id.to_string(), Vec::new(), Vec::new(), Vec::new());
        assert_eq!(Err(Error::InvalidProperty), RootMessage::inner_id(&inner));
    }
    let inner = bindings::Message::new(
        "18446744073709551615@sin@x".to_string(),
        Vec::new(),
        Vec::new(),
        pairs(&[
            ("sin.INBOX.uidvalidity", "many"),
            ("sin.INBOX.separator", ""),
            ("sin.lastmod", "+7"),
        ]),
    );
    assert_eq!(Ok(u64::MAX), RootMessage::inner_id(&inner));
    let root = RootMessage::new(inner, "sin");
    assert_eq!(Err(Error::InvalidProperty), root.validity("INBOX"));
    assert_eq!(Err(Error::InvalidProperty), root.separator("INBOX"));
    assert_eq!(Ok(7), root.lastmod());
}

#[test]
fn messages_come_in_their_order() {
    assert!(Messages::none().next().is_none());
    let mut messages = Messages::new(vec![email("a", "/a"), email("b", "/b")], "sin.0");
    assert_eq!("a", messages.next().unwrap().message_id());
    assert_eq!("b", messages.next().unwrap().message_id());
    assert!(messages.next().is_none());
    assert!(messages.next().is_none());
}

#[test]
fn transaction() {
    let mut database = Database::open("/mail", "test", 4);
    assert!(!database.is_atomic());
    assert_eq!(Step::BeginAtomic, database.transaction(Atomic::Begin));
    assert!(database.is_atomic());
    assert_eq!(Step::Reopen, database.transaction(Atomic::Abort));
    assert!(!database.is_atomic());
    assert_eq!(Step::BeginAtomic, database.transaction(Atomic::Begin));
    assert_eq!(Step::EndAtomicAndReopen, database.transaction(Atomic::Commit));
    assert!(!database.is_atomic());
    assert_eq!("/mail", database.path());
    assert_eq!(4, database.lastmod());
    database.refresh(9);
    assert_eq!(9, database.lastmod());
}

#[test]
fn attach_claims_a_number() {
    let database = Database::open("/mail", "sin", 0);
    assert_eq!("/mail/sync/sin", database.find("/mail/sync"));
    assert_eq!("property:sin.marker=root", database.roots());
    assert_eq!(
        (
            "property:sin.3.marker=message".to_string(),
            "sin.3.".to_string()
        ),
        database.leftovers(3)
    );
    let claim = database.add(&Vec::new()).unwrap();
    assert_eq!(0, claim.id);
    assert_eq!(vec![0], claim.unused);
    assert_eq!(
        "Subject: DO NOT REMOVE, THIS KEEPS TRACKS OF sin'S INTERNAL STATE\nMessage-ID: 0@sin\n",
        claim.file
    );
    let claim = database.add(&vec![0, 3, 1]).unwrap();
    assert_eq!(4, claim.id);
    assert_eq!(vec![2, 4], claim.unused);
    assert!(database.add(&vec![5, u64::MAX]).is_none());
    let attached = database.attach("/mail/sync", 4);
    assert_eq!("sin", attached.root_namespace());
    assert_eq!("sin.4", attached.namespace());
    assert_eq!("/mail/sync/sin", attached.root());
    assert_eq!("/mail", attached.path());
    assert_eq!("tag:a and tag:b", attached.query("    tag:a and tag:b \n"));
    let message = attached.add(email("id", "/mail/sync/cur/a"));
    assert_eq!("id", message.message_id());
}

#[test]
fn index_errors() {
    let missing = bindings::Error::Status(STATUS_NO_DATABASE);
    let unreadable = bindings::Error::Status(STATUS_FILE_ERROR);
    let other = bindings::Error::Status(1);
    assert!(missing.no_database() && !missing.file_error());
    assert!(unreadable.file_error() && !unreadable.no_database());
    assert!(!other.no_database() && !other.file_error());
    assert!(!bindings::Error::UTF8.no_database() && !bindings::Error::UTF8.file_error());
    assert!(sin::creates(true, true, &missing));
    assert!(sin::creates(true, true, &unreadable));
    assert!(!sin::creates(true, true, &other));
    assert!(!sin::creates(false, true, &missing));
    assert!(!sin::creates(true, false, &missing));
}

#[test]
fn queries_run_without_their_indentation() {
    let attached = Database::open("/mail", "sin", 0).attach("/mail/sync", 4);
    assert_eq!("", attached.query(""));
    assert_eq!("", attached.query(" \t\r\n\u{85}\u{a0}\u{2003}\u{3000}"));
    assert_eq!("a \u{a0} b", attached.query("\u{2028}a \u{a0} b\u{202f}\u{205f}"));
    assert_eq!("\u{200b}a\u{feff}", attached.query(" \u{200b}a\u{feff} "));
    let query = sin::sync::pull::search_not_uidvalidity("sin.4", "INBOX", 7);
    assert!(query.starts_with("    property:"));
    assert_eq!(query[4..], attached.query(&query));
    let query = sin::sync::pull::search_uids("sin.4", "INBOX", 7, &vec![1, 2]).unwrap();
    assert_eq!(query[4..], attached.query(&query));
    let query = sin::sync::push::search_modified("sin.4", "INBOX", 3);
    assert_eq!(query[4..], attached.query(&query));
    let query = sin::sync::search_staged("sin.4", "mail").unwrap();
    assert_eq!(query[4..], attached.query(&query));
}
