use sin::error::{Capability, Error};
use sin::imap::parser::ParseError;
use sin::imap::stream::Stream;
use sin::imap::{Range, Store};
use sin::maildir::{Builder, Maildir};
use sin::notmuch::bindings;
use sin::notmuch::{Message, Messages, RootMessage};
use sin::sync;
use sin::sync::pull;
use sin::sync::push;
use sin::sync::{Changes, Mailbox, Select};
use sin::{interrupt, Interruption};

fn fed(bytes: &[u8]) -> Stream {
    let mut stream = Stream::new();
    stream.read(bytes).unwrap();
    stream
}

fn strings(list: &[&str]) -> Vec<String> {
    list.iter().map(|s| s.to_string()).collect()
}

fn sorted(mut list: Vec<String>) -> Vec<String> {
    list.sort();
    list
}

fn pairs(list: &[(&str, &str)]) -> Vec<(String, String)> {
    list.iter().map(|(k, v)| (k.to_string(), v.to_string())).collect()
}

fn email(id: &str, paths: &[&str]) -> bindings::Message {
    bindings::Message::new(id.to_string(), strings(paths), Vec::new(), Vec::new())
}

fn dump(message: &bindings::Message) -> Vec<(String, String)> {
    let mut all = message.properties("", false);
    all.sort();
    all
}

fn joined(command: &sync::Command) -> String {
    String::from_utf8(command.buffers.concat()).unwrap()
}

#[test]
fn interruptions_stop_at_their_point_only() {
    assert_eq!(Ok(()), interrupt(&None, Interruption::StoredFlags));
    assert_eq!(
        Err(Interruption::StoredFlags),
        interrupt(&Some(Interruption::StoredFlags), Interruption::StoredFlags)
    );
    assert_eq!(
        Ok(()),
        interrupt(
            &Some(Interruption::StoredFlags),
            Interruption::AppendIsNotTransactional
        )
    );
}

#[test]
fn greetings_want_the_capabilities() {
    let mut stream =
        fed(b"* OK [CAPABILITY IMAP4rev1 SASL-IR ENABLE LITERAL+ AUTH=PLAIN] Dovecot ready.\r\nrest");
    assert_eq!(Ok(()), sync::greetings(&mut stream));
    assert_eq!(b"rest".to_vec(), stream.rest().to_vec());

    for (missing, capabilities) in [
        (Capability::Imap4rev1, "ENABLE LITERAL+ AUTH=PLAIN"),
        (Capability::AuthPlain, "IMAP4rev1 ENABLE LITERAL+"),
        (Capability::Enable, "IMAP4rev1 LITERAL+ AUTH=PLAIN"),
        (Capability::LiteralPlus, "IMAP4rev1 ENABLE AUTH=PLAIN"),
    ] {
        let greeting = format!("* OK [CAPABILITY {capabilities}] ready.\r\n");
        assert_eq!(
            Err(Error::MissingCapability(missing)),
            sync::greetings(&mut fed(greeting.as_bytes()))
        );
    }
}

#[test]
fn greetings_under_a_tag_are_an_error() {
    assert_eq!(
        Err(Error::UnexpectedTag),
        sync::greetings(&mut fed(b"tag OK [CAPABILITY IMAP4rev1] ready.\r\n"))
    );
    assert_eq!(
        Err(Error::UnexpectedTag),
        sync::greetings(&mut fed(b"* OK ready.\r\n"))
    );
    assert_eq!(
        Err(Error::Parse(ParseError { location: 0 })),
        sync::greetings(&mut Stream::new())
    );
}

#[test]
fn invalid_password() {
    let command = sync::authenticate_command("user", "invalid password");
    assert_eq!(
        "authenticate AUTHENTICATE PLAIN AHVzZXIAaW52YWxpZCBwYXNzd29yZA==\r\n",
        joined(&command)
    );
    assert_eq!(1, command.log);
    assert_eq!(
        "> authenticate AUTHENTICATE PLAIN ...omitted...",
        Stream::inner_input(&command.buffers, command.log)
    );
    let mut stream = fed(b"authenticate NO [AUTHENTICATIONFAILED] Authentication failed.\r\n");
    assert_eq!(
        Err(Error::Parse(ParseError { location: 0 })),
        sync::authenticate(&mut stream)
    );
    assert_eq!(
        b"NO [AUTHENTICATIONFAILED] Authentication failed.\r\n".to_vec(),
        stream.rest().to_vec()
    );
}

#[test]
fn authenticate_wants_the_capabilities() {
    let all = "IMAP4rev1 NAMESPACE UIDPLUS MOVE CONDSTORE QRESYNC";
    let answer = format!("* OK hello\r\nauthenticate OK [CAPABILITY {all}] Logged in\r\n");
    assert_eq!(Ok(()), sync::authenticate(&mut fed(answer.as_bytes())));
    for (missing, name) in [
        (Capability::Namespace, " NAMESPACE"),
        (Capability::UidPlus, " UIDPLUS"),
        (Capability::Move, " MOVE"),
        (Capability::CondStore, " CONDSTORE"),
        (Capability::QResync, " QRESYNC"),
    ] {
        let answer = format!(
            "authenticate OK [CAPABILITY {}] Logged in\r\n",
            all.replace(name, "")
        );
        assert_eq!(
            Err(Error::MissingCapability(missing)),
            sync::authenticate(&mut fed(answer.as_bytes()))
        );
    }
    assert_eq!(
        Err(Error::UnexpectedTag),
        sync::authenticate(&mut fed(b"other OK [CAPABILITY IMAP4rev1] Logged in\r\n"))
    );
}

#[test]
fn enable_wants_qresync() {
    assert_eq!("enable ENABLE QRESYNC\r\n", joined(&sync::enable_command()));
    assert_eq!(
        Ok(()),
        sync::enable(&mut fed(b"* ENABLED QRESYNC\r\nenable OK Enabled.\r\n"))
    );
    assert_eq!(
        Err(Error::NotEnabled),
        sync::enable(&mut fed(b"* ENABLED CONDSTORE\r\nenable OK Enabled.\r\n"))
    );
    assert_eq!(
        Err(Error::NotEnabled),
        sync::enable(&mut fed(b"* OK nothing\r\nenable OK Enabled.\r\n"))
    );
    assert_eq!(
        Err(Error::NotEnabled),
        sync::enable(&mut fed(b"* ENABLED QRESYNC\r\n* ENABLED\r\nenable OK Enabled.\r\n"))
    );
    assert_eq!(
        Err(Error::Parse(ParseError { location: 0 })),
        sync::enable(&mut fed(b"* ENABLED QRESYNC\r\nenable BAD no\r\n"))
    );
}

#[test]
fn list_leaves_out_what_cannot_be_selected() {
    assert_eq!("list LIST \"\" \"*\"\r\n", joined(&sync::list_command()));
    let mut stream = fed(
        b"* LIST (\\HasNoChildren) \"/\" INBOX\r\n\
          * LIST (\\Noselect \\HasChildren) \"/\" folder\r\n\
          * OK something else\r\n\
          * LIST (\\HasNoChildren) \"/\" \"folder/sub\"\r\n\
          * LIST () NIL &U,BTFw-\r\n\
          list OK List completed.\r\n",
    );
    assert_eq!(
        Ok(vec![
            Mailbox {
                bytes: b"INBOX".to_vec(),
                string: "INBOX".to_string(),
                separator: Some('/')
            },
            Mailbox {
                bytes: b"folder/sub".to_vec(),
                string: "folder/sub".to_string(),
                separator: Some('/')
            },
            Mailbox {
                bytes: b"&U,BTFw-".to_vec(),
                string: "台北".to_string(),
                separator: None
            },
        ]),
        sync::list(&mut stream)
    );
    assert!(stream.rest().is_empty());
    assert_eq!(
        Err(Error::InvalidMailbox),
        sync::list(&mut fed(b"* LIST () NIL &Jjo\r\nlist OK done\r\n"))
    );
}

#[test]
fn select_gathers_what_the_server_says() {
    let command = sync::select_command(b"INBOX", 1676645821, 2);
    assert_eq!(
        "select SELECT {5+}\r\nINBOX (QRESYNC (1676645821 2))\r\n",
        joined(&command)
    );
    assert_eq!(command.buffers.len(), command.log);
    let mut stream = fed(
        b"* FLAGS (\\Answered \\Flagged \\Deleted \\Seen \\Draft)\r\n\
          * OK [PERMANENTFLAGS (\\Answered \\Flagged \\Deleted \\Seen \\Draft \\*)] Flags permitted.\r\n\
          * 1 EXISTS\r\n\
          * OK [UIDVALIDITY 1676645821] UIDs valid\r\n\
          * OK [HIGHESTMODSEQ 3] Highest\r\n\
          * VANISHED (EARLIER) 2:3\r\n\
          * 1 FETCH (UID 1 FLAGS (\\Seen) MODSEQ (2))\r\n\
          * VANISHED (EARLIER) 7\r\n\
          * 2 FETCH (UID 4 FLAGS () MODSEQ (3))\r\n\
          * 1 FETCH (UID 1 FLAGS (\\Seen keyword) MODSEQ (3))\r\n\
          select OK [READ-WRITE] Select completed.\r\nrest",
    );
    assert_eq!(
        Ok(Select {
            uidvalidity: 1676645821,
            highestmodseq: 3,
            vanished: vec![Range(2, 3), Range(7, 7)],
            changes: vec![
                Changes {
                    uid: 1,
                    flags: strings(&["\\Seen", "keyword"]),
                    modseq: 3
                },
                Changes {
                    uid: 4,
                    flags: Vec::new(),
                    modseq: 3
                },
            ],
        }),
        sync::select(&mut stream)
    );
    assert_eq!(b"rest".to_vec(), stream.rest().to_vec());
}

#[test]
fn select_without_user_keywords_aborts() {
    assert_eq!(
        Err(Error::MissingUserKeywords),
        sync::select(&mut fed(
            b"* OK [PERMANENTFLAGS (\\Answered \\Seen)] Flags permitted.\r\n\
              * OK [UIDVALIDITY 1] UIDs valid\r\n\
              * OK [HIGHESTMODSEQ 3] Highest\r\n\
              select OK done\r\n"
        ))
    );
    assert_eq!(
        Err(Error::MissingUserKeywords),
        sync::select(&mut fed(
            b"* OK [UIDVALIDITY 1] UIDs valid\r\n\
              * OK [HIGHESTMODSEQ 3] Highest\r\n\
              select OK done\r\n"
        ))
    );
}

#[test]
fn select_wants_uidvalidity_and_highestmodseq() {
    let flags = "* OK [PERMANENTFLAGS (\\*)] Flags permitted.\r\n";
    for (error, lines) in [
        (Error::MissingUidValidity, "* OK [HIGHESTMODSEQ 3] Highest\r\n"),
        (Error::MissingHighestModSeq, "* OK [UIDVALIDITY 1] UIDs valid\r\n"),
        (
            Error::UnsupportedHighestModSeq,
            "* OK [UIDVALIDITY 1] UIDs valid\r\n* OK [HIGHESTMODSEQ 0] None\r\n",
        ),
    ] {
        let answer = format!("{flags}{lines}select OK done\r\n");
        assert_eq!(Err(error), sync::select(&mut fed(answer.as_bytes())));
    }
    assert_eq!(
        Err(Error::UnexpectedTag),
        sync::select(&mut fed(b"* OK hello\r\nother OK done\r\n"))
    );
    assert_eq!(
        Err(Error::Parse(ParseError { location: 0 })),
        sync::select(&mut fed(b"* OK hello\r\nselect NO [NONEXISTENT] no\r\n"))
    );
}

#[test]
fn fetch_wants_its_answer() {
    assert_eq!(
        "fetch UID FETCH 12 (RFC822.SIZE)\r\n",
        joined(&pull::fetch_command(12, pull::Item::Size))
    );
    assert_eq!(
        "fetch UID FETCH 12 (BODY.PEEK[])\r\n",
        joined(&pull::fetch_command(12, pull::Item::Body))
    );
    assert_eq!(
        Ok(1234),
        pull::fetch_size(
            &mut fed(b"* 3 FETCH (UID 12 RFC822.SIZE 1234)\r\nfetch OK done\r\n"),
            12
        )
    );
    assert_eq!(
        Err(Error::InvalidUid),
        pull::fetch_size(
            &mut fed(b"* 3 FETCH (UID 13 RFC822.SIZE 1234)\r\nfetch OK done\r\n"),
            12
        )
    );
    assert_eq!(
        Err(Error::MissingFetch),
        pull::fetch_size(&mut fed(b"fetch OK done\r\n"), 12)
    );
    assert_eq!(
        Err(Error::MissingFetch),
        pull::fetch_size(
            &mut fed(b"* 3 FETCH (RFC822.SIZE 1234)\r\nfetch OK done\r\n"),
            12
        )
    );
    assert_eq!(
        Ok(b"From: a\r\n\r\nhi".to_vec()),
        pull::fetch_body(
            &mut fed(b"* 3 FETCH (UID 12 BODY[] {13}\r\nFrom: a\r\n\r\nhi)\r\nfetch OK done\r\n"),
            12
        )
    );
    assert_eq!(
        Err(Error::MissingBody),
        pull::fetch_body(
            &mut fed(b"* 3 FETCH (UID 12 BODY[] NIL)\r\nfetch OK done\r\n"),
            12
        )
    );
    assert_eq!(
        Err(Error::MissingFetch),
        pull::fetch_body(
            &mut fed(b"* 3 FETCH (BODY[] \"hi\")\r\nfetch OK done\r\n"),
            12
        )
    );
    assert_eq!(
        Err(Error::Parse(ParseError { location: 2 })),
        pull::fetch_body(
            &mut fed(b"* 3 FETCH (BODY[] {2}\r\nhi)\r\nfetch OK done\r\n"),
            12
        )
    );
}

#[test]
fn queries() {
    assert_eq!(
        "    property:\"sin.0.marker=message\" and property:\"sin.0.mailbox=INBOX\" and not property:\"sin.0.INBOX.uidvalidity=7\"",
        pull::search_not_uidvalidity("sin.0", "INBOX", 7)
    );
    assert_eq!(None, pull::search_uids("sin.0", "INBOX", 7, &Vec::new()));
    assert_eq!(
        Some(
            "    property:\"sin.0.marker=message\" and property:\"sin.0.mailbox=a \"\"b\"\"\" and property:\"sin.0.a \"\"b\"\".uidvalidity=7\" and (property:\"sin.0.a \"\"b\"\".uid=1\" property:\"sin.0.a \"\"b\"\".uid=22\")"
                .to_string()
        ),
        pull::search_uids("sin.0", "a \"b\"", 7, &vec![1, 22])
    );
    assert_eq!(
        "    property:\"sin.0.marker=message\" and property:\"sin.0.mailbox=INBOX\" and lastmod:12..",
        push::search_modified("sin.0", "INBOX", 12)
    );
    assert_eq!(
        Ok("    not property:\"sin.marker=root\" and not property:\"sin.0.marker=message\" and folder:\"mail/\""
            .to_string()),
        push::search_new("sin", "sin.0", "mail", &Maildir::new("/db/mail", true))
    );
    assert_eq!(
        Ok("    not property:\"sin.marker=root\" and not property:\"sin.0.marker=message\" and folder:\"mail/.folder\""
            .to_string()),
        push::search_new("sin", "sin.0", "mail", &Maildir::new("/db/mail/.folder", false))
    );
    assert_eq!(
        Ok("    property:\"sin.0.marker=message\" and path:\"mail/**\" and path:/tmp/[^/]+$/".to_string()),
        sync::search_staged("sin.0", "sub/mail")
    );
    assert_eq!(
        "property:\"sin.0.marker=message\" and lastmod:3..9",
        sync::search_affected("sin.0", 3, 9)
    );
    assert_eq!("sin_1676645821_12", pull::staged_name("sin", 1676645821, 12));
}

#[test]
fn move_out_of_tmp_post_rename() {
    assert_eq!(
        Ok(Some("/mail/.folder/new/sin_1_2".to_string())),
        sync::move_out_of_tmp("/mail/.folder/tmp/sin_1_2")
    );
    assert_eq!(Ok(None), sync::move_out_of_tmp("/mail/.folder/new/sin_1_2"));
    assert_eq!(Ok(None), sync::move_out_of_tmp("/mail/cur/sin_1_2:2,S"));
    assert_eq!(Err(Error::InvalidPath), sync::move_out_of_tmp("sin_1_2"));
}

#[test]
fn reselect_where_the_mailbox_was_recreated() {
    let select = Select {
        uidvalidity: 7,
        highestmodseq: 3,
        vanished: Vec::new(),
        changes: Vec::new(),
    };
    assert_eq!(None, pull::reselect(&select, 7));
    assert_eq!(Some((7, 0)), pull::reselect(&select, 6));
    assert_eq!(Some((7, 0)), pull::reselect(&select, 0));
}

#[test]
fn uidvalidity() {
    let purgeable = strings(&["INBOX"]);
    assert_eq!(Ok(true), pull::check("INBOX", (0, 0), None, Some('/'), 7, &Vec::new()));
    assert_eq!(Ok(false), pull::check("INBOX", (7, 3), Some('/'), Some('/'), 7, &Vec::new()));
    assert_eq!(
        Err(Error::ValidityChanged),
        pull::check("INBOX", (7, 3), Some('/'), Some('/'), 8, &Vec::new())
    );
    assert_eq!(
        Err(Error::ValidityChanged),
        pull::check("INBOX", (7, 3), Some('/'), Some('/'), 8, &strings(&["other"]))
    );
    assert_eq!(Ok(true), pull::check("INBOX", (7, 3), Some('/'), Some('/'), 8, &purgeable));
    assert_eq!(
        Err(Error::SeparatorChanged),
        pull::check("INBOX", (7, 3), Some('/'), Some('.'), 7, &purgeable)
    );
    assert_eq!(
        Err(Error::SeparatorChanged),
        pull::check("INBOX", (7, 3), None, Some('.'), 7, &Vec::new())
    );
    assert_eq!(Ok(true), pull::check("INBOX", (7, 3), None, Some('.'), 8, &purgeable));
    assert_eq!(
        Err(Error::ValidityChanged),
        pull::check("INBOX", (7, 3), Some('/'), Some('.'), 8, &Vec::new())
    );
    assert_eq!(Ok(true), pull::check("INBOX", (0, 0), Some('/'), Some('.'), 7, &Vec::new()));
    assert_eq!(Err(Error::RerunPull), push::check(8, (7, 3)));
    assert_eq!(Ok(()), push::check(7, (7, 3)));
}

#[test]
fn remote_new() {
    let mut stream = fed(
        b"* OK [PERMANENTFLAGS (\\Answered \\Flagged \\Deleted \\Seen \\Draft \\*)] Flags permitted.\r\n\
          * OK [UIDVALIDITY 1676645821] UIDs valid\r\n\
          * OK [HIGHESTMODSEQ 2] Highest\r\n\
          * 1 FETCH (UID 1 FLAGS () MODSEQ (2))\r\n\
          select OK [READ-WRITE] Select completed.\r\n",
    );
    let select = sync::select(&mut stream).unwrap();
    assert_eq!(vec![1], pull::changed_uids(&select.changes));
    let mut message = Message::new(email("test", &["/mail/tmp/sin_1676645821_1"]), "sin.0");
    pull::add(&mut message, &select.changes[0], "INBOX", select.uidvalidity).unwrap();
    let inner = message.into_inner();
    assert_eq!(strings(&["unread"]), inner.tags());
    assert_eq!(
        pairs(&[
            ("sin.0.INBOX.modseq", "2"),
            ("sin.0.INBOX.tag", "unread"),
            ("sin.0.INBOX.uid", "1"),
            ("sin.0.INBOX.uidvalidity", "1676645821"),
            ("sin.0.mailbox", "INBOX"),
            ("sin.0.marker", "message"),
        ]),
        dump(&inner)
    );
    let mut root = RootMessage::new(email("0@sin", &["/mail/sin"]), "sin");
    root.setup();
    assert!(pull::finish(&mut root, "INBOX", Some('/'), (0, 0), 1676645821, 2));
    let inner = root.into_inner();
    assert_eq!(strings(&["sin.internal"]), inner.tags());
    assert_eq!(
        pairs(&[
            ("sin.INBOX.highestmodseq", "2"),
            ("sin.INBOX.separator", "/"),
            ("sin.INBOX.uidvalidity", "1676645821"),
            ("sin.mailbox", "INBOX"),
            ("sin.marker", "root"),
        ]),
        dump(&inner)
    );
}

#[test]
fn remote_subfolder() {
    let maildir = Builder::new("/mail").maildir("folder/sub", &Some('/'));
    assert_eq!("/mail/.folder.sub", maildir.path());
    let mut message = Message::new(email("test", &["/mail/.folder.sub/tmp/sin_7_1"]), "sin.0");
    let change = Changes {
        uid: 1,
        flags: Vec::new(),
        modseq: 2,
    };
    pull::add(&mut message, &change, "folder/sub", 7).unwrap();
    assert_eq!(
        pairs(&[
            ("sin.0.folder/sub.modseq", "2"),
            ("sin.0.folder/sub.tag", "unread"),
            ("sin.0.folder/sub.uid", "1"),
            ("sin.0.folder/sub.uidvalidity", "7"),
            ("sin.0.mailbox", "folder/sub"),
            ("sin.0.marker", "message"),
        ]),
        dump(&message.into_inner())
    );
}

#[test]
fn remote_subfolder_separator() {
    let maildir = Builder::new("/mail").maildir("folder.sub", &Some('.'));
    assert_eq!("/mail/.folder.sub", maildir.path());
    let mut root = RootMessage::new(email("0@sin", &["/mail/sin"]), "sin");
    assert!(pull::finish(&mut root, "folder.sub", Some('.'), (0, 0), 7, 2));
    assert_eq!(Ok(Some('.')), root.separator("folder.sub"));
    assert_eq!(Ok((7, 2)), root.validity("folder.sub"));
}

#[test]
fn remote_change() {
    let mut message = Message::new(email("test", &["/mail/cur/a"]), "sin.0");
    let first = Changes {
        uid: 1,
        flags: Vec::new(),
        modseq: 2,
    };
    pull::add(&mut message, &first, "INBOX", 7).unwrap();
    let mut changes = vec![Changes {
        uid: 1,
        flags: strings(&["unknown-0"]),
        modseq: 3,
    }];
    assert_eq!(Ok(true), pull::update(&mut message, &mut changes, "INBOX", 7));
    assert!(changes.is_empty());
    let mut inner = message.into_inner();
    assert_eq!(strings(&["unknown-0", "unread"]), sorted(inner.tags()));
    assert_eq!(
        pairs(&[
            ("sin.0.INBOX.modseq", "3"),
            ("sin.0.INBOX.tag", "unknown-0"),
            ("sin.0.INBOX.tag", "unread"),
            ("sin.0.INBOX.uid", "1"),
            ("sin.0.INBOX.uidvalidity", "7"),
            ("sin.0.mailbox", "INBOX"),
            ("sin.0.marker", "message"),
        ]),
        dump(&inner)
    );
    assert_eq!(
        Some(&bindings::Change::TagsToMaildirFlags),
        inner.take_changes().last()
    );
}

#[test]
fn pull_twice_changes_nothing() {
    let mut message = Message::new(email("test", &["/mail/cur/a"]), "sin.0");
    let change = Changes {
        uid: 1,
        flags: strings(&["\\Seen"]),
        modseq: 2,
    };
    pull::add(&mut message, &change, "INBOX", 7).unwrap();
    let mut inner = message.into_inner();
    inner.take_changes();
    let before = dump(&inner);
    let mut message = Message::new(inner, "sin.0");
    let mut changes = vec![change];
    assert_eq!(Ok(false), pull::update(&mut message, &mut changes, "INBOX", 7));
    assert!(changes.is_empty());
    let mut inner = message.into_inner();
    assert!(inner.take_changes().is_empty());
    assert_eq!(before, dump(&inner));

    let mut root = RootMessage::new(email("0@sin", &["/mail/sin"]), "sin");
    assert!(pull::finish(&mut root, "INBOX", Some('/'), (0, 0), 7, 2));
    let mut inner = root.into_inner();
    inner.take_changes();
    let mut root = RootMessage::new(inner, "sin");
    assert!(!pull::finish(&mut root, "INBOX", Some('/'), (7, 2), 7, 2));
    assert!(root.into_inner().take_changes().is_empty());
}

#[test]
fn update_of_a_message_that_did_not_change_is_an_error() {
    let mut message = Message::new(email("test", &["/mail/cur/a"]), "sin.0");
    let change = Changes {
        uid: 1,
        flags: Vec::new(),
        modseq: 2,
    };
    pull::add(&mut message, &change, "INBOX", 7).unwrap();
    let mut changes = vec![Changes {
        uid: 2,
        flags: Vec::new(),
        modseq: 3,
    }];
    assert_eq!(
        Err(Error::InvalidUid),
        pull::update(&mut message, &mut changes, "INBOX", 7)
    );
    assert_eq!(1, changes.len());
    assert_eq!(
        Err(Error::InvalidProperty),
        pull::update(&mut message, &mut changes, "other", 7)
    );
}

#[test]
fn remote_removal() {
    assert_eq!(
        vec![2, 3, 4, 7],
        pull::vanished_uids(&vec![Range(2, 4), Range(7, 7)])
    );
    assert!(pull::vanished_uids(&Vec::new()).is_empty());
    assert!(pull::vanished_uids(&vec![Range(4, 2)]).is_empty());
    let inner = email("test", &["/mail/cur/a:2,S", "/mail/.folder/cur/a", "/elsewhere/a"]);
    let mut message = Message::new(inner, "sin.0");
    let change = Changes {
        uid: 1,
        flags: Vec::new(),
        modseq: 2,
    };
    pull::add(&mut message, &change, "INBOX", 7).unwrap();
    let removals = pull::remove_message("INBOX", &Maildir::new("/mail", true), &mut message);
    assert_eq!(strings(&["/mail/cur/a:2,S"]), removals);
    let inner = message.into_inner();
    assert!(dump(&inner).is_empty());
    assert_eq!(strings(&["unread"]), inner.tags());
}

#[test]
fn vanished_without_a_message_here_asks_for_nothing_more() {
    let mut stream = fed(
        b"* OK [PERMANENTFLAGS (\\*)] Flags permitted.\r\n\
          * OK [UIDVALIDITY 7] UIDs valid\r\n\
          * OK [HIGHESTMODSEQ 9] Highest\r\n\
          * VANISHED (EARLIER) 41\r\n\
          select OK [READ-WRITE] Select completed.\r\n",
    );
    let select = sync::select(&mut stream).unwrap();
    assert!(select.changes.is_empty());
    assert_eq!(None, pull::search_uids("sin.0", "INBOX", 7, &pull::changed_uids(&select.changes)));
    assert_eq!(vec![41], pull::vanished_uids(&select.vanished));
    let mut message = Message::new(email("other", &["/mail/cur/b"]), "sin.0");
    let removals = pull::remove_message("INBOX", &Maildir::new("/elsewhere", true), &mut message);
    assert!(removals.is_empty());
    assert!(dump(&message.into_inner()).is_empty());
}

#[test]
fn remote_mailbox_removal() {
    let listed = vec![Mailbox {
        bytes: b"INBOX".to_vec(),
        string: "INBOX".to_string(),
        separator: Some('/'),
    }];
    assert_eq!(Ok(false), pull::retire("INBOX", &listed, &Vec::new()));
    assert_eq!(
        Err(Error::MailboxRemoved),
        pull::retire("folder", &listed, &Vec::new())
    );
    assert_eq!(
        Err(Error::MailboxRemoved),
        pull::retire("folder", &listed, &strings(&["INBOX"]))
    );
    assert_eq!(Ok(true), pull::retire("folder", &listed, &strings(&["folder"])));
}

#[test]
fn local_new() {
    let command = push::append_command(b"INBOX", &strings(&["\\Seen", "keyword"]), b"From: a\r\n");
    assert_eq!(
        "append APPEND {5+}\r\nINBOX (\\Seen keyword) {9+}\r\nFrom: a\r\n\r\n",
        joined(&command)
    );
    assert_eq!(
        "> append APPEND {5+}\\r\\nINBOX (\\\\Seen keyword) {9+}\\r\\n...omitted...",
        Stream::inner_input(&command.buffers, command.log)
    );
    let mut stream = fed(
        b"* 2 EXISTS\r\n* OK [HIGHESTMODSEQ 3] Highest\r\nappend OK [APPENDUID 1677851195 2] Append completed.\r\n",
    );
    let placed = push::append(&mut stream).unwrap();
    assert_eq!(
        push::Append {
            uidvalidity: 1677851195,
            uid: 2,
            highestmodseq: 3
        },
        placed
    );
    let inner = bindings::Message::new(
        "test".to_string(),
        strings(&["/mail/cur/a"]),
        strings(&["unread", "local"]),
        Vec::new(),
    );
    let mut message = Message::new(inner, "sin.0");
    assert_eq!(Ok(false), push::uploaded(&mut message, "INBOX", placed));
    assert_eq!(Ok(2), message.uid("INBOX"));
    assert_eq!(Ok(3), message.modseq("INBOX"));
    assert_eq!(strings(&["local", "unread"]), sorted(message.cached_tags("INBOX")));
}

#[test]
fn append_is_not_transactional_push() {
    assert_eq!(
        Err(Error::MissingHighestModSeq),
        push::append(&mut fed(b"append OK [APPENDUID 1677851195 2] Append completed.\r\n"))
    );
    assert_eq!(
        Err(Error::UnsupportedHighestModSeq),
        push::append(&mut fed(
            b"* OK [HIGHESTMODSEQ 0] None\r\nappend OK [APPENDUID 1677851195 2] Append completed.\r\n"
        ))
    );
    assert_eq!(
        Err(Error::Parse(ParseError { location: 3 })),
        push::append(&mut fed(b"* OK [HIGHESTMODSEQ 3] Highest\r\nappend OK Append completed.\r\n"))
    );
    assert_eq!(
        Err(Interruption::AppendIsNotTransactional),
        interrupt(
            &Some(Interruption::AppendIsNotTransactional),
            Interruption::AppendIsNotTransactional
        )
    );
}

#[test]
fn local_change() {
    let inner = bindings::Message::new(
        "test".to_string(),
        strings(&["/mail/cur/a"]),
        strings(&["keyword"]),
        pairs(&[
            ("sin.0.marker", "message"),
            ("sin.0.mailbox", "INBOX"),
            ("sin.0.INBOX.uidvalidity", "7"),
            ("sin.0.INBOX.uid", "1"),
            ("sin.0.INBOX.modseq", "2"),
            ("sin.0.INBOX.tag", "unread"),
            ("sin.0.INBOX.tag", "old"),
        ]),
    );
    let mut message = Message::new(inner, "sin.0");
    let flags = push::flags(&message, "INBOX");
    assert_eq!(strings(&["old"]), flags.delete);
    assert_eq!(strings(&["\\Seen", "keyword"]), sorted(flags.add.clone()));
    assert_eq!(
        "store UID STORE 1 (UNCHANGEDSINCE 2) -FLAGS.SILENT (old)\r\n",
        joined(&push::store_command(1, 2, &flags.delete, push::Diff::Delete))
    );
    assert_eq!(
        "store UID STORE 1 (UNCHANGEDSINCE 3) +FLAGS.SILENT (keyword \\Seen)\r\n",
        joined(&push::store_command(
            1,
            3,
            &strings(&["keyword", "\\Seen"]),
            push::Diff::Add
        ))
    );
    let outcome = push::store(
        &mut fed(b"* 1 FETCH (UID 1 MODSEQ (3))\r\nstore OK Store completed.\r\n"),
        1,
    );
    assert_eq!(Ok(Some(Store { uid: 1, modseq: 3 })), outcome);
    assert_eq!(
        Ok(false),
        push::stored_flags(&mut message, "INBOX", 7, 1, outcome.unwrap())
    );
    assert_eq!(Ok(3), message.modseq("INBOX"));
    assert_eq!(strings(&["keyword"]), message.cached_tags("INBOX"));
    let again = push::flags(&message, "INBOX");
    assert!(again.delete.is_empty());
    assert!(again.add.is_empty());

    let mut root = RootMessage::new(email("0@sin", &["/mail/sin"]), "sin");
    assert!(!push::bump(&mut root, 12, 12));
    assert_eq!(Ok(0), root.lastmod());
    assert!(push::bump(&mut root, 12, 14));
    assert_eq!(Ok(15), root.lastmod());
}

#[test]
fn stored_flags() {
    let outcome = push::store(
        &mut fed(b"store OK [MODIFIED 1] Conditional STORE failed.\r\n"),
        1,
    );
    assert_eq!(Ok(None), outcome);
    let mut message = Message::new(email("test", &["/mail/cur/a"]), "sin.0");
    assert_eq!(
        Err(Error::RerunPull),
        push::stored_flags(&mut message, "INBOX", 7, 1, None)
    );
    assert!(dump(&message.into_inner()).is_empty());
    assert_eq!(
        Err(Error::InvalidUid),
        push::store(
            &mut fed(b"store OK [MODIFIED 2] Conditional STORE failed.\r\n"),
            1
        )
    );
    assert_eq!(
        Err(Error::InvalidUid),
        push::store(
            &mut fed(b"store OK [MODIFIED 1:2] Conditional STORE failed.\r\n"),
            1
        )
    );
    assert_eq!(
        Err(Error::MissingFetch),
        push::store(&mut fed(b"* OK nothing\r\nstore OK Store completed.\r\n"), 1)
    );
    assert_eq!(
        Err(Error::MissingFetch),
        push::store(
            &mut fed(b"* 1 FETCH (MODSEQ (3))\r\nstore OK Store completed.\r\n"),
            1
        )
    );
}

#[test]
fn local_move() {
    assert_eq!(
        "move UID MOVE 1 {6+}\r\nfolder\r\n",
        joined(&push::move_command(1, b"folder"))
    );
    let all = vec![
        (
            "/mail".to_string(),
            Mailbox {
                bytes: b"INBOX".to_vec(),
                string: "INBOX".to_string(),
                separator: Some('/'),
            },
        ),
        (
            "/mail/.folder".to_string(),
            Mailbox {
                bytes: b"folder".to_vec(),
                string: "folder".to_string(),
                separator: Some('/'),
            },
        ),
    ];
    let here = Maildir::new("/mail", true);
    let properties = pairs(&[
        ("sin.0.marker", "message"),
        ("sin.0.mailbox", "INBOX"),
        ("sin.0.INBOX.uidvalidity", "7"),
        ("sin.0.INBOX.uid", "1"),
        ("sin.0.INBOX.modseq", "2"),
        ("sin.0.INBOX.tag", "unread"),
    ]);
    let stays = Message::new(
        bindings::Message::new(
            "test".to_string(),
            strings(&["/mail/cur/a", "/mail/.folder/cur/a"]),
            strings(&["unread"]),
            properties.clone(),
        ),
        "sin.0",
    );
    assert_eq!(Ok(None), push::destination(&stays, "INBOX", &here, &all));
    let mut moved = Message::new(
        bindings::Message::new(
            "test".to_string(),
            strings(&["/mail/.folder/cur/a"]),
            strings(&["unread", "local"]),
            properties,
        ),
        "sin.0",
    );
    assert_eq!(Ok(Some(1)), push::destination(&moved, "INBOX", &here, &all));
    assert_eq!(Ok(None), push::destination(&moved, "other", &here, &all));
    let outcome = push::move_(
        &mut fed(b"* OK [COPYUID 1677882317 1 5] Moved UIDs.\r\n* 1 EXPUNGE\r\nmove OK [HIGHESTMODSEQ 4] Move completed.\r\n"),
        1,
    );
    assert_eq!(
        Ok(Some(push::Move {
            uidvalidity: 1677882317,
            uid: 5
        })),
        outcome
    );
    assert_eq!(
        Ok(false),
        push::moved_message(&mut moved, "INBOX", "folder", outcome.unwrap())
    );
    let inner = moved.into_inner();
    assert_eq!(strings(&["local", "unread"]), sorted(inner.tags()));
    assert_eq!(
        pairs(&[
            ("sin.0.folder.modseq", "2"),
            ("sin.0.folder.tag", "unread"),
            ("sin.0.folder.uid", "5"),
            ("sin.0.folder.uidvalidity", "1677882317"),
            ("sin.0.mailbox", "folder"),
            ("sin.0.marker", "message"),
        ]),
        dump(&inner)
    );
}

#[test]
fn successful_move_pre_commit_push() {
    assert_eq!(Ok(None), push::move_(&mut fed(b"move OK No messages found.\r\n"), 1));
    assert_eq!(Ok(None), push::move_(&mut fed(b"move BAD no\r\n"), 1));
    assert_eq!(
        Err(Error::Parse(ParseError { location: 0 })),
        push::move_(&mut fed(b"move NO no\r\n"), 1)
    );
    assert_eq!(
        Err(Error::InvalidUid),
        push::move_(
            &mut fed(b"* OK [COPYUID 1677882317 2 5] Moved UIDs.\r\nmove OK done.\r\n"),
            1
        )
    );
    assert_eq!(
        Err(Error::InvalidUid),
        push::move_(
            &mut fed(b"* OK [COPYUID 1677882317 1,2 5,6] Moved UIDs.\r\nmove OK done.\r\n"),
            1
        )
    );
    let mut message = Message::new(email("test", &["/mail/.folder/cur/a"]), "sin.0");
    assert_eq!(
        Err(Error::RerunPull),
        push::moved_message(&mut message, "INBOX", "folder", None)
    );
    assert!(dump(&message.into_inner()).is_empty());
}

#[test]
fn lastmod() {
    let mut root = RootMessage::new(email("0@sin", &["/mail/sin"]), "sin");
    assert_eq!(Ok(0), root.lastmod());
    assert!(!push::bump(&mut root, 3, 3));
    assert_eq!(Ok(0), root.lastmod());
    assert!(root.into_inner().take_changes().is_empty());
}

#[test]
fn pull_of_a_mailbox_step_by_step() {
    let known = pull::Event::Known {
        validity: (7, 3),
        recorded: Some('/'),
        separator: Some('/'),
        purgeable: false,
    };
    let (state, action) = pull::run(pull::State::Initial, known).unwrap();
    assert_eq!(
        pull::Action::Select {
            uidvalidity: 7,
            highestmodseq: 3
        },
        action
    );
    let answered = pull::Event::Answered {
        uidvalidity: 7,
        highestmodseq: 5,
    };
    let (state, action) = pull::run(state, answered).unwrap();
    assert_eq!(pull::Action::Apply, action);
    assert_eq!(Err(Error::OutOfOrder), pull::run(state, answered));
    assert_eq!(Err(Error::OutOfOrder), pull::run(state, pull::Event::Purged));
    let (state, action) = pull::run(state, pull::Event::Applied).unwrap();
    assert_eq!(pull::Action::Record { changed: true }, action);
    assert_eq!(
        pull::State::Reconciled {
            uidvalidity: 7,
            highestmodseq: 5
        },
        state
    );
    assert_eq!(Err(Error::OutOfOrder), pull::run(state, pull::Event::Applied));
    assert_eq!(Err(Error::OutOfOrder), pull::run(pull::State::Initial, answered));
}

#[test]
fn pull_of_a_mailbox_that_was_recreated() {
    let known = |purgeable| pull::Event::Known {
        validity: (7, 3),
        recorded: Some('/'),
        separator: Some('/'),
        purgeable,
    };
    let answered = pull::Event::Answered {
        uidvalidity: 8,
        highestmodseq: 2,
    };
    let (state, _) = pull::run(pull::State::Initial, known(false)).unwrap();
    let (state, action) = pull::run(state, answered).unwrap();
    assert_eq!(
        pull::Action::Select {
            uidvalidity: 8,
            highestmodseq: 0
        },
        action
    );
    assert_eq!(Err(Error::ValidityChanged), pull::run(state, answered));

    let (state, _) = pull::run(pull::State::Initial, known(true)).unwrap();
    let (state, _) = pull::run(state, answered).unwrap();
    let (state, action) = pull::run(state, answered).unwrap();
    assert_eq!(pull::Action::Purge { uidvalidity: 8 }, action);
    assert_eq!(Err(Error::OutOfOrder), pull::run(state, pull::Event::Applied));
    let (state, action) = pull::run(state, pull::Event::Purged).unwrap();
    assert_eq!(pull::Action::Apply, action);
    let (_, action) = pull::run(state, pull::Event::Applied).unwrap();
    assert_eq!(pull::Action::Record { changed: true }, action);
}

#[test]
fn pull_of_a_mailbox_that_did_not_change() {
    let known = pull::Event::Known {
        validity: (7, 3),
        recorded: None,
        separator: None,
        purgeable: false,
    };
    let (state, _) = pull::run(pull::State::Initial, known).unwrap();
    let answered = pull::Event::Answered {
        uidvalidity: 7,
        highestmodseq: 3,
    };
    let (state, _) = pull::run(state, answered).unwrap();
    let (_, action) = pull::run(state, pull::Event::Applied).unwrap();
    assert_eq!(pull::Action::Record { changed: false }, action);
}

#[test]
fn push_of_a_message_step_by_step() {
    let placed = push::Append {
        uidvalidity: 7,
        uid: 2,
        highestmodseq: 3,
    };
    let (state, action) =
        push::run(push::State::LocallyNew, push::Event::Appended { placed }).unwrap();
    assert_eq!(push::State::UploadedUnconfirmed { placed }, state);
    assert_eq!(push::Action::Record { placed }, action);
    assert_eq!(
        Ok((push::State::Confirmed, push::Action::Finish)),
        push::run(state, push::Event::Recorded)
    );
    assert_eq!(
        Err(Error::OutOfOrder),
        push::run(push::State::Confirmed, push::Event::Recorded)
    );

    let compared = |delete, add| push::Event::Compared { delete, add };
    assert_eq!(
        Ok((push::State::Synced, push::Action::Locate)),
        push::run(push::State::Existing, compared(false, false))
    );
    let (state, action) = push::run(push::State::Existing, compared(true, true)).unwrap();
    assert_eq!(
        push::Action::Store {
            diff: push::Diff::Delete
        },
        action
    );
    let (state, action) = push::run(state, push::Event::Stored { taken: true }).unwrap();
    assert_eq!(
        push::Action::Store {
            diff: push::Diff::Add
        },
        action
    );
    assert_eq!(
        Err(Error::RerunPull),
        push::run(state, push::Event::Stored { taken: false })
    );
    let (state, action) = push::run(state, push::Event::Stored { taken: true }).unwrap();
    assert_eq!(push::Action::Locate, action);
    assert_eq!(
        Ok((push::State::Synced, push::Action::Finish)),
        push::run(state, push::Event::Placed { elsewhere: false })
    );
    let (state, action) = push::run(state, push::Event::Placed { elsewhere: true }).unwrap();
    assert_eq!(push::Action::Move, action);
    assert_eq!(
        Err(Error::RerunPull),
        push::run(state, push::Event::Answered { moved: false })
    );
    assert_eq!(
        Ok((push::State::Moved, push::Action::Finish)),
        push::run(state, push::Event::Answered { moved: true })
    );
    assert_eq!(
        Ok((
            push::State::FlagDiffPending { more: false },
            push::Action::Store {
                diff: push::Diff::Add
            }
        )),
        push::run(push::State::Existing, compared(false, true))
    );
}

#[test]
fn append_is_not_transactional_pull() {
    // The message went up twice: the pull finds it under both identifiers, and the index
    // keeps the later one.
    let mut message = Message::new(email("test", &["/mail/cur/a"]), "sin.0");
    let first = Changes {
        uid: 1,
        flags: Vec::new(),
        modseq: 2,
    };
    let second = Changes {
        uid: 2,
        flags: Vec::new(),
        modseq: 3,
    };
    pull::add(&mut message, &first, "INBOX", 7).unwrap();
    assert_eq!(Ok(true), message.has_duplicate("INBOX", 7, second.uid));
    assert_eq!(Ok(true), pull::add(&mut message, &second, "INBOX", 7));
    assert_eq!(Ok(2), message.uid("INBOX"));
    assert_eq!(Ok(3), message.modseq("INBOX"));
    assert_eq!(strings(&["INBOX"]), message.mailboxes());
    assert_eq!(6, dump(&message.into_inner()).len());
}

#[test]
fn successful_move_pre_commit_pull() {
    // The server moved the message and the index does not know: the pull sees it vanish
    // from one mailbox and appear in the other.
    let mut message = Message::new(email("test", &["/mail/.folder/cur/a"]), "sin.0");
    let old = Changes {
        uid: 1,
        flags: strings(&["\\Seen"]),
        modseq: 2,
    };
    pull::add(&mut message, &old, "INBOX", 7).unwrap();
    let removals = pull::remove_message("INBOX", &Maildir::new("/mail", true), &mut message);
    assert!(removals.is_empty());
    assert!(message.mailboxes().is_empty());
    let new = Changes {
        uid: 5,
        flags: strings(&["\\Seen"]),
        modseq: 4,
    };
    pull::add(&mut message, &new, "folder", 9).unwrap();
    assert_eq!(strings(&["folder"]), message.mailboxes());
    assert_eq!(Ok(5), message.uid("folder"));
    assert_eq!(Err(Error::InvalidProperty), message.uid("INBOX"));
}

#[test]
fn multi_user() {
    // Two engines keep track of one message, each under its own namespace.
    let change = Changes {
        uid: 1,
        flags: Vec::new(),
        modseq: 2,
    };
    let mut first = Message::new(email("test", &["/mail/user1/cur/a"]), "sin.0");
    pull::add(&mut first, &change, "INBOX", 7).unwrap();
    let mut second = Message::new(first.into_inner(), "sin.1");
    let other = Changes {
        uid: 9,
        flags: strings(&["\\Seen"]),
        modseq: 4,
    };
    pull::add(&mut second, &other, "INBOX", 8).unwrap();
    assert_eq!(Ok(9), second.uid("INBOX"));
    let mut third = Message::new(second.into_inner(), "sin.10");
    pull::add(&mut third, &change, "INBOX", 7).unwrap();
    let mut first = Message::new(third.into_inner(), "sin.0");
    assert_eq!(Ok(1), first.uid("INBOX"));
    let removals = pull::remove_message("INBOX", &Maildir::new("/mail/user1", true), &mut first);
    assert_eq!(strings(&["/mail/user1/cur/a"]), removals);
    let inner = first.into_inner();
    assert!(inner.properties("sin.0.", false).is_empty());
    assert_eq!(5, inner.properties("sin.1.", false).len());
    assert_eq!(6, inner.properties("sin.10.", false).len());
    let second = Message::new(inner, "sin.1");
    assert_eq!(Ok(9), second.uid("INBOX"));
    assert_eq!(Ok(4), second.modseq("INBOX"));
}

#[test]
fn remote_move_with_local_change() {
    // The message moved on the server while it got a tag here: the tag stays.
    let mut message = Message::new(email("test", &["/mail/cur/a"]), "sin.0");
    let old = Changes {
        uid: 1,
        flags: Vec::new(),
        modseq: 2,
    };
    pull::add(&mut message, &old, "INBOX", 7).unwrap();
    let mut inner = message.into_inner();
    inner.add_tag("tag");
    let mut message = Message::new(inner, "sin.0");
    let removals = pull::remove_message("INBOX", &Maildir::new("/mail", true), &mut message);
    assert_eq!(strings(&["/mail/cur/a"]), removals);
    let new = Changes {
        uid: 1,
        flags: Vec::new(),
        modseq: 3,
    };
    pull::add(&mut message, &new, "folder", 8).unwrap();
    assert_eq!(strings(&["tag", "unread"]), sorted(message.tags()));
    assert_eq!(strings(&["unread"]), message.cached_tags("folder"));
    let flags = push::flags(&message, "folder");
    assert!(flags.delete.is_empty());
    assert_eq!(strings(&["tag"]), flags.add);
}

#[test]
fn modseq_stays_under_highestmodseq() {
    // A pull, a push that changes a flag, and a pull again, against what a server answers.
    let mut root = RootMessage::new(email("0@sin", &["/mail/sin"]), "sin");
    let mut message = Message::new(email("test", &["/mail/cur/a"]), "sin.0");

    let select = sync::select(&mut fed(
        b"* OK [PERMANENTFLAGS (\\*)] Flags permitted.\r\n\
          * OK [UIDVALIDITY 7] UIDs valid\r\n\
          * OK [HIGHESTMODSEQ 2] Highest\r\n\
          * 1 FETCH (UID 1 FLAGS () MODSEQ (2))\r\n\
          select OK [READ-WRITE] Select completed.\r\n",
    ))
    .unwrap();
    pull::add(&mut message, &select.changes[0], "INBOX", select.uidvalidity).unwrap();
    pull::finish(&mut root, "INBOX", Some('/'), (0, 0), select.uidvalidity, select.highestmodseq);
    assert!(message.modseq("INBOX").unwrap() <= root.validity("INBOX").unwrap().1);

    let mut inner = message.into_inner();
    inner.remove_tag("unread");
    let mut message = Message::new(inner, "sin.0");
    let flags = push::flags(&message, "INBOX");
    assert_eq!(strings(&["\\Seen"]), flags.add);
    let stored = push::store(
        &mut fed(b"* 1 FETCH (UID 1 MODSEQ (3))\r\nstore OK Store completed.\r\n"),
        1,
    )
    .unwrap();
    push::stored_flags(&mut message, "INBOX", 7, 1, stored).unwrap();
    assert_eq!(Ok(3), message.modseq("INBOX"));

    let validity = root.validity("INBOX").unwrap();
    let select = sync::select(&mut fed(
        b"* OK [PERMANENTFLAGS (\\*)] Flags permitted.\r\n\
          * OK [UIDVALIDITY 7] UIDs valid\r\n\
          * OK [HIGHESTMODSEQ 3] Highest\r\n\
          * 1 FETCH (UID 1 FLAGS (\\Seen) MODSEQ (3))\r\n\
          select OK [READ-WRITE] Select completed.\r\n",
    ))
    .unwrap();
    let mut changes = select.changes;
    assert_eq!(Ok(false), pull::update(&mut message, &mut changes, "INBOX", 7));
    assert!(pull::finish(
        &mut root,
        "INBOX",
        Some('/'),
        validity,
        select.uidvalidity,
        select.highestmodseq
    ));
    assert_eq!((7, 3), root.validity("INBOX").unwrap());
    assert!(message.modseq("INBOX").unwrap() <= root.validity("INBOX").unwrap().1);
}

#[test]
fn select_refuses_a_fetch_that_lacks_an_attribute() {
    let flags = "* OK [PERMANENTFLAGS (\\*)] Flags permitted.\r\n\
                 * OK [UIDVALIDITY 7] UIDs valid\r\n\
                 * OK [HIGHESTMODSEQ 100] Highest\r\n";
    for line in [
        "* 1 FETCH (FLAGS (\\Seen) MODSEQ (100))\r\n",
        "* 1 FETCH (UID 1 FLAGS (\\Seen))\r\n",
        "* 1 FETCH (UID 1 MODSEQ (100))\r\n",
        "* 1 FETCH (UID 1 UID 2 FLAGS () MODSEQ (100))\r\n",
        "* 1 FETCH ()\r\n",
    ] {
        let answer = format!("{flags}{line}select OK done\r\n");
        match sync::select(&mut fed(answer.as_bytes())) {
            Err(Error::Parse(_)) => {}
            other => panic!("{line}: {other:?}"),
        }
    }
    let answer = format!("{flags}* 1 EXISTS\r\n* 1 RECENT\r\n* 0 FETCHED\r\nselect OK done\r\n");
    assert_eq!(
        Ok(Select {
            uidvalidity: 7,
            highestmodseq: 100,
            vanished: Vec::new(),
            changes: Vec::new(),
        }),
        sync::select(&mut fed(answer.as_bytes()))
    );
}

#[test]
fn pull_of_a_mailbox_that_was_recreated_with_another_separator() {
    let known = |purgeable| pull::Event::Known {
        validity: (7, 3),
        recorded: Some('/'),
        separator: Some('.'),
        purgeable,
    };
    let rolled = pull::Event::Answered {
        uidvalidity: 8,
        highestmodseq: 2,
    };
    let same = pull::Event::Answered {
        uidvalidity: 7,
        highestmodseq: 3,
    };
    let (state, _) = pull::run(pull::State::Initial, known(true)).unwrap();
    let (state, _) = pull::run(state, rolled).unwrap();
    let (_, action) = pull::run(state, rolled).unwrap();
    assert_eq!(pull::Action::Purge { uidvalidity: 8 }, action);

    let (state, _) = pull::run(pull::State::Initial, known(false)).unwrap();
    let (state, _) = pull::run(state, rolled).unwrap();
    assert_eq!(Err(Error::ValidityChanged), pull::run(state, rolled));

    let (state, _) = pull::run(pull::State::Initial, known(true)).unwrap();
    assert_eq!(Err(Error::SeparatorChanged), pull::run(state, same));

    // Once the mailbox is purged and pulled, the new separator is on record.
    let mut root = RootMessage::new(email("0@sin", &["/mail/sin"]), "sin");
    assert!(pull::finish(&mut root, "INBOX", Some('/'), (0, 0), 7, 3));
    assert_eq!(Ok(Some('/')), root.separator("INBOX"));
    assert!(pull::finish(&mut root, "INBOX", Some('.'), (7, 3), 8, 2));
    assert_eq!(Ok(Some('.')), root.separator("INBOX"));
    assert_eq!(Ok((8, 2)), root.validity("INBOX"));
}

#[test]
fn a_message_whose_record_cannot_be_read_is_an_error() {
    let change = Changes {
        uid: 2,
        flags: strings(&["\\Seen"]),
        modseq: 3,
    };
    let lacking = pairs(&[("sin.0.mailbox", "INBOX"), ("sin.0.INBOX.uidvalidity", "7")]);
    let unreadable = pairs(&[
        ("sin.0.mailbox", "INBOX"),
        ("sin.0.INBOX.uidvalidity", "7"),
        ("sin.0.INBOX.uid", "two"),
    ]);
    let garbled = pairs(&[("sin.0.INBOX.uidvalidity", "seven"), ("sin.0.INBOX.uid", "2")]);
    for properties in [lacking, unreadable, garbled] {
        let inner = bindings::Message::new(
            "test".to_string(),
            strings(&["/mail/cur/a"]),
            strings(&["unread"]),
            properties.clone(),
        );
        let mut message = Message::new(inner, "sin.0");
        assert_eq!(Err(Error::InvalidProperty), message.has_duplicate("INBOX", 7, 2));
        assert_eq!(Err(Error::InvalidProperty), pull::add(&mut message, &change, "INBOX", 7));
        let placed = push::Append {
            uidvalidity: 7,
            uid: 2,
            highestmodseq: 3,
        };
        assert_eq!(Err(Error::InvalidProperty), push::uploaded(&mut message, "INBOX", placed));
        assert_eq!(
            Err(Error::InvalidProperty),
            push::stored_flags(&mut message, "INBOX", 7, 2, Some(Store { uid: 2, modseq: 3 }))
        );
        let inner = message.into_inner();
        assert_eq!(strings(&["unread"]), inner.tags());
        let mut expected = properties;
        expected.sort();
        assert_eq!(expected, dump(&inner));
    }
    let inner = bindings::Message::new(
        "test".to_string(),
        strings(&["/mail/cur/a"]),
        Vec::new(),
        pairs(&[("sin.0.mailbox", "INBOX"), ("sin.0.INBOX.uidvalidity", "7")]),
    );
    let mut message = Message::new(inner, "sin.0");
    assert_eq!(Ok(false), message.has_duplicate("INBOX", 8, 2));
    assert_eq!(Ok(false), pull::add(&mut message, &change, "INBOX", 8));
    assert_eq!(Ok(2), message.uid("INBOX"));
}

#[test]
fn a_move_onto_a_record_that_cannot_be_read_forgets_the_source() {
    let inner = bindings::Message::new(
        "test".to_string(),
        strings(&["/mail/.folder/cur/a"]),
        strings(&["unread"]),
        pairs(&[
            ("sin.0.marker", "message"),
            ("sin.0.mailbox", "INBOX"),
            ("sin.0.INBOX.uidvalidity", "7"),
            ("sin.0.INBOX.uid", "1"),
            ("sin.0.INBOX.modseq", "2"),
            ("sin.0.INBOX.tag", "unread"),
            ("sin.0.folder.uidvalidity", "9"),
        ]),
    );
    let mut message = Message::new(inner, "sin.0");
    let place = push::Move {
        uidvalidity: 9,
        uid: 5,
    };
    assert_eq!(
        Err(Error::InvalidProperty),
        push::moved_message(&mut message, "INBOX", "folder", Some(place))
    );
    assert_eq!(
        pairs(&[("sin.0.folder.uidvalidity", "9"), ("sin.0.marker", "message")]),
        dump(&message.into_inner())
    );
}

#[test]
fn a_message_that_moved_is_known_in_its_new_mailbox_only() {
    let old = Changes {
        uid: 1,
        flags: strings(&["\\Seen"]),
        modseq: 2,
    };
    let new = Changes {
        uid: 5,
        flags: strings(&["\\Seen"]),
        modseq: 4,
    };
    let maildir = Maildir::new("/mail", true);
    // The engine comes to the mailbox that the message left first.
    let mut message = Message::new(email("test", &["/mail/.folder/cur/a"]), "sin.0");
    pull::add(&mut message, &old, "INBOX", 7).unwrap();
    assert!(pull::remove_message("INBOX", &maildir, &mut message).is_empty());
    assert_eq!(Ok(false), pull::add(&mut message, &new, "folder", 9));
    let first = dump(&message.into_inner());
    // The engine comes to the mailbox that the message went to first.
    let mut message = Message::new(email("test", &["/mail/.folder/cur/a"]), "sin.0");
    pull::add(&mut message, &old, "INBOX", 7).unwrap();
    assert_eq!(Ok(false), pull::add(&mut message, &new, "folder", 9));
    assert_eq!(strings(&["INBOX", "folder"]), sorted(message.mailboxes()));
    assert!(pull::remove_message("INBOX", &maildir, &mut message).is_empty());
    assert_eq!(strings(&["folder"]), message.mailboxes());
    assert_eq!(Ok(5), message.uid("folder"));
    assert_eq!(Ok(4), message.modseq("folder"));
    assert_eq!(Err(Error::InvalidProperty), message.uid("INBOX"));
    assert_eq!(strings(&["/mail/.folder/cur/a"]), message.paths());
    assert!(message.tags().is_empty());
    let second = dump(&message.into_inner());
    assert_eq!(first, second);
    assert_eq!(
        pairs(&[
            ("sin.0.folder.modseq", "4"),
            ("sin.0.folder.uid", "5"),
            ("sin.0.folder.uidvalidity", "9"),
            ("sin.0.mailbox", "folder"),
            ("sin.0.marker", "message"),
        ]),
        second
    );
}

#[test]
fn a_message_that_the_server_holds_twice_is_known_under_the_later_identifier() {
    let first = Changes {
        uid: 1,
        flags: strings(&["\\Seen"]),
        modseq: 3,
    };
    let second = Changes {
        uid: 2,
        flags: strings(&["keyword"]),
        modseq: 5,
    };
    let mut twice = Message::new(email("test", &["/mail/cur/a"]), "sin.0");
    assert_eq!(Ok(false), pull::add(&mut twice, &first, "INBOX", 7));
    assert_eq!(Ok(false), twice.has_duplicate("INBOX", 7, 1));
    assert_eq!(Ok(true), twice.has_duplicate("INBOX", 7, 2));
    assert_eq!(Ok(false), twice.has_duplicate("INBOX", 8, 2));
    assert_eq!(Ok(true), pull::add(&mut twice, &second, "INBOX", 7));
    let mut only = Message::new(email("test", &["/mail/cur/a"]), "sin.0");
    assert_eq!(Ok(false), pull::add(&mut only, &second, "INBOX", 7));
    assert_eq!(Ok(2), twice.uid("INBOX"));
    assert_eq!(Ok(5), twice.modseq("INBOX"));
    assert_eq!(strings(&["INBOX"]), twice.mailboxes());
    assert_eq!(dump(&only.into_inner()), dump(&twice.into_inner()));
}

#[test]
fn a_pull_without_news_changes_nothing() {
    let mut root = RootMessage::new(email("0@sin", &["/mail/sin"]), "sin");
    assert!(pull::finish(&mut root, "INBOX", Some('/'), (0, 0), 7, 3));
    let record = dump(&root.into_inner());
    let mut root = RootMessage::new(
        bindings::Message::new(
            "0@sin".to_string(),
            strings(&["/mail/sin"]),
            Vec::new(),
            record.clone(),
        ),
        "sin",
    );
    let validity = root.validity("INBOX").unwrap();
    assert_eq!((7, 3), validity);
    let select = sync::select(&mut fed(
        b"* OK [PERMANENTFLAGS (\\*)] Flags permitted.\r\n\
          * OK [UIDVALIDITY 7] UIDs valid\r\n\
          * OK [HIGHESTMODSEQ 3] Highest\r\n\
          select OK [READ-WRITE] Select completed.\r\n",
    ))
    .unwrap();
    let known = pull::Event::Known {
        validity,
        recorded: root.separator("INBOX").unwrap(),
        separator: Some('/'),
        purgeable: false,
    };
    let answered = pull::Event::Answered {
        uidvalidity: select.uidvalidity,
        highestmodseq: select.highestmodseq,
    };
    let (state, action) = pull::run(pull::State::Initial, known).unwrap();
    assert_eq!(
        pull::Action::Select {
            uidvalidity: 7,
            highestmodseq: 3
        },
        action
    );
    let (state, action) = pull::run(state, answered).unwrap();
    assert_eq!(pull::Action::Apply, action);
    assert_eq!(
        None,
        pull::search_uids("sin.0", "INBOX", 7, &pull::changed_uids(&select.changes))
    );
    assert_eq!(
        None,
        pull::search_uids("sin.0", "INBOX", 7, &pull::vanished_uids(&select.vanished))
    );
    let (_, action) = pull::run(state, pull::Event::Applied).unwrap();
    assert_eq!(pull::Action::Record { changed: false }, action);
    assert!(!pull::finish(&mut root, "INBOX", Some('/'), validity, 7, 3));
    let mut inner = root.into_inner();
    assert!(inner.take_changes().is_empty());
    assert_eq!(record, dump(&inner));
}

#[test]
fn what_vanished_and_is_not_in_the_index_changes_nothing() {
    let maildir = Maildir::new("/mail", true);
    let (messages, removals) =
        pull::remove_messages("INBOX", &maildir, Messages::new(Vec::new(), "sin.0"));
    assert!(messages.is_empty());
    assert!(removals.is_empty());
    let (messages, removals) = pull::remove_messages("INBOX", &maildir, Messages::none());
    assert!(messages.is_empty());
    assert!(removals.is_empty());
}

#[test]
fn what_vanished_is_forgotten_message_by_message() {
    let change = Changes {
        uid: 1,
        flags: Vec::new(),
        modseq: 2,
    };
    let other = Changes {
        uid: 2,
        flags: Vec::new(),
        modseq: 2,
    };
    let mut first = Message::new(email("a", &["/mail/cur/a", "/mail/.folder/cur/a"]), "sin.0");
    pull::add(&mut first, &change, "INBOX", 7).unwrap();
    pull::add(&mut first, &change, "folder", 8).unwrap();
    let mut second = Message::new(email("b", &["/elsewhere/cur/b", "/mail/new/b"]), "sin.0");
    pull::add(&mut second, &other, "INBOX", 7).unwrap();
    let found = Messages::new(vec![first.into_inner(), second.into_inner()], "sin.0");
    let (messages, removals) =
        pull::remove_messages("INBOX", &Maildir::new("/mail", true), found);
    assert_eq!(strings(&["/mail/cur/a", "/mail/new/b"]), removals);
    assert_eq!(2, messages.len());
    assert_eq!("a", messages[0].message_id());
    assert_eq!(strings(&["folder"]), messages[0].mailboxes());
    assert_eq!(Ok(1), messages[0].uid("folder"));
    assert_eq!("b", messages[1].message_id());
    assert!(messages[1].mailboxes().is_empty());
    let mut all = messages;
    assert!(dump(&all.remove(1).into_inner()).is_empty());
}

#[test]
fn tags_follow_the_server_where_it_changed_its_mind() {
    // Cached: a, b. On the message: a and local. The server now has b and c.
    let inner = bindings::Message::new(
        "test".to_string(),
        strings(&["/mail/cur/a"]),
        strings(&["a", "local"]),
        pairs(&[
            ("sin.0.marker", "message"),
            ("sin.0.mailbox", "INBOX"),
            ("sin.0.INBOX.uidvalidity", "7"),
            ("sin.0.INBOX.uid", "1"),
            ("sin.0.INBOX.modseq", "2"),
            ("sin.0.INBOX.tag", "a"),
            ("sin.0.INBOX.tag", "b"),
        ]),
    );
    let mut message = Message::new(inner, "sin.0");
    assert_eq!(
        Ok(false),
        message.update_mailbox_properties("INBOX", 7, 1, 3, &strings(&["b", "c"]))
    );
    // The server dropped a and added c; b was taken off here and local was put on here.
    assert_eq!(strings(&["c", "local"]), sorted(message.tags()));
    assert_eq!(strings(&["b", "c"]), sorted(message.cached_tags("INBOX")));
    assert_eq!(strings(&["/mail/cur/a"]), message.paths());
    assert_eq!("test", message.message_id());
}

#[test]
fn a_command_is_forgotten_once_it_is_sent() {
    let mut command = sync::authenticate_command("user", "password");
    assert_eq!(3, command.buffers.len());
    assert_eq!(b"AHVzZXIAcGFzc3dvcmQ=".to_vec(), command.buffers[1]);
    command.forget();
    assert!(command.buffers.is_empty());
    assert_eq!(0, command.log);
    assert_eq!("", joined(&command));
}
