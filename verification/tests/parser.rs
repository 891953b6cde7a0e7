use sin::imap::parser;
use sin::imap::parser::ParseError;
use sin::imap::{Append, Mailbox, Move, Range, Select, SelectFetch, Store};

fn bytes(list: &[&str]) -> Vec<Vec<u8>> {
    list.iter().map(|s| s.as_bytes().to_vec()).collect()
}

#[test]
fn start() {
    let (_, untagged) = parser::start(b"* ").unwrap();
    assert_eq!(b"*".to_vec(), untagged);

    let (_, tag) = parser::start(b"tag ").unwrap();
    assert_eq!(b"tag".to_vec(), tag);
}

#[test]
fn start_counts_what_it_consumed() {
    assert_eq!(Ok((2, b"*".to_vec())), parser::start(b"* OK hello\r\n"));
    assert_eq!(Ok((7, b"select".to_vec())), parser::start(b"select OK done\r\n"));
    assert_eq!(Err(ParseError { location: 3 }), parser::start(b"tag"));
    assert_eq!(Err(ParseError { location: 0 }), parser::start(b""));
    assert_eq!(Err(ParseError { location: 0 }), parser::start(b"+ go"));
    assert_eq!(Err(ParseError { location: 1 }), parser::start(b"*x"));
}

#[test]
fn skip_takes_one_line() {
    assert_eq!(Ok((10, ())), parser::skip(b"anything\r\nmore\r\n"));
    assert_eq!(Err(ParseError { location: 0 }), parser::skip(b"\r\n"));
    assert_eq!(Err(ParseError { location: 8 }), parser::skip(b"no end \r"));
    assert_eq!(Err(ParseError { location: 3 }), parser::skip(b"bad\x80byte\r\n"));
}

#[test]
fn ok_and_bad() {
    assert_eq!(Ok((10, ())), parser::ok(b"OK done.\r\n\r"));
    assert_eq!(Ok((17, ())), parser::bad(b"BAD no command.\r\n"));
    assert_eq!(Err(ParseError { location: 0 }), parser::bad(b"OK done.\r\n"));
    assert_eq!(
        Err(ParseError { location: 0 }),
        parser::ok(b"NO [AUTHENTICATIONFAILED] Authentication failed.\r\n")
    );
    assert_eq!(Err(ParseError { location: 2 }), parser::ok(b"OK\r\n"));
}

#[test]
fn available_capabilities() {
    let (_, capabilities) =
        parser::available_capabilities(b"OK [CAPABILITY IMAP4rev1 AUTH=PLAIN] Dovecot ready.\r\n")
            .unwrap();
    assert_eq!(bytes(&["IMAP4rev1", "AUTH=PLAIN"]), capabilities);
}

#[test]
fn available_capabilities_needs_one() {
    assert!(parser::available_capabilities(b"OK [CAPABILITY] ready.\r\n").is_err());
    assert!(parser::available_capabilities(b"OK ready.\r\n").is_err());
}

#[test]
fn enabled_capabilities() {
    let (_, capabilities) = parser::enabled_capabilities(b"ENABLED CONDSTORE\r\n").unwrap();
    assert_eq!(bytes(&["CONDSTORE"]), capabilities);
}

#[test]
fn enabled_capabilities_may_be_none() {
    assert_eq!(Ok((9, Vec::new())), parser::enabled_capabilities(b"ENABLED\r\n"));
    assert_eq!(
        Ok((27, bytes(&["CONDSTORE", "QRESYNC"]))),
        parser::enabled_capabilities(b"ENABLED CONDSTORE QRESYNC\r\n")
    );
}

#[test]
fn list_mailbox() {
    let (_, (flags, seperator, mailbox)) =
        parser::list_mailbox(b"LIST (\\flag1 \\flag2) \"/\" \"quoted\"\r\n").unwrap();
    assert_eq!(bytes(&["\\flag1", "\\flag2"]), flags);
    assert_eq!(Some(b'/'), seperator);
    assert_eq!(Mailbox::Other(b"quoted".to_vec()), mailbox);

    let (_, (_, _, mailbox)) =
        parser::list_mailbox(b"LIST (\\flag1 \\flag2) \"/\" {7}\r\nliteral\r\n").unwrap();
    assert_eq!(Mailbox::Other(b"literal".to_vec()), mailbox);
}

#[test]
fn list_mailbox_inbox_in_any_case() {
    for name in ["INBOX", "inbox", "InBoX"] {
        let line = format!("LIST () NIL {name}\r\n");
        let (consumed, (flags, separator, mailbox)) = parser::list_mailbox(line.as_bytes()).unwrap();
        assert_eq!(line.len(), consumed);
        assert!(flags.is_empty());
        assert_eq!(None, separator);
        assert_eq!(Mailbox::Inbox, mailbox);
    }
    let (_, (_, _, mailbox)) = parser::list_mailbox(b"LIST () \".\" Drafts\r\n").unwrap();
    assert_eq!(Mailbox::Other(b"Drafts".to_vec()), mailbox);
}

#[test]
fn list_mailbox_unescapes_quoted_names() {
    let (_, (_, separator, mailbox)) =
        parser::list_mailbox(b"LIST (\\Noselect) \"\\\\\" \"a\\\"b\\\\c\"\r\n").unwrap();
    assert_eq!(Some(b'\\'), separator);
    assert_eq!(Mailbox::Other(b"a\"b\\c".to_vec()), mailbox);
}

#[test]
fn literal_takes_its_bytes_whatever_they_are() {
    let (consumed, (uid, body)) =
        parser::fetch_body_data(b"1 FETCH (UID 3 BODY[] {6}\r\na\r\n\x00\xffb)\r\nrest").unwrap();
    assert_eq!(36, consumed);
    assert_eq!(3, uid);
    assert_eq!(Some(b"a\r\n\x00\xffb".to_vec()), body);
    assert!(parser::fetch_body_data(b"1 FETCH (UID 3 BODY[] {7}\r\nshort)\r\n").is_err());
}

#[test]
fn select_data() {
    let (_, select) =
      parser::select_data(b"OK [PERMANENTFLAGS (\\Answered \\Flagged \\Deleted \\Seen \\Draft \\*)] Flags permitted.\r\n").unwrap();
    assert_eq!(
        Select::Flags(bytes(&[
            "\\Answered",
            "\\Flagged",
            "\\Deleted",
            "\\Seen",
            "\\Draft",
            "\\*",
        ])),
        select
    );

    let (_, select) = parser::select_data(b"OK [UIDVALIDITY 1676645821] UIDs valid\r\n").unwrap();
    assert_eq!(Select::UIDValidity(1676645821), select);

    let (_, select) = parser::select_data(b"OK [HIGHESTMODSEQ 2] Highest\r\n").unwrap();
    assert_eq!(Select::HighestModSeq(2), select);

    let (_, select) = parser::select_data(b"VANISHED (EARLIER) 1:10\r\n").unwrap();
    assert_eq!(Select::Vanished(vec![Range(1, 10)]), select);

    for test in [
        b"1 FETCH (UID 10 FLAGS (\\Seen) MODSEQ (100))\r\n",
        b"1 FETCH (FLAGS (\\Seen) MODSEQ (100) UID 10)\r\n",
        b"1 FETCH (MODSEQ (100) UID 10 FLAGS (\\Seen))\r\n",
    ] {
        let (_, select) = parser::select_data(test).unwrap();
        assert_eq!(
            Select::Fetch(SelectFetch {
                uid: 10,
                flags: bytes(&["\\Seen"]),
                modseq: 100
            }),
            select
        );
    }
}

#[test]
fn select_data_in_every_order() {
    for test in [
        "1 FETCH (UID 10 FLAGS (\\Seen keyword) MODSEQ (100))\r\n",
        "1 FETCH (UID 10 MODSEQ (100) FLAGS (\\Seen keyword))\r\n",
        "1 FETCH (FLAGS (\\Seen keyword) UID 10 MODSEQ (100))\r\n",
        "1 FETCH (FLAGS (\\Seen keyword) MODSEQ (100) UID 10)\r\n",
        "1 FETCH (MODSEQ (100) UID 10 FLAGS (\\Seen keyword))\r\n",
        "1 FETCH (MODSEQ (100) FLAGS (\\Seen keyword) UID 10)\r\n",
    ] {
        assert_eq!(
            Ok((
                test.len(),
                Select::Fetch(SelectFetch {
                    uid: 10,
                    flags: bytes(&["\\Seen", "keyword"]),
                    modseq: 100
                })
            )),
            parser::select_data(test.as_bytes())
        );
    }
}

#[test]
fn select_data_without_an_attribute() {
    assert!(parser::select_data(b"1 FETCH (FLAGS (\\Seen) MODSEQ (100))\r\n").is_err());
    assert!(parser::select_data(b"1 FETCH (UID 10 FLAGS (\\Seen))\r\n").is_err());
    assert!(parser::select_data(b"1 FETCH (UID 10 MODSEQ (100))\r\n").is_err());
    assert!(parser::store_data(b"1 FETCH (MODSEQ (100))\r\n").is_err());
    assert!(parser::fetch_size_data(b"1 FETCH (RFC822.SIZE 12)\r\n").is_err());
    assert!(parser::fetch_body_data(b"1 FETCH (BODY[] {0}\r\n)\r\n").is_err());
}

#[test]
fn numbers() {
    assert_eq!(
        Ok((27, Select::HighestModSeq(0))),
        parser::select_data(b"OK [HIGHESTMODSEQ 0] None\r\n")
    );
    assert_eq!(
        Ok((28, Select::HighestModSeq(7))),
        parser::select_data(b"OK [HIGHESTMODSEQ 07] Zero\r\n")
    );
    assert!(parser::select_data(b"OK [UIDVALIDITY 0] Zero\r\n").is_err());
    assert!(parser::select_data(b"OK [UIDVALIDITY 01] Zero\r\n").is_err());
    assert_eq!(
        Ok((46, Select::HighestModSeq(u64::MAX))),
        parser::select_data(b"OK [HIGHESTMODSEQ 18446744073709551615] Most\r\n")
    );
    assert!(parser::select_data(b"OK [HIGHESTMODSEQ 18446744073709551616] More\r\n").is_err());
}

#[test]
fn sequence_sets() {
    let (_, select) = parser::select_data(b"VANISHED (EARLIER) 4:2,7,9:*,*\r\n").unwrap();
    assert_eq!(
        Select::Vanished(vec![
            Range(2, 4),
            Range(7, 7),
            Range(9, u64::MAX),
            Range(0, u64::MAX)
        ]),
        select
    );
    let (_, select) = parser::select_data(b"VANISHED (EARLIER) 2:4\r\n").unwrap();
    assert_eq!(Select::Vanished(vec![Range(2, 4)]), select);
}

#[test]
fn sequence_sets_are_written_in_either_order() {
    let (_, select) = parser::select_data(b"VANISHED (EARLIER) *:9,9:*,*:*,3:3,5:1\r\n").unwrap();
    assert_eq!(
        Select::Vanished(vec![
            Range(9, u64::MAX),
            Range(9, u64::MAX),
            Range(0, u64::MAX),
            Range(3, 3),
            Range(1, 5)
        ]),
        select
    );
}

#[test]
fn fetch_size_data() {
    assert_eq!(
        Ok((35, (10, 1234))),
        parser::fetch_size_data(b"1 FETCH (UID 10 RFC822.SIZE 1234)\r\n")
    );
    assert_eq!(
        Ok((35, (10, 1234))),
        parser::fetch_size_data(b"1 FETCH (RFC822.SIZE 1234 UID 10)\r\n")
    );
}

#[test]
fn fetch_body_data() {
    let (_, fetch) = parser::fetch_body_data(b"1 FETCH (UID 10 BODY[] {0}\r\n)\r\n").unwrap();
    assert_eq!((10, Some(b"".to_vec())), fetch);

    let (_, fetch) = parser::fetch_body_data(b"1 FETCH (BODY[] \"\" UID 10)\r\n").unwrap();
    assert_eq!((10, Some(b"".to_vec())), fetch);
}

#[test]
fn fetch_body_data_nil() {
    assert_eq!(
        Ok((29, (10, None))),
        parser::fetch_body_data(b"1 FETCH (UID 10 BODY[] NIL)\r\n")
    );
}

#[test]
fn append() {
    let (_, append) = parser::append(b"OK [APPENDUID 1677851195 1] Append completed.\r\n").unwrap();
    assert_eq!(
        Append {
            uidvalidity: 1677851195,
            uid: 1
        },
        append
    );
}

#[test]
fn append_data() {
    let (_, highestmodseq) = parser::append_data(b"OK [HIGHESTMODSEQ 3] Highest\r\n").unwrap();
    assert_eq!(highestmodseq, 3);
}

#[test]
fn store() {
    let (_, uids) = parser::store(b"OK Store completed.\r\n").unwrap();
    assert_eq!(None, uids);

    let (_, uids) = parser::store(b"OK [MODIFIED 7,9] Conditional STORE failed\r\n").unwrap();
    assert_eq!(Some(vec![Range(7, 7), Range(9, 9)]), uids);
}

#[test]
fn store_data() {
    let (_, store) = parser::store_data(b"1 FETCH (UID 1 MODSEQ (3))\r\n").unwrap();
    assert_eq!(Store { uid: 1, modseq: 3 }, store);
    let (_, store) = parser::store_data(b"1 FETCH (MODSEQ (3) UID 1)\r\n").unwrap();
    assert_eq!(Store { uid: 1, modseq: 3 }, store);
}

#[test]
fn move_() {
    let (_, highestmodseq) = parser::move_(b"OK Done\r\n").unwrap();
    assert_eq!(None, highestmodseq);

    let (_, highestmodseq) = parser::move_(b"OK [HIGHESTMODSEQ 4] Move completed.\r\n").unwrap();
    assert_eq!(Some(4), highestmodseq);
}

#[test]
fn move_data() {
    let (_, moved) = parser::move_data(b"OK [COPYUID 1677882317 1 1] Moved UIDs.\r\n").unwrap();
    assert_eq!(
        Move {
            uidvalidity: 1677882317,
            from: vec![Range(1, 1)],
            to: vec![Range(1, 1)]
        },
        moved
    );
}

#[test]
fn move_data_takes_single_identifiers() {
    let (_, moved) = parser::move_data(b"OK [COPYUID 5 1,3 7,9] Moved UIDs.\r\n").unwrap();
    assert_eq!(
        Move {
            uidvalidity: 5,
            from: vec![Range(1, 1), Range(3, 3)],
            to: vec![Range(7, 7), Range(9, 9)]
        },
        moved
    );
}

#[test]
fn move_data_takes_ranges() {
    let (_, moved) = parser::move_data(b"OK [COPYUID 5 1:3 7:9] Moved UIDs.\r\n").unwrap();
    assert_eq!(
        Move {
            uidvalidity: 5,
            from: vec![Range(1, 3)],
            to: vec![Range(7, 9)]
        },
        moved
    );
    let (_, moved) = parser::move_data(b"OK [COPYUID 5 4,1:3 12,7:9] Moved UIDs.\r\n").unwrap();
    assert_eq!(
        Move {
            uidvalidity: 5,
            from: vec![Range(4, 4), Range(1, 3)],
            to: vec![Range(12, 12), Range(7, 9)]
        },
        moved
    );
    assert!(parser::move_data(b"OK [COPYUID 5 1: 7] Moved UIDs.\r\n").is_err());
}
