use sin::error::Error;
use sin::imap::parser;
use sin::imap::parser::ParseError;
use sin::imap::stream::Stream;

fn fed(bytes: &[u8]) -> Stream {
    let mut stream = Stream::new();
    stream.read(bytes).unwrap();
    stream
}

#[test]
fn read_takes_in_what_came() {
    let mut stream = Stream::new();
    assert_eq!(Ok(5), stream.read(b"* OK "));
    assert_eq!(Ok(7), stream.read(b"hello\r\n"));
    assert_eq!(b"* OK hello\r\n".to_vec(), stream.rest().to_vec());
}

#[test]
fn read_of_nothing_is_the_end_of_the_stream() {
    let mut stream = fed(b"* OK hello\r\n");
    assert_eq!(Err(Error::EndOfStream), stream.read(b""));
    assert_eq!(b"* OK hello\r\n".to_vec(), stream.rest().to_vec());
}

#[test]
fn parse_moves_the_cursor_on_a_match_only() {
    let mut stream = fed(b"* OK hello\r\ntag BAD no\r\n");
    assert_eq!(None, stream.parse(parser::ok));
    assert_eq!(b"* OK hello\r\ntag BAD no\r\n".to_vec(), stream.rest().to_vec());
    assert_eq!(Some(b"*".to_vec()), stream.parse(parser::start));
    assert_eq!(b"OK hello\r\ntag BAD no\r\n".to_vec(), stream.rest().to_vec());
    assert_eq!(None, stream.parse(parser::bad));
    assert_eq!(Some(()), stream.parse(parser::ok));
    assert_eq!(b"tag BAD no\r\n".to_vec(), stream.rest().to_vec());
}

#[test]
fn expect_fails_where_the_parser_refuses() {
    let mut stream = fed(b"tag BAD no\r\n");
    assert_eq!(Ok(b"tag".to_vec()), stream.expect(parser::start));
    assert_eq!(
        Err(Error::Parse(ParseError { location: 0 })),
        stream.expect(parser::ok)
    );
    assert_eq!(b"BAD no\r\n".to_vec(), stream.rest().to_vec());
    assert_eq!(Ok(()), stream.expect(parser::bad));
    assert_eq!(
        Err(Error::Parse(ParseError { location: 0 })),
        stream.expect(parser::start)
    );
}

#[test]
fn input_drops_what_was_consumed() {
    let mut stream = fed(b"* OK hello\r\nrest");
    stream.expect(parser::start).unwrap();
    stream.expect(parser::ok).unwrap();
    let (bytes, line) = stream.input(&vec![b"a LOGIN ".to_vec(), b"secret\r\n".to_vec()], 1);
    assert_eq!(b"a LOGIN secret\r\n".to_vec(), bytes);
    assert_eq!("> a LOGIN ...omitted...", line);
    assert_eq!(b"rest".to_vec(), stream.rest().to_vec());
}

#[test]
fn chunk_sends_a_noop_under_the_sentinel() {
    let mut stream = Stream::new();
    assert_eq!(Ok(b"needle NOOP\r\n".to_vec()), stream.chunk_with(b"needle".to_vec()));
    let first = stream.chunk().unwrap();
    let second = stream.chunk().unwrap();
    assert!(first.ends_with(b" NOOP\r\n"));
    assert_eq!(36 + 7, first.len());
    assert_ne!(first, second);
}

#[test]
fn framed_waits_for_the_whole_completion() {
    let mut stream = Stream::new();
    assert!(stream.framed());
    stream.read(b"* OK [CAPABILITY IMAP4rev1] hello").unwrap();
    stream.chunk_with(b"needle".to_vec()).unwrap();
    assert!(!stream.framed());
    stream.read(b"\r\n* 1 EXISTS").unwrap();
    assert!(!stream.framed());
    stream.read(b"\r\nneedle O").unwrap();
    assert!(!stream.framed());
    stream.read(b"K NOOP completed").unwrap();
    assert!(!stream.framed());
    stream.read(b".\r").unwrap();
    assert!(!stream.framed());
    stream.read(b"\n").unwrap();
    assert!(stream.framed());
    assert!(stream.framed());
    assert_eq!(
        b"* OK [CAPABILITY IMAP4rev1] hello\r\n* 1 EXISTS\r\nneedle OK NOOP completed.\r\n".to_vec(),
        stream.rest().to_vec()
    );
}

#[test]
fn framed_finds_the_last_completion() {
    let mut stream = Stream::new();
    stream.chunk_with(b"n".to_vec()).unwrap();
    stream.read(b"* x\r\nn OK \r\nn OK done\r\n").unwrap();
    assert!(stream.framed());
}

#[test]
fn framed_needs_a_line_before_the_sentinel() {
    let mut stream = Stream::new();
    stream.chunk_with(b"needle".to_vec()).unwrap();
    stream.read(b"needle OK NOOP completed.\r\n").unwrap();
    assert!(!stream.framed());
}

#[test]
fn chunk_passes_over_what_is_left_of_the_chunk_before() {
    let mut stream = Stream::new();
    stream.chunk_with(b"one".to_vec()).unwrap();
    stream.read(b"* OK hello\r\n* 1 EXISTS\r\none OK NOOP completed.\r\n").unwrap();
    assert!(stream.framed());
    stream.expect(parser::start).unwrap();
    stream.expect(parser::ok).unwrap();
    stream.input(&vec![b"list LIST \"\" \"*\"\r\n".to_vec()], 1);
    stream.read(b"* LIST () \"/\" INBOX\r\n").unwrap();
    assert_eq!(Ok(b"two NOOP\r\n".to_vec()), stream.chunk_with(b"two".to_vec()));
    assert_eq!(b"* LIST () \"/\" INBOX\r\n".to_vec(), stream.rest().to_vec());
}

#[test]
fn chunk_fails_on_another_tag() {
    let mut stream = Stream::new();
    stream.chunk_with(b"one".to_vec()).unwrap();
    stream.read(b"* OK hello\r\none OK NOOP completed.\r\n").unwrap();
    assert!(stream.framed());
    stream.input(&Vec::new(), 0);
    stream.read(b"other OK what\r\n").unwrap();
    assert_eq!(Ok(b"two NOOP\r\n".to_vec()), stream.chunk_with(b"two".to_vec()));

    let mut stream = Stream::new();
    stream.chunk_with(b"one".to_vec()).unwrap();
    stream.read(b"* OK hello\r\nother OK what\r\none OK NOOP completed.\r\n").unwrap();
    assert!(stream.framed());
    assert_eq!(Err(Error::UnexpectedTag), stream.chunk_with(b"two".to_vec()));

    let mut stream = Stream::new();
    stream.chunk_with(b"one".to_vec()).unwrap();
    stream.read(b"* OK hello\r\none BAD what\r\none OK NOOP completed.\r\n").unwrap();
    assert!(stream.framed());
    assert_eq!(
        Err(Error::Parse(ParseError { location: 0 })),
        stream.chunk_with(b"two".to_vec())
    );
}

fn is_identifier(name: &[u8]) -> bool {
    name.len() == 36
        && name.iter().enumerate().all(|(at, byte)| match at {
            8 | 13 | 18 | 23 => *byte == b'-',
            _ => byte.is_ascii_digit() || (b'a'..=b'f').contains(byte),
        })
}

#[test]
fn chunk_draws_a_sentinel_that_is_a_tag() {
    let mut stream = Stream::new();
    for _ in 0..16 {
        let noop = stream.chunk().unwrap();
        let sentinel = &noop[..36];
        assert!(is_identifier(sentinel));
        assert_eq!(b" NOOP\r\n".to_vec(), noop[36..].to_vec());
        let mut completion = sentinel.to_vec();
        completion.extend_from_slice(b" OK NOOP completed.\r\n");
        assert_eq!(Ok((37, sentinel.to_vec())), parser::start(&completion));
        assert!(!stream.framed());
        let mut answer = b"* 1 EXISTS\r\n".to_vec();
        answer.extend_from_slice(&completion);
        stream.read(&answer).unwrap();
        assert!(stream.framed());
    }
}
