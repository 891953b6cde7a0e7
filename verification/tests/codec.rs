use sin::imap::codec::{plain, utf7_to_utf8};
use sin::imap::log::{escape, summarize};
use sin::imap::stream::Stream;

#[test]
fn utf7_to_ut8() {
    assert_eq!("", utf7_to_utf8(b"").unwrap());
    assert_eq!("&", utf7_to_utf8(b"&-").unwrap());
    assert_eq!(
        "~peter/mail/台北/日本語",
        utf7_to_utf8(b"~peter/mail/&U,BTFw-/&ZeVnLIqe-").unwrap()
    );
    assert_eq!(None, utf7_to_utf8(b"&Jjo!"));
    assert_eq!("☺!", utf7_to_utf8(b"&Jjo-!").unwrap());
    assert_eq!("台北日本語", utf7_to_utf8(b"&U,BTFw-&ZeVnLIqe-").unwrap());
    assert_eq!("台北日本語", utf7_to_utf8(b"&U,BTF2XlZyyKng-").unwrap())
}

#[test]
fn utf7_direct_characters_read_as_written() {
    assert_eq!("INBOX", utf7_to_utf8(b"INBOX").unwrap());
    assert_eq!("folder/sub 1~", utf7_to_utf8(b"folder/sub 1~").unwrap());
    assert_eq!("a&b", utf7_to_utf8(b"a&-b").unwrap());
}

#[test]
fn utf7_refuses_what_is_not_modified_utf7() {
    assert_eq!(None, utf7_to_utf8(b"&"));
    assert_eq!(None, utf7_to_utf8(b"a&Jjo"));
    assert_eq!(None, utf7_to_utf8(b"caf\xc3\xa9"));
    assert_eq!(None, utf7_to_utf8(b"tab\there"));
    assert_eq!(None, utf7_to_utf8(b"&!!!-"));
    assert_eq!(None, utf7_to_utf8(b"&Jg-"));
}

#[test]
fn plain_credentials() {
    assert_eq!("AHVzZXIAcGFzc3dvcmQ=", plain("user", "password"));
    assert_eq!("AAA=", plain("", ""));
    assert_eq!("AHTDqXN0AHDDpHNz", plain("tést", "päss"));
}

#[test]
fn escape_shows_bytes_in_ascii() {
    assert_eq!("abc", escape(b"abc"));
    assert_eq!("a\\r\\n", escape(b"a\r\n"));
    assert_eq!("\\t\\'\\\"\\\\", escape(b"\t'\"\\"));
    assert_eq!("\\x00\\x1f\\x7f\\x80\\xff ~", escape(b"\x00\x1f\x7f\x80\xff ~"));
    assert_eq!("", escape(b""));
}

#[test]
fn summarize_shows_the_first_line() {
    assert_eq!("one\\r\\n...omitted...", summarize(b"one\r\ntwo\r\n"));
    assert_eq!("one\\r\\n", summarize(b"one\r\n"));
    assert_eq!("no end", summarize(b"no end"));
    assert_eq!("", summarize(b""));
    assert_eq!("\\r\\n...omitted...", summarize(b"\r\n\r\n"));
    assert_eq!("a\\r", summarize(b"a\r"));
}

#[test]
fn inner_input_hides_what_is_not_for_the_log() {
    let buffers = vec![b"login ".to_vec(), b"secret".to_vec(), b"\r\n".to_vec()];
    assert_eq!("> login ...omitted...", Stream::inner_input(&buffers, 1));
    assert_eq!("> login secret\\r\\n", Stream::inner_input(&buffers, 3));
    assert_eq!("> login secret...omitted...", Stream::inner_input(&buffers, 2));
    assert_eq!("> ...omitted...", Stream::inner_input(&buffers, 0));
    assert_eq!("> ...omitted...", Stream::inner_input(&Vec::new(), 0));
}

#[test]
fn utf7_names_read_part_by_part() {
    assert_eq!("a&b\u{e9}c", utf7_to_utf8(b"a&-b&AOk-c").unwrap());
    assert_eq!("&&", utf7_to_utf8(b"&-&-").unwrap());
    assert_eq!("\u{e9}&", utf7_to_utf8(b"&AOk-&-").unwrap());
    assert_eq!("-", utf7_to_utf8(b"-").unwrap());
    assert_eq!("&-", utf7_to_utf8(b"&--").unwrap());
    assert_eq!(None, utf7_to_utf8(b"a&-b&AOk"));
}
