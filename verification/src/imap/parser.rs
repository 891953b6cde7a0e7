//! The parsers of the responses that the engine reads. Each runs one rule of the grammar on
//! the input from its first byte.
use vstd::prelude::*;
use super::grammar;
use super::grammar::Parse;
use super::rules;
use super::{Append, Mailbox, Move, Range, Select, Store};

verus! {

/// A response that the grammar refuses.
#[derive(Clone, Copy, Debug, PartialEq, Eq, Structural)]
pub struct ParseError {
    /// The furthest offset at which the parser looked for something and found something else.
    pub location: usize,
}

/// `r` is the outcome `p` of a rule on `input`: on a match the number of bytes consumed and the
/// value, else the furthest refusal.
pub open spec fn answers<T: DeepView>(
    r: Result<(usize, T), ParseError>,
    p: Parse<T::V>,
    input: Seq<u8>,
) -> bool {
    match r {
        Ok((consumed, value)) => consumed <= input.len() && p.matched == Some(
            (consumed as int, value.deep_view()),
        ),
        Err(error) => p.matched is None && error.location as nat == p.far,
    }
}

fn start_at(input: &[u8], far: &mut usize) -> (r: Option<(usize, Vec<u8>)>)
    ensures
        rules::ran(r, grammar::start(input@, 0), input.len(), *old(far), *final(far)),
{
    reveal(grammar::start);
    let (p, which) = rules::star_or_tag(input, 0, far)?;
    let end = rules::byte(input, p, grammar::SP, far)?;
    Some((end, which))
}

/// `*` for an untagged response or the tag of a tagged one, and the space behind it.
pub fn start(input: &[u8]) -> (r: Result<(usize, Vec<u8>), ParseError>)
    ensures
        answers(r, grammar::start(input@, 0), input@),
        r is Ok ==> (r->Ok_0).0 > 0,
{
    reveal(grammar::start);
    let mut far: usize = 0;
    match start_at(input, &mut far) {
        Some(r) => Ok(r),
        None => Err(ParseError { location: far }),
    }
}

fn skip_at(input: &[u8], far: &mut usize) -> (r: Option<usize>)
    ensures
        rules::passed(r, grammar::skip(input@, 0), input.len(), *old(far), *final(far)),
{
    reveal(grammar::skip);
    let p = rules::text(input, 0, far)?;
    rules::crlf(input, p, far)
}

/// One line of text, whatever it says.
pub fn skip(input: &[u8]) -> (r: Result<(usize, ()), ParseError>)
    ensures
        answers(r, grammar::skip(input@, 0), input@),
{
    reveal(grammar::skip);
    let mut far: usize = 0;
    match skip_at(input, &mut far) {
        Some(end) => Ok((end, ())),
        None => Err(ParseError { location: far }),
    }
}

/// A status line that says BAD.
pub fn bad(input: &[u8]) -> (r: Result<(usize, ()), ParseError>)
    ensures
        answers(r, grammar::bad(input@, 0), input@),
{
    reveal(grammar::bad);
    let mut far: usize = 0;
    match rules::status(input, 0, "BAD", &mut far) {
        Some(end) => Ok((end, ())),
        None => Err(ParseError { location: far }),
    }
}

/// A status line that says OK.
pub fn ok(input: &[u8]) -> (r: Result<(usize, ()), ParseError>)
    ensures
        answers(r, grammar::ok(input@, 0), input@),
{
    reveal(grammar::ok);
    let mut far: usize = 0;
    match rules::status(input, 0, "OK", &mut far) {
        Some(end) => Ok((end, ())),
        None => Err(ParseError { location: far }),
    }
}

fn available_capabilities_at(input: &[u8], far: &mut usize) -> (r: Option<(usize, Vec<Vec<u8>>)>)
    ensures
        rules::ran(r, grammar::available_capabilities(input@, 0), input.len(), *old(far), *final(far)),
{
    reveal(grammar::available_capabilities);
    let p = rules::ok_code(input, 0, far)?;
    let (p, capabilities) = rules::capability_data(input, p, far)?;
    let end = rules::code_end(input, p, far)?;
    Some((end, capabilities))
}

/// An OK that carries the CAPABILITY code: the capabilities it lists.
pub fn available_capabilities(input: &[u8]) -> (r: Result<(usize, Vec<Vec<u8>>), ParseError>)
    ensures
        answers(r, grammar::available_capabilities(input@, 0), input@),
{
    let mut far: usize = 0;
    match available_capabilities_at(input, &mut far) {
        Some(r) => Ok(r),
        None => Err(ParseError { location: far }),
    }
}

fn enabled_capabilities_at(input: &[u8], far: &mut usize) -> (r: Option<(usize, Vec<Vec<u8>>)>)
    ensures
        rules::ran(r, grammar::enabled_capabilities(input@, 0), input.len(), *old(far), *final(far)),
{
    reveal(grammar::enabled_capabilities);
    let p = rules::lit(input, 0, "ENABLED", far)?;
    let (p, capabilities) = rules::capabilities(input, p, far);
    let end = rules::crlf(input, p, far)?;
    Some((end, capabilities))
}

/// An ENABLED line: the capabilities it lists, which may be none.
pub fn enabled_capabilities(input: &[u8]) -> (r: Result<(usize, Vec<Vec<u8>>), ParseError>)
    ensures
        answers(r, grammar::enabled_capabilities(input@, 0), input@),
{
    let mut far: usize = 0;
    match enabled_capabilities_at(input, &mut far) {
        Some(r) => Ok(r),
        None => Err(ParseError { location: far }),
    }
}

fn list_mailbox_at(input: &[u8], far: &mut usize) -> (r: Option<(usize, (Vec<Vec<u8>>, Option<u8>, Mailbox))>)
    ensures
        rules::ran(r, grammar::list_mailbox(input@, 0), input.len(), *old(far), *final(far)),
{
    reveal(grammar::list_mailbox);
    let p = rules::lit(input, 0, "LIST", far)?;
    let p = rules::byte(input, p, grammar::SP, far)?;
    let (p, entry) = rules::mailbox_list(input, p, far)?;
    let end = rules::crlf(input, p, far)?;
    Some((end, entry))
}

/// A LIST line: the flags of the mailbox, its hierarchy separator and its name.
pub fn list_mailbox(input: &[u8]) -> (r: Result<(usize, (Vec<Vec<u8>>, Option<u8>, Mailbox)), ParseError>)
    ensures
        answers(r, grammar::list_mailbox(input@, 0), input@),
{
    let mut far: usize = 0;
    match list_mailbox_at(input, &mut far) {
        Some(r) => Ok(r),
        None => Err(ParseError { location: far }),
    }
}

fn select_data_at(input: &[u8], far: &mut usize) -> (r: Option<(usize, Select)>)
    ensures
        rules::ran(r, grammar::select_data(input@, 0), input.len(), *old(far), *final(far)),
{
    reveal(grammar::select_data);
    let (p, item) = rules::select_item(input, 0, far)?;
    let end = rules::crlf(input, p, far)?;
    Some((end, item))
}

/// One untagged response to a SELECT: the PERMANENTFLAGS, UIDVALIDITY or HIGHESTMODSEQ code,
/// a VANISHED (EARLIER) line, or a FETCH of UID, FLAGS and MODSEQ in any order.
pub fn select_data(input: &[u8]) -> (r: Result<(usize, Select), ParseError>)
    ensures
        answers(r, grammar::select_data(input@, 0), input@),
{
    let mut far: usize = 0;
    match select_data_at(input, &mut far) {
        Some(r) => Ok(r),
        None => Err(ParseError { location: far }),
    }
}

fn fetch_size_data_at(input: &[u8], far: &mut usize) -> (r: Option<(usize, (u64, u64))>)
    ensures
        rules::ran(r, grammar::fetch_size_data(input@, 0), input.len(), *old(far), *final(far)),
{
    reveal(grammar::fetch_size_data);
    let p = rules::fetch_head(input, 0, far)?;
    let (p, pair) = rules::size_attributes(input, p, far)?;
    let p = rules::byte(input, p, grammar::RPAREN, far)?;
    let end = rules::crlf(input, p, far)?;
    Some((end, pair))
}

/// A FETCH of UID and RFC822.SIZE in either order: the identifier and the size.
pub fn fetch_size_data(input: &[u8]) -> (r: Result<(usize, (u64, u64)), ParseError>)
    ensures
        answers(r, grammar::fetch_size_data(input@, 0), input@),
{
    let mut far: usize = 0;
    match fetch_size_data_at(input, &mut far) {
        Some(r) => Ok(r),
        None => Err(ParseError { location: far }),
    }
}

fn fetch_body_data_at(input: &[u8], far: &mut usize) -> (r: Option<(usize, (u64, Option<Vec<u8>>))>)
    ensures
        rules::ran(r, grammar::fetch_body_data(input@, 0), input.len(), *old(far), *final(far)),
{
    reveal(grammar::fetch_body_data);
    let p = rules::fetch_head(input, 0, far)?;
    let (p, pair) = rules::body_attributes(input, p, far)?;
    let p = rules::byte(input, p, grammar::RPAREN, far)?;
    let end = rules::crlf(input, p, far)?;
    Some((end, pair))
}

/// A FETCH of UID and BODY[] in either order: the identifier and the body, none for NIL.
pub fn fetch_body_data(input: &[u8]) -> (r: Result<(usize, (u64, Option<Vec<u8>>)), ParseError>)
    ensures
        answers(r, grammar::fetch_body_data(input@, 0), input@),
{
    let mut far: usize = 0;
    match fetch_body_data_at(input, &mut far) {
        Some(r) => Ok(r),
        None => Err(ParseError { location: far }),
    }
}

fn append_at(input: &[u8], far: &mut usize) -> (r: Option<(usize, Append)>)
    ensures
        rules::ran(r, grammar::append(input@, 0), input.len(), *old(far), *final(far)),
{
    reveal(grammar::append);
    let p = rules::ok_code(input, 0, far)?;
    let (p, placed) = rules::code_appenduid(input, p, far)?;
    let end = rules::code_end(input, p, far)?;
    Some((end, placed))
}

/// The OK that completes an APPEND, with its APPENDUID code.
pub fn append(input: &[u8]) -> (r: Result<(usize, Append), ParseError>)
    ensures
        answers(r, grammar::append(input@, 0), input@),
{
    let mut far: usize = 0;
    match append_at(input, &mut far) {
        Some(r) => Ok(r),
        None => Err(ParseError { location: far }),
    }
}

fn append_data_at(input: &[u8], far: &mut usize) -> (r: Option<(usize, u64)>)
    ensures
        rules::ran(r, grammar::append_data(input@, 0), input.len(), *old(far), *final(far)),
{
    reveal(grammar::append_data);
    let p = rules::ok_code(input, 0, far)?;
    let (p, modseq) = rules::code_highestmodseq(input, p, far)?;
    let end = rules::code_end(input, p, far)?;
    Some((end, modseq))
}

/// The untagged OK with the HIGHESTMODSEQ code that precedes the completion of an APPEND.
pub fn append_data(input: &[u8]) -> (r: Result<(usize, u64), ParseError>)
    ensures
        answers(r, grammar::append_data(input@, 0), input@),
{
    let mut far: usize = 0;
    match append_data_at(input, &mut far) {
        Some(r) => Ok(r),
        None => Err(ParseError { location: far }),
    }
}

fn store_at(input: &[u8], far: &mut usize) -> (r: Option<(usize, Option<Vec<Range>>)>)
    ensures
        rules::ran(r, grammar::store(input@, 0), input.len(), *old(far), *final(far)),
{
    reveal(grammar::store);
    let p = rules::ok_sp(input, 0, far)?;
    let (p, modified) = match rules::bracketed_modified(input, p, far) {
        Some((after, uids)) => {
            proof {
                rules::lemma_ranges_deep_view(uids);
            }
            (after, Some(uids))
        },
        None => (p, None),
    };
    let p = rules::text(input, p, far)?;
    let end = rules::crlf(input, p, far)?;
    Some((end, modified))
}

/// The OK that completes a STORE: the identifiers of its MODIFIED code, if it carries one.
pub fn store(input: &[u8]) -> (r: Result<(usize, Option<Vec<Range>>), ParseError>)
    ensures
        answers(r, grammar::store(input@, 0), input@),
{
    let mut far: usize = 0;
    match store_at(input, &mut far) {
        Some(r) => Ok(r),
        None => Err(ParseError { location: far }),
    }
}

fn store_data_at(input: &[u8], far: &mut usize) -> (r: Option<(usize, Store)>)
    ensures
        rules::ran(r, grammar::store_data(input@, 0), input.len(), *old(far), *final(far)),
{
    reveal(grammar::store_data);
    let p = rules::fetch_head(input, 0, far)?;
    let (p, stored) = rules::store_attributes(input, p, far)?;
    let p = rules::byte(input, p, grammar::RPAREN, far)?;
    let end = rules::crlf(input, p, far)?;
    Some((end, stored))
}

/// The untagged FETCH of UID and MODSEQ, in either order, that a STORE causes.
pub fn store_data(input: &[u8]) -> (r: Result<(usize, Store), ParseError>)
    ensures
        answers(r, grammar::store_data(input@, 0), input@),
{
    let mut far: usize = 0;
    match store_data_at(input, &mut far) {
        Some(r) => Ok(r),
        None => Err(ParseError { location: far }),
    }
}

fn move__at(input: &[u8], far: &mut usize) -> (r: Option<(usize, Option<u64>)>)
    ensures
        rules::ran(r, grammar::move_(input@, 0), input.len(), *old(far), *final(far)),
{
    reveal(grammar::move_);
    let p = rules::ok_sp(input, 0, far)?;
    let (p, modseq) = match rules::bracketed_highestmodseq(input, p, far) {
        Some((after, n)) => (after, Some(n)),
        None => (p, None),
    };
    let p = rules::text(input, p, far)?;
    let end = rules::crlf(input, p, far)?;
    Some((end, modseq))
}

/// The OK that completes a MOVE: the mod-sequence of its HIGHESTMODSEQ code, if it carries
/// one.
pub fn move_(input: &[u8]) -> (r: Result<(usize, Option<u64>), ParseError>)
    ensures
        answers(r, grammar::move_(input@, 0), input@),
{
    let mut far: usize = 0;
    match move__at(input, &mut far) {
        Some(r) => Ok(r),
        None => Err(ParseError { location: far }),
    }
}

fn move_data_at(input: &[u8], far: &mut usize) -> (r: Option<(usize, Move)>)
    ensures
        rules::ran(r, grammar::move_data(input@, 0), input.len(), *old(far), *final(far)),
{
    reveal(grammar::move_data);
    let p = rules::ok_code(input, 0, far)?;
    let (p, moved) = rules::code_copyuid(input, p, far)?;
    let end = rules::code_end(input, p, far)?;
    Some((end, moved))
}

/// The untagged OK with the COPYUID code that a MOVE causes.
pub fn move_data(input: &[u8]) -> (r: Result<(usize, Move), ParseError>)
    ensures
        answers(r, grammar::move_data(input@, 0), input@),
{
    let mut far: usize = 0;
    match move_data_at(input, &mut far) {
        Some(r) => Ok(r),
        None => Err(ParseError { location: far }),
    }
}

} // verus!
