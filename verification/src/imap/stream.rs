//! The framed stream: the bytes that the server sent, a cursor into them, and the sentinel that
//! marks where the answers to one command end.
//!
//! Responses have no length. So behind each command goes a NOOP under a tag of its own, the
//! sentinel: once the completion of that NOOP is in the buffer, every answer to the command is.
use vstd::prelude::*;
use vstd::slice::{slice_subrange, slice_to_vec};
use vstd::string::StringExecFns;
use super::grammar;
use super::log;
use super::parser;
use super::parser::ParseError;
use super::rules;
use crate::bytes;
use crate::error::Error;
use crate::text;

verus! {

/// What a stream holds.
pub struct StreamView {
    /// The bytes received and not yet dropped.
    pub buffer: Seq<u8>,
    /// The offset in `buffer` up to which the responses were consumed.
    pub end: int,
    /// The sentinel that closes the responses in `buffer`, once its completion was seen whole.
    pub needle: Option<Seq<u8>>,
    /// The sentinel that was sent and whose completion was not seen whole yet.
    pub pending: Option<Seq<u8>>,
    /// Where the search for the pending sentinel starts.
    pub start: int,
    /// The number of bytes received while the pending sentinel was looked for.
    pub next_start: int,
    /// Where the completion of the pending sentinel starts, once it was found.
    pub found: Option<int>,
}

/// The framed stream.
pub struct Stream {
    buffer: Vec<u8>,
    end: usize,
    needle: Option<Vec<u8>>,
    pending: Option<Vec<u8>>,
    start: usize,
    next_start: usize,
    found: Option<usize>,
}

/// Where a scan of the buffer stopped, and with what.
pub struct Scan<T> {
    pub end: int,
    pub result: Result<T, Error>,
}

/// The bytes that `bytes` holds, if it holds any.
pub open spec fn option_view(bytes: Option<Vec<u8>>) -> Option<Seq<u8>> {
    match bytes {
        Some(bytes) => Some(bytes@),
        None => None,
    }
}

/// The offset that `n` holds, if it holds one.
pub open spec fn option_int(n: Option<usize>) -> Option<int> {
    match n {
        Some(n) => Some(n as int),
        None => None,
    }
}

impl View for Stream {
    type V = StreamView;

    closed spec fn view(&self) -> StreamView {
        StreamView {
            buffer: self.buffer@,
            end: self.end as int,
            needle: option_view(self.needle),
            pending: option_view(self.pending),
            start: self.start as int,
            next_start: self.next_start as int,
            found: option_int(self.found),
        }
    }
}

/// The error of a parser that refused its input, having looked as far as `far`.
pub open spec fn refused(far: nat) -> Error {
    Error::Parse(ParseError { location: far as usize })
}

/// What announces the completion of the NOOP sent under `needle`: the end of a line, the
/// sentinel, and ` OK `.
pub open spec fn completion(needle: Seq<u8>) -> Seq<u8> {
    seq![grammar::CR, grammar::LF] + needle + seq![grammar::SP, 0x4f, 0x4b, grammar::SP]
}

/// `pattern` stands in `buffer` at `at`.
pub open spec fn occurs(buffer: Seq<u8>, pattern: Seq<u8>, at: int) -> bool {
    0 <= at && at + pattern.len() <= buffer.len() && buffer.subrange(at, at + pattern.len())
        == pattern
}

/// `at` is the last place at or behind `from` where `pattern` stands in `buffer`.
pub open spec fn last_occurrence(buffer: Seq<u8>, pattern: Seq<u8>, from: int, at: int) -> bool {
    from <= at && occurs(buffer, pattern, at) && forall|later: int|
        at < later ==> !occurs(buffer, pattern, later)
}

/// Where the responses that `needle` closes end, read from `end` on: untagged lines are
/// passed over up to the line that carries `needle` as its tag, which has to say OK. Any
/// other tag is an error.
pub open spec fn drained(buffer: Seq<u8>, end: int, needle: Seq<u8>) -> Scan<()>
    decreases buffer.len() - end,
{
    let head = grammar::start(buffer.subrange(end, buffer.len() as int), 0);
    match head.matched {
        None => Scan { end, result: Err(refused(head.far)) },
        Some((n, tag)) => {
            let at = end + n;
            let tail = buffer.subrange(at, buffer.len() as int);
            if tag == seq![grammar::STAR] {
                let line = grammar::skip(tail, 0);
                match line.matched {
                    Some((m, _)) if end < at + m <= buffer.len() => drained(buffer, at + m, needle),
                    _ => Scan { end: at, result: Err(refused(line.far)) },
                }
            } else if tag == needle {
                let line = grammar::ok(tail, 0);
                match line.matched {
                    Some((m, _)) => Scan { end: at + m, result: Ok(()) },
                    None => Scan { end: at, result: Err(refused(line.far)) },
                }
            } else {
                Scan { end: at, result: Err(Error::UnexpectedTag) }
            }
        },
    }
}

impl StreamView {
    /// The bytes that no parser has consumed yet.
    pub open spec fn rest(self) -> Seq<u8> {
        self.buffer.subrange(self.end, self.buffer.len() as int)
    }

    /// The cursor and the search window lie in the buffer, and so does the completion that
    /// was found.
    pub open spec fn wf(self) -> bool {
        &&& 0 <= self.end <= self.buffer.len()
        &&& 0 <= self.start <= self.buffer.len()
        &&& 0 <= self.next_start <= self.buffer.len()
        &&& match self.found {
            Some(at) => self.pending is Some && occurs(
                self.buffer,
                completion(self.pending->0),
                at,
            ),
            None => true,
        }
    }

    /// The stream once the cursor is at `end`.
    pub open spec fn at(self, end: int) -> StreamView {
        StreamView { end, ..self }
    }

    /// The stream once `received` has come in.
    pub open spec fn fed(self, received: Seq<u8>) -> StreamView {
        StreamView {
            buffer: self.buffer + received,
            next_start: if self.pending is Some && self.found is None {
                self.next_start + received.len()
            } else {
                self.next_start
            },
            ..self
        }
    }

    /// The stream once what was consumed is dropped.
    pub open spec fn compacted(self) -> StreamView {
        StreamView {
            buffer: self.rest(),
            end: 0,
            needle: self.needle,
            pending: None,
            start: 0,
            next_start: 0,
            found: None,
        }
    }

    /// The stream once `needle` was sent and is waited for.
    pub open spec fn awaiting(self, needle: Seq<u8>) -> StreamView {
        StreamView {
            needle: None,
            pending: Some(needle),
            start: 0,
            next_start: 0,
            found: None,
            ..self
        }
    }

    /// The start of a chunk under the sentinel `needle`: what is left of the chunk before is
    /// passed over, and `r` is the NOOP to send, or the error that the leftovers gave.
    pub open spec fn chunked(self, after: StreamView, r: Result<Vec<u8>, Error>, needle: Seq<u8>) -> bool {
        match self.needle {
            None => r is Ok && r->Ok_0@ == noop(needle) && after == self.awaiting(needle),
            Some(previous) => {
                let scan = drained(self.buffer, self.end, previous);
                match scan.result {
                    Ok(_) => r is Ok && r->Ok_0@ == noop(needle) && after == self.at(
                        scan.end,
                    ).awaiting(needle),
                    Err(error) => r == Err::<Vec<u8>, Error>(error) && after == (StreamView {
                        needle: None,
                        ..self.at(scan.end)
                    }),
                }
            },
        }
    }

    /// The stream once the completion at `at` of the pending sentinel turned out to be whole.
    pub open spec fn closed(self) -> StreamView {
        StreamView { needle: self.pending, pending: None, start: 0, next_start: 0, found: None, ..self }
    }

    /// Whether the line at `at` that completes the pending sentinel is whole.
    pub open spec fn whole(self, at: int) -> bool {
        grammar::ok(
            self.buffer.subrange(at + self.pending->0.len() + 3, self.buffer.len() as int),
            0,
        ).matched is Some
    }

    /// One look for the completion of the pending sentinel: `after` is the stream behind it
    /// and `framed` says whether every answer is in the buffer.
    pub open spec fn sought(self, after: StreamView, framed: bool) -> bool {
        match self.pending {
            None => framed && after == self,
            Some(needle) => match self.found {
                Some(at) => if self.whole(at) {
                    framed && after == self.closed()
                } else {
                    !framed && after == self
                },
                None => {
                    ||| exists|at: int| #[trigger]
                        last_occurrence(self.buffer, completion(needle), self.start, at) && (
                        if self.whole(at) {
                            framed && after == self.closed()
                        } else {
                            !framed && after == (StreamView { found: Some(at), ..self })
                        })
                    ||| (forall|at: int|
                        self.start <= at ==> !occurs(self.buffer, completion(needle), at))
                        && !framed && after == (StreamView {
                        start: if self.next_start >= completion(needle).len() {
                            self.next_start - completion(needle).len()
                        } else {
                            0
                        },
                        ..self
                    })
                },
            },
        }
    }
}

/// The offset of the last place where `needle` stands in `haystack`, as
/// `memchr::memmem::rfind_iter` finds it first, or none where it stands nowhere.
#[verifier::external_body]
fn rfind(haystack: &[u8], needle: &[u8]) -> (r: Option<usize>)
    ensures
        match r {
            Some(at) => last_occurrence(haystack@, needle@, 0, at as int),
            None => forall|at: int| !occurs(haystack@, needle@, at),
        },
{
    memchr::memmem::rfind_iter(haystack, needle).next()
}

/// The completion of the NOOP sent under `needle`.
fn completion_of(needle: &Vec<u8>) -> (r: Vec<u8>)
    ensures
        r@ == completion(needle@),
{
    let mut out: Vec<u8> = Vec::new();
    out.push(grammar::CR);
    out.push(grammar::LF);
    bytes::extend(&mut out, needle.as_slice());
    out.push(grammar::SP);
    out.push(0x4f);
    out.push(0x4b);
    out.push(grammar::SP);
    assert(out@ =~= completion(needle@));
    out
}

/// The NOOP to send under `needle`.
pub open spec fn noop(needle: Seq<u8>) -> Seq<u8> {
    needle + seq![grammar::SP, 0x4e, 0x4f, 0x4f, 0x50, grammar::CR, grammar::LF]
}

fn noop_of(needle: &Vec<u8>) -> (r: Vec<u8>)
    ensures
        r@ == noop(needle@),
{
    let mut out: Vec<u8> = Vec::new();
    bytes::extend(&mut out, needle.as_slice());
    out.push(grammar::SP);
    out.push(0x4e);
    out.push(0x4f);
    out.push(0x4f);
    out.push(0x50);
    out.push(grammar::CR);
    out.push(grammar::LF);
    assert(out@ =~= noop(needle@));
    out
}

/// Where `pattern` stands in what `buffer` holds from `start` on, it stands in `buffer`.
pub proof fn lemma_occurs_from(buffer: Seq<u8>, pattern: Seq<u8>, start: int, at: int)
    requires
        0 <= start <= buffer.len(),
        0 <= at,
    ensures
        occurs(buffer.subrange(start, buffer.len() as int), pattern, at) == occurs(
            buffer,
            pattern,
            start + at,
        ),
{
    let tail = buffer.subrange(start, buffer.len() as int);
    if at + pattern.len() <= tail.len() {
        assert(tail.subrange(at, at + pattern.len()) =~= buffer.subrange(
            start + at,
            start + at + pattern.len(),
        ));
    }
}

/// A byte that writes a hexadecimal digit in lower case.
pub open spec fn is_hex(b: u8) -> bool {
    (0x30 <= b && b <= 0x39) || (0x61 <= b && b <= 0x66)
}

/// The shape of a sentinel that the stream draws itself: the 36 bytes of a random
/// identifier, hexadecimal digits in lower case in five groups with a hyphen between two.
pub open spec fn is_sentinel(needle: Seq<u8>) -> bool {
    &&& needle.len() == 36
    &&& forall|i: int|
        0 <= i < 36 ==> if i == 8 || i == 13 || i == 18 || i == 23 {
            #[trigger] needle[i] == 0x2d
        } else {
            is_hex(needle[i])
        }
}

impl Stream {
    /// A stream that has received nothing.
    pub fn new() -> (r: Stream)
        ensures
            r@ == (StreamView {
                buffer: Seq::empty(),
                end: 0,
                needle: None,
                pending: None,
                start: 0,
                next_start: 0,
                found: None,
            }),
            r@.wf(),
    {
        Stream {
            buffer: Vec::new(),
            end: 0,
            needle: None,
            pending: None,
            start: 0,
            next_start: 0,
            found: None,
        }
    }

    /// Takes in what one read from the connection returned. A read that returned nothing means
    /// that the server is gone.
    pub fn read(&mut self, received: &[u8]) -> (r: Result<usize, Error>)
        requires
            old(self)@.wf(),
        ensures
            final(self)@.wf(),
            received@.len() == 0 ==> r == Err::<usize, Error>(Error::EndOfStream) && final(self)@
                == old(self)@,
            received@.len() > 0 ==> r == Ok::<usize, Error>(received.len()) && final(self)@
                == old(self)@.fed(received@),
    {
        if received.len() == 0 {
            Err(Error::EndOfStream)
        } else {
            self.buffer.extend_from_slice(received);
            assert(self.buffer@ =~= old(self).buffer@ + received@);
            let total = self.buffer.len();
            if self.pending.is_some() && self.found.is_none() {
                self.next_start = self.next_start + received.len();
            }
            proof {
                match old(self)@.found {
                    Some(at) => {
                        let pattern = completion(old(self)@.pending->0);
                        assert(self.buffer@.subrange(at, at + pattern.len()) =~= old(
                            self,
                        ).buffer@.subrange(at, at + pattern.len()));
                    },
                    None => {},
                }
            }
            Ok(received.len())
        }
    }

    /// The bytes that no parser has consumed yet.
    pub fn rest(&self) -> (r: &[u8])
        requires
            self@.wf(),
        ensures
            r@ == self@.rest(),
    {
        slice_subrange(self.buffer.as_slice(), self.end, self.buffer.len())
    }

    /// Moves the cursor over `consumed` bytes.
    pub fn advance(&mut self, consumed: usize)
        requires
            old(self)@.wf(),
            consumed <= old(self)@.rest().len(),
        ensures
            final(self)@.wf(),
            final(self)@ == old(self)@.at(old(self)@.end + consumed),
    {
        let total = self.buffer.len();
        self.end = self.end + consumed;
    }

    /// Runs `parser` on the bytes not yet consumed. Where it matches, the cursor moves behind
    /// the match; where it does not, nothing changes.
    pub fn parse<R, P: Fn(&[u8]) -> Result<(usize, R), ParseError>>(&mut self, parser: P) -> (r:
        Option<R>)
        requires
            old(self)@.wf(),
            forall|input: &[u8]| call_requires(parser, (input,)),
            forall|input: &[u8], consumed: usize, value: R| #[trigger]
                call_ensures(parser, (input,), Ok((consumed, value))) ==> consumed <= input@.len(),
        ensures
            final(self)@.wf(),
            exists|input: &[u8], out: Result<(usize, R), ParseError>|
                input@ == old(self)@.rest() && #[trigger] call_ensures(parser, (input,), out)
                    && match out {
                    Ok((consumed, value)) => r == Some(value) && final(self)@ == old(self)@.at(
                        old(self)@.end + consumed,
                    ),
                    Err(_) => r is None && final(self)@ == old(self)@,
                },
    {
        let input = self.rest();
        let out = parser(input);
        match out {
            Ok((consumed, value)) => {
                assert(call_ensures(parser, (input,), Ok((consumed, value))));
                self.advance(consumed);
                Some(value)
            },
            Err(_) => None,
        }
    }

    /// Runs `parser` on the bytes not yet consumed, where a match is owed: the cursor moves
    /// behind the match, and a refusal is an error.
    pub fn expect<R, P: Fn(&[u8]) -> Result<(usize, R), ParseError>>(&mut self, parser: P) -> (r:
        Result<R, Error>)
        requires
            old(self)@.wf(),
            forall|input: &[u8]| call_requires(parser, (input,)),
            forall|input: &[u8], consumed: usize, value: R| #[trigger]
                call_ensures(parser, (input,), Ok((consumed, value))) ==> consumed <= input@.len(),
        ensures
            final(self)@.wf(),
            exists|input: &[u8], out: Result<(usize, R), ParseError>|
                input@ == old(self)@.rest() && #[trigger] call_ensures(parser, (input,), out)
                    && match out {
                    Ok((consumed, value)) => r == Ok::<R, Error>(value) && final(self)@ == old(
                        self,
                    )@.at(old(self)@.end + consumed),
                    Err(error) => r == Err::<R, Error>(Error::Parse(error)) && final(self)@ == old(
                        self,
                    )@,
                },
    {
        let input = self.rest();
        let out = parser(input);
        match out {
            Ok((consumed, value)) => {
                assert(call_ensures(parser, (input,), Ok((consumed, value))));
                self.advance(consumed);
                Ok(value)
            },
            Err(error) => Err(Error::Parse(error)),
        }
    }

    /// Passes over what is left of the responses that `needle` closes.
    fn drain(&mut self, needle: &Vec<u8>) -> (r: Result<(), Error>)
        requires
            old(self)@.wf(),
        ensures
            final(self)@.wf(),
            final(self)@ == old(self)@.at(drained(old(self)@.buffer, old(self)@.end, needle@).end),
            r == drained(old(self)@.buffer, old(self)@.end, needle@).result,
    {
        loop
            invariant
                self@.wf(),
                self@ == old(self)@.at(self@.end),
                drained(old(self)@.buffer, old(self)@.end, needle@) == drained(
                    self@.buffer,
                    self@.end,
                    needle@,
                ),
            decreases self@.buffer.len() - self@.end,
        {
            let tag = match parser::start(self.rest()) {
                Ok((consumed, tag)) => {
                    self.advance(consumed);
                    tag
                },
                Err(error) => {
                    return Err(Error::Parse(error));
                },
            };
            proof {
                rules::lemma_bytes_deep_view(tag);
            }
            if tag.len() == 1 && tag[0] == grammar::STAR {
                assert(tag@ =~= seq![grammar::STAR]);
                match parser::skip(self.rest()) {
                    Ok((consumed, _)) => {
                        self.advance(consumed);
                    },
                    Err(error) => {
                        return Err(Error::Parse(error));
                    },
                }
            } else if bytes::same(tag.as_slice(), needle.as_slice()) {
                return match parser::ok(self.rest()) {
                    Ok((consumed, _)) => {
                        self.advance(consumed);
                        Ok(())
                    },
                    Err(error) => Err(Error::Parse(error)),
                };
            } else {
                return Err(Error::UnexpectedTag);
            }
        }
    }

    /// The line that records a command in the log: the first `log` buffers are shown, the
    /// others, which may hold secrets, are not.
    pub fn inner_input(buffers: &Vec<Vec<u8>>, log: usize) -> (r: String)
        requires
            log <= buffers.len(),
        ensures
            r@ == log::logged(bytes::views(buffers@), log as int),
    {
        let mut line = String::from_str("> ");
        if log > 0 {
            let mut shown: Vec<u8> = Vec::new();
            let mut i: usize = 0;
            assert(bytes::views(buffers@).subrange(0, 0) =~= Seq::<Seq<u8>>::empty());
            while i < log
                invariant
                    i <= log <= buffers.len(),
                    shown@ == bytes::joined(bytes::views(buffers@).subrange(0, i as int)),
                decreases log - i,
            {
                bytes::extend(&mut shown, buffers[i].as_slice());
                proof {
                    let next = bytes::views(buffers@).subrange(0, i + 1);
                    assert(next.drop_last() =~= bytes::views(buffers@).subrange(0, i as int));
                    assert(next.last() == buffers@[i as int]@);
                }
                i += 1;
            }
            let text = log::escape(shown.as_slice());
            line.append(text.as_str());
            if log < buffers.len() {
                line.append("...omitted...");
            }
        } else {
            line.append("...omitted...");
        }
        assert(line@ =~= log::logged(bytes::views(buffers@), log as int));
        line
    }

    /// Starts a command: what was consumed of the buffer is dropped. Gives the bytes to send
    /// and the line to log.
    pub fn input(&mut self, buffers: &Vec<Vec<u8>>, log: usize) -> (r: (Vec<u8>, String))
        requires
            old(self)@.wf(),
            log <= buffers.len(),
        ensures
            final(self)@.wf(),
            final(self)@ == old(self)@.compacted(),
            r.0@ == bytes::joined(bytes::views(buffers@)),
            r.1@ == log::logged(bytes::views(buffers@), log as int),
    {
        let rest = slice_to_vec(self.rest());
        self.buffer = rest;
        self.end = 0;
        self.pending = None;
        self.start = 0;
        self.next_start = 0;
        self.found = None;
        (bytes::concat(buffers), Stream::inner_input(buffers, log))
    }

    /// Starts a chunk under the sentinel `needle`.
    pub fn chunk_with(&mut self, needle: Vec<u8>) -> (r: Result<Vec<u8>, Error>)
        requires
            old(self)@.wf(),
        ensures
            final(self)@.wf(),
            old(self)@.chunked(final(self)@, r, needle@),
    {
        match self.needle.take() {
            Some(previous) => {
                match self.drain(&previous) {
                    Ok(_) => {},
                    Err(error) => {
                        return Err(error);
                    },
                }
            },
            None => {},
        }
        let command = noop_of(&needle);
        self.pending = Some(needle);
        self.start = 0;
        self.next_start = 0;
        self.found = None;
        Ok(command)
    }

    /// Starts a chunk under a sentinel that was not used before, a random identifier: what
    /// is left of the chunk before is passed over, and the NOOP to send comes back.
    pub fn chunk(&mut self) -> (r: Result<Vec<u8>, Error>)
        requires
            old(self)@.wf(),
        ensures
            final(self)@.wf(),
            exists|needle: Seq<u8>|
                is_sentinel(needle) && #[trigger] old(self)@.chunked(final(self)@, r, needle),
    {
        let needle = text::unique();
        let sentinel = slice_to_vec(needle.as_str().as_bytes());
        proof {
            text::lemma_identifier_is_plain(needle@);
            vstd::utf8::is_ascii_chars_encode_utf8(needle@);
            assert forall|i: int| 0 <= i < 36 implies if i == 8 || i == 13 || i == 18 || i == 23 {
                #[trigger] sentinel@[i] == 0x2d
            } else {
                is_hex(sentinel@[i])
            } by {
                assert(sentinel@[i] == needle@[i] as u8);
            }
        }
        self.chunk_with(sentinel)
    }

    /// Looks whether every answer to the command is in the buffer: whether the completion of
    /// the sentinel stands there, whole. Where it does not, more has to be read.
    pub fn framed(&mut self) -> (r: bool)
        requires
            old(self)@.wf(),
        ensures
            final(self)@.wf(),
            old(self)@.sought(final(self)@, r),
    {
        let (pattern, length) = match &self.pending {
            None => {
                return true;
            },
            Some(needle) => (completion_of(needle), needle.len()),
        };
        let total = self.buffer.len();
        if self.found.is_none() {
            let haystack = slice_subrange(self.buffer.as_slice(), self.start, total);
            match rfind(haystack, pattern.as_slice()) {
                Some(at) => {
                    proof {
                        lemma_occurs_from(self.buffer@, pattern@, self.start as int, at as int);
                        assert forall|later: int| self.start + at < later implies !occurs(
                            self.buffer@,
                            pattern@,
                            later,
                        ) by {
                            lemma_occurs_from(
                                self.buffer@,
                                pattern@,
                                self.start as int,
                                later - self.start,
                            );
                        }
                    }
                    self.found = Some(self.start + at);
                    assert(last_occurrence(
                        old(self)@.buffer,
                        completion(old(self)@.pending->0),
                        old(self)@.start,
                        self.start + at,
                    ));
                },
                None => {
                    proof {
                        assert forall|at: int| self.start <= at implies !occurs(
                            self.buffer@,
                            pattern@,
                            at,
                        ) by {
                            lemma_occurs_from(
                                self.buffer@,
                                pattern@,
                                self.start as int,
                                at - self.start,
                            );
                        }
                    }
                    self.start = if self.next_start >= pattern.len() {
                        self.next_start - pattern.len()
                    } else {
                        0
                    };
                    return false;
                },
            }
        }
        let at = match self.found {
            Some(at) => at,
            None => {
                return false;
            },
        };
        let line = slice_subrange(self.buffer.as_slice(), at + length + 3, total);
        match parser::ok(line) {
            Ok(_) => {
                self.needle = self.pending.take();
                self.start = 0;
                self.next_start = 0;
                self.found = None;
                true
            },
            Err(_) => false,
        }
    }
}

} // verus!
