//! What is written to the log of the bytes that go over the wire.
use vstd::prelude::*;
use vstd::slice::slice_subrange;
use vstd::string::StringExecFns;
use super::grammar;
use crate::bytes;
use crate::text::push;

verus! {

/// The hexadecimal digit of `n`, in lower case.
pub open spec fn hex(n: u8) -> char {
    if n == 0 {
        '0'
    } else if n == 1 {
        '1'
    } else if n == 2 {
        '2'
    } else if n == 3 {
        '3'
    } else if n == 4 {
        '4'
    } else if n == 5 {
        '5'
    } else if n == 6 {
        '6'
    } else if n == 7 {
        '7'
    } else if n == 8 {
        '8'
    } else if n == 9 {
        '9'
    } else if n == 10 {
        'a'
    } else if n == 11 {
        'b'
    } else if n == 12 {
        'c'
    } else if n == 13 {
        'd'
    } else if n == 14 {
        'e'
    } else {
        'f'
    }
}

/// How one byte is shown: printable ASCII as it is, but for quotes and the backslash, which
/// get a backslash in front; tab, line feed and carriage return by their letter; anything else
/// by its two hexadecimal digits.
pub open spec fn escaped_byte(b: u8) -> Seq<char> {
    if b == 0x09 {
        seq!['\\', 't']
    } else if b == 0x0d {
        seq!['\\', 'r']
    } else if b == 0x0a {
        seq!['\\', 'n']
    } else if b == 0x27 {
        seq!['\\', '\'']
    } else if b == 0x22 {
        seq!['\\', '"']
    } else if b == 0x5c {
        seq!['\\', '\\']
    } else if 0x20 <= b <= 0x7e {
        seq![b as char]
    } else {
        seq!['\\', 'x', hex(b / 16), hex(b % 16)]
    }
}

/// How a byte string is shown.
pub open spec fn escaped(bytes: Seq<u8>) -> Seq<char>
    decreases bytes.len(),
{
    if bytes.len() == 0 {
        Seq::empty()
    } else {
        escaped(bytes.drop_last()) + escaped_byte(bytes.last())
    }
}

/// The first offset at or behind `from` where a carriage return and a line feed stand, or the
/// length of `bytes` where they stand nowhere.
pub open spec fn line_end(bytes: Seq<u8>, from: int) -> int
    decreases bytes.len() - from,
{
    if from < 0 || from + 2 > bytes.len() {
        bytes.len() as int
    } else if bytes[from] == grammar::CR && bytes[from + 1] == grammar::LF {
        from
    } else {
        line_end(bytes, from + 1)
    }
}

/// Up to where `bytes` are shown in a summary: the first line with its end, or all of them.
pub open spec fn summary_stop(bytes: Seq<u8>) -> int {
    if line_end(bytes, 0) + 2 <= bytes.len() {
        line_end(bytes, 0) + 2
    } else {
        bytes.len() as int
    }
}

/// What stands for bytes that are not shown.
pub open spec fn omitted() -> Seq<char> {
    "...omitted..."@
}

/// The first line of `bytes`, and a mark where more follows.
pub open spec fn summarized(bytes: Seq<u8>) -> Seq<char> {
    escaped(bytes.subrange(0, summary_stop(bytes))) + if summary_stop(bytes) < bytes.len() {
        omitted()
    } else {
        Seq::empty()
    }
}

/// The line that records a command whose first `log` buffers may be shown.
pub open spec fn logged(buffers: Seq<Seq<u8>>, log: int) -> Seq<char> {
    "> "@ + if log > 0 {
        escaped(bytes::joined(buffers.subrange(0, log))) + if log < buffers.len() {
            omitted()
        } else {
            Seq::empty()
        }
    } else {
        omitted()
    }
}

fn hex_digit(n: u8) -> (r: char)
    requires
        n < 16,
    ensures
        r == hex(n),
{
    if n == 0 {
        '0'
    } else if n == 1 {
        '1'
    } else if n == 2 {
        '2'
    } else if n == 3 {
        '3'
    } else if n == 4 {
        '4'
    } else if n == 5 {
        '5'
    } else if n == 6 {
        '6'
    } else if n == 7 {
        '7'
    } else if n == 8 {
        '8'
    } else if n == 9 {
        '9'
    } else if n == 10 {
        'a'
    } else if n == 11 {
        'b'
    } else if n == 12 {
        'c'
    } else if n == 13 {
        'd'
    } else if n == 14 {
        'e'
    } else {
        'f'
    }
}

fn escape_byte(out: &mut String, b: u8)
    ensures
        final(out)@ == old(out)@ + escaped_byte(b),
{
    if b == 0x09 {
        push(out, '\\');
        push(out, 't');
    } else if b == 0x0d {
        push(out, '\\');
        push(out, 'r');
    } else if b == 0x0a {
        push(out, '\\');
        push(out, 'n');
    } else if b == 0x27 {
        push(out, '\\');
        push(out, '\'');
    } else if b == 0x22 {
        push(out, '\\');
        push(out, '"');
    } else if b == 0x5c {
        push(out, '\\');
        push(out, '\\');
    } else if 0x20 <= b && b <= 0x7e {
        push(out, b as char);
    } else {
        push(out, '\\');
        push(out, 'x');
        push(out, hex_digit(b / 16));
        push(out, hex_digit(b % 16));
    }
    assert(out@ =~= old(out)@ + escaped_byte(b));
}

/// Shows a byte string in printable ASCII.
pub fn escape(bytes: &[u8]) -> (r: String)
    ensures
        r@ == escaped(bytes@),
{
    let mut out = String::new();
    let mut i: usize = 0;
    assert(bytes@.subrange(0, 0) =~= Seq::<u8>::empty());
    while i < bytes.len()
        invariant
            i <= bytes.len(),
            out@ == escaped(bytes@.subrange(0, i as int)),
        decreases bytes.len() - i,
    {
        escape_byte(&mut out, bytes[i]);
        proof {
            let next = bytes@.subrange(0, i + 1);
            assert(next.drop_last() =~= bytes@.subrange(0, i as int));
            assert(next.last() == bytes@[i as int]);
        }
        i += 1;
    }
    assert(bytes@.subrange(0, bytes@.len() as int) =~= bytes@);
    out
}

/// Shows the first line of a byte string, and marks where more follows.
pub fn summarize(bytes: &[u8]) -> (r: String)
    ensures
        r@ == summarized(bytes@),
{
    let mut stop: usize = 0;
    while bytes.len() - stop >= 2 && !(bytes[stop] == grammar::CR && bytes[stop + 1]
        == grammar::LF)
        invariant
            stop <= bytes.len(),
            line_end(bytes@, 0) == line_end(bytes@, stop as int),
        decreases bytes.len() - stop,
    {
        stop += 1;
    }
    let stop = if bytes.len() - stop >= 2 {
        stop + 2
    } else {
        bytes.len()
    };
    let mut out = escape(slice_subrange(bytes, 0, stop));
    if stop < bytes.len() {
        out.append("...omitted...");
    }
    assert(out@ =~= summarized(bytes@));
    out
}

} // verus!
