//! The two encodings of the session: the credentials of AUTHENTICATE PLAIN, and the modified
//! UTF-7 in which the server writes the names of mailboxes.
use base64::Engine;
use vstd::prelude::*;
use vstd::slice::slice_subrange;
use vstd::string::{StringExecFns, StringSliceAdditionalSpecFns};
use crate::bytes;
use crate::text;

verus! {

/// What `base64::Engine::encode` gives for `bytes` with the standard alphabet and padding.
pub uninterp spec fn base64_standard(bytes: Seq<u8>) -> Seq<char>;

/// What `base64::Engine::decode_vec` gives for `bytes` with the alphabet of modified UTF-7 and
/// no padding: the bytes that they write, or none where they write none.
pub uninterp spec fn base64_mutf7(bytes: Seq<u8>) -> Option<Seq<u8>>;

/// What the UTF-16BE decoder of `encoding_rs` gives for `bytes` without a byte order mark and
/// without replacement: the characters that they write, or none where they are malformed or
/// too many for the decoder to say how much room they need.
pub uninterp spec fn utf16be(bytes: Seq<u8>) -> Option<Seq<char>>;

/// `base64::Engine::encode` of the engine with the standard alphabet and padding.
#[verifier::external_body]
fn encode_standard(bytes: &[u8]) -> (r: String)
    ensures
        r@ == base64_standard(bytes@),
{
    base64::engine::GeneralPurpose::new(
        &base64::alphabet::STANDARD,
        base64::engine::general_purpose::PAD,
    ).encode(bytes)
}

/// `base64::Engine::decode_vec` of the engine with the alphabet of modified UTF-7 and no
/// padding, into an empty buffer.
#[verifier::external_body]
fn decode_mutf7(bytes: &[u8]) -> (r: Option<Vec<u8>>)
    ensures
        bytes::option_view(r) == base64_mutf7(bytes@),
{
    let mut buffer = Vec::new();
    base64::engine::GeneralPurpose::new(
        &base64::alphabet::IMAP_MUTF7,
        base64::engine::general_purpose::NO_PAD,
    ).decode_vec(bytes, &mut buffer).ok().map(|_| buffer)
}

/// `encoding_rs::Decoder::decode_to_string_without_replacement` of a new UTF-16BE decoder
/// without byte order mark handling, on the whole input at once and into a string with the
/// room that the decoder asks for.
#[verifier::external_body]
fn decode_utf16be(bytes: &[u8]) -> (r: Option<String>)
    ensures
        text::string_of(r) == utf16be(bytes@),
{
    let mut decoder = encoding_rs::UTF_16BE.new_decoder_without_bom_handling();
    let mut output = String::new();
    output.reserve(decoder.max_utf8_buffer_length_without_replacement(bytes.len())?);
    match decoder.decode_to_string_without_replacement(bytes, &mut output, true).0 {
        encoding_rs::DecoderResult::InputEmpty => Some(output),
        _ => None,
    }
}

/// What AUTHENTICATE PLAIN sends for `user` and `password`, before it is encoded: a NUL, the
/// user, a NUL, the password.
pub open spec fn plain_message(user: Seq<u8>, password: Seq<u8>) -> Seq<u8> {
    seq![0u8] + user + seq![0u8] + password
}

/// The bytes of the credentials that AUTHENTICATE PLAIN sends.
pub open spec fn plain_credentials(user: Seq<u8>, password: Seq<u8>) -> Seq<u8> {
    vstd::utf8::encode_utf8(base64_standard(plain_message(user, password)))
}

/// The credentials that AUTHENTICATE PLAIN sends.
pub fn plain(user: &str, password: &str) -> (r: String)
    ensures
        r@ == base64_standard(plain_message(user.spec_bytes(), password.spec_bytes())),
{
    let mut message: Vec<u8> = Vec::new();
    message.push(0);
    bytes::extend(&mut message, user.as_bytes());
    message.push(0);
    bytes::extend(&mut message, password.as_bytes());
    assert(message@ =~= plain_message(user.spec_bytes(), password.spec_bytes()));
    encode_standard(message.as_slice())
}

/// Where the first `-` stands at or behind `from`, or the length of `input` where none does.
pub open spec fn shift_end(input: Seq<u8>, from: int) -> int
    decreases input.len() - from,
{
    if from < 0 || from >= input.len() {
        input.len() as int
    } else if input[from] == 0x2d {
        from
    } else {
        shift_end(input, from + 1)
    }
}

/// A byte that stands for itself in modified UTF-7: printable ASCII but `&`.
pub open spec fn is_direct(b: u8) -> bool {
    0x20 <= b <= 0x7e && b != 0x26
}

/// What the bytes between a `&` and its `-` write: `&` where there are none, else the
/// characters whose UTF-16BE they are the base64 of.
pub open spec fn shifted(between: Seq<u8>) -> Option<Seq<char>> {
    if between.len() == 0 {
        Some(seq!['&'])
    } else {
        match base64_mutf7(between) {
            Some(units) => utf16be(units),
            None => None,
        }
    }
}

/// What `input` writes from `from` on in modified UTF-7, after `out`: none where a `&` lacks
/// its `-`, where what stands between the two is not the base64 of UTF-16BE, or where a byte
/// outside a shift is not printable ASCII.
pub open spec fn utf7_from(input: Seq<u8>, from: int, out: Seq<char>) -> Option<Seq<char>>
    decreases input.len() - from,
{
    if from < 0 || from >= input.len() {
        Some(out)
    } else if input[from] == 0x26 {
        let end = shift_end(input, from + 1);
        if end >= input.len() {
            None
        } else {
            match shifted(input.subrange(from + 1, end)) {
                Some(chars) => if from < end {
                    utf7_from(input, end + 1, out + chars)
                } else {
                    None
                },
                None => None,
            }
        }
    } else if is_direct(input[from]) {
        utf7_from(input, from + 1, out.push(input[from] as char))
    } else {
        None
    }
}

/// Reads the name of a mailbox, which the server writes in modified UTF-7.
pub fn utf7_to_utf8(input: &[u8]) -> (r: Option<String>)
    ensures
        text::string_of(r) == utf7_from(input@, 0, Seq::empty()),
{
    let mut output = String::new();
    let mut i: usize = 0;
    while i < input.len()
        invariant
            i <= input.len(),
            utf7_from(input@, 0, Seq::empty()) == utf7_from(input@, i as int, output@),
        decreases input.len() - i,
    {
        let b = input[i];
        if b == 0x26 {
            let start = i;
            let mut end = i + 1;
            while end < input.len() && input[end] != 0x2d
                invariant
                    start < end <= input.len(),
                    shift_end(input@, start + 1) == shift_end(input@, end as int),
                decreases input.len() - end,
            {
                end += 1;
            }
            if end == input.len() {
                return None;
            }
            if start + 1 == end {
                assert(input@.subrange(start + 1, end as int) =~= Seq::<u8>::empty());
                let ghost before = output@;
                text::push(&mut output, '&');
                assert(output@ =~= before + seq!['&']);
            } else {
                let units = match decode_mutf7(slice_subrange(input, start + 1, end)) {
                    Some(units) => units,
                    None => {
                        return None;
                    },
                };
                match decode_utf16be(units.as_slice()) {
                    Some(chars) => {
                        output.append(chars.as_str());
                    },
                    None => {
                        return None;
                    },
                }
            }
            i = end + 1;
        } else if 0x20 <= b && b <= 0x7e {
            text::push(&mut output, b as char);
            i += 1;
        } else {
            return None;
        }
    }
    Some(output)
}

/// A name in printable ASCII without `&` reads as it is written.
pub proof fn lemma_utf7_direct(input: Seq<u8>, from: int, out: Seq<char>)
    requires
        0 <= from <= input.len(),
        forall|i: int| from <= i < input.len() ==> is_direct(#[trigger] input[i]),
    ensures
        utf7_from(input, from, out) == Some(
            out + Seq::new((input.len() - from) as nat, |i: int| input[from + i] as char),
        ),
    decreases input.len() - from,
{
    let rest = Seq::new((input.len() - from) as nat, |i: int| input[from + i] as char);
    if from < input.len() {
        lemma_utf7_direct(input, from + 1, out.push(input[from] as char));
        let tail = Seq::new((input.len() - from - 1) as nat, |i: int| input[from + 1 + i] as char);
        assert(out.push(input[from] as char) + tail =~= out + rest);
    } else {
        assert(out + rest =~= out);
    }
}

/// One part of the name of a mailbox as modified UTF-7 writes it.
pub enum Part {
    /// A byte that stands for itself.
    Direct(u8),
    /// A shift: a `&`, these bytes, and the `-` that ends it. With no bytes it writes `&`.
    Shift(Seq<u8>),
}

/// The bytes of `part`.
pub open spec fn piece(part: Part) -> Seq<u8> {
    match part {
        Part::Direct(b) => seq![b],
        Part::Shift(between) => seq![0x26u8] + between + seq![0x2du8],
    }
}

/// The bytes of `parts`, one part after the other.
pub open spec fn written(parts: Seq<Part>) -> Seq<u8>
    decreases parts.len(),
{
    if parts.len() == 0 {
        Seq::empty()
    } else {
        piece(parts.first()) + written(parts.drop_first())
    }
}

/// Every part is one that modified UTF-7 can write: a byte that stands for itself is
/// printable ASCII but `&`, and no `-` stands inside a shift.
pub open spec fn shaped(parts: Seq<Part>) -> bool {
    forall|i: int|
        0 <= i < parts.len() ==> match #[trigger] parts[i] {
            Part::Direct(b) => is_direct(b),
            Part::Shift(between) => forall|j: int| 0 <= j < between.len() ==> between[j] != 0x2d,
        }
}

/// The characters that `parts` stand for, after `out`: each byte that stands for itself, and
/// for each shift what its bytes write; none where the bytes of a shift write nothing.
pub open spec fn meant(parts: Seq<Part>, out: Seq<char>) -> Option<Seq<char>>
    decreases parts.len(),
{
    if parts.len() == 0 {
        Some(out)
    } else {
        match parts.first() {
            Part::Direct(b) => meant(parts.drop_first(), out.push(b as char)),
            Part::Shift(between) => match shifted(between) {
                Some(chars) => meant(parts.drop_first(), out + chars),
                None => None,
            },
        }
    }
}

/// A shift ends at the first `-`.
proof fn lemma_shift_end(input: Seq<u8>, from: int, end: int)
    requires
        0 <= from <= end < input.len(),
        forall|i: int| from <= i < end ==> input[i] != 0x2d,
        input[end] == 0x2d,
    ensures
        shift_end(input, from) == end,
    decreases end - from,
{
    if from < end {
        lemma_shift_end(input, from + 1, end);
    }
}

/// What is written part by part behind `before` reads as what the parts stand for.
proof fn lemma_utf7_behind(before: Seq<u8>, parts: Seq<Part>, out: Seq<char>)
    requires
        shaped(parts),
    ensures
        utf7_from(before + written(parts), before.len() as int, out) == meant(parts, out),
    decreases parts.len(),
{
    let input = before + written(parts);
    let from = before.len() as int;
    if parts.len() == 0 {
        assert(input =~= before);
    } else {
        let rest = parts.drop_first();
        let first = piece(parts.first());
        assert(shaped(rest)) by {
            assert forall|i: int| 0 <= i < rest.len() implies match #[trigger] rest[i] {
                Part::Direct(b) => is_direct(b),
                Part::Shift(between) => forall|j: int|
                    0 <= j < between.len() ==> between[j] != 0x2d,
            } by {
                assert(rest[i] == parts[i + 1]);
            }
        }
        assert(parts.first() == parts[0]);
        assert(input =~= (before + first) + written(rest));
        match parts.first() {
            Part::Direct(b) => {
                assert(input[from] == b);
                lemma_utf7_behind(before + first, rest, out.push(b as char));
            },
            Part::Shift(between) => {
                let end = from + 1 + between.len();
                assert(input[from] == 0x26);
                assert(input[end] == 0x2d);
                assert forall|i: int| from + 1 <= i < end implies input[i] != 0x2d by {
                    assert(input[i] == between[i - from - 1]);
                }
                lemma_shift_end(input, from + 1, end);
                assert(input.subrange(from + 1, end) =~= between);
                match shifted(between) {
                    Some(chars) => {
                        lemma_utf7_behind(before + first, rest, out + chars);
                    },
                    None => {},
                }
            },
        }
    }
}

/// A name that is written in modified UTF-7 reads as what it stands for. Whatever the parts
/// of the name, bytes that stand for themselves and shifts, the bytes that write them one
/// after the other read as the characters of the parts one after the other: every printable
/// ASCII byte but `&` as itself, `&-` as `&`, and every other shift as the characters whose
/// UTF-16BE its bytes are the base64 of. The name cannot be read where one shift cannot.
pub proof fn lemma_utf7_reads_what_is_written(parts: Seq<Part>)
    requires
        shaped(parts),
    ensures
        utf7_from(written(parts), 0, Seq::empty()) == meant(parts, Seq::empty()),
        shifted(Seq::empty()) == Some(seq!['&']),
        piece(Part::Shift(Seq::empty())) == seq![0x26u8, 0x2du8],
{
    lemma_utf7_behind(Seq::empty(), parts, Seq::empty());
    assert(Seq::<u8>::empty() + written(parts) =~= written(parts));
    assert(seq![0x26u8] + Seq::<u8>::empty() + seq![0x2du8] =~= seq![0x26u8, 0x2du8]);
}

} // verus!
