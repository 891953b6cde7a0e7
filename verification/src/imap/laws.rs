//! What holds of everything that the grammar accepts.
use vstd::prelude::*;
use crate::imap::stream;
use vstd::string::StringSliceAdditionalSpecFns;
use super::grammar;
use super::grammar::{atom, atom_char, atom_from, flag, flag_extension, flags_from, max, msg_att_flags, select_data};
use super::SelectView;
use crate::text::is_ascii;

verus! {

/// The bytes of `s` from `from` up to `to` are ASCII.
pub open spec fn ascii_between(s: Seq<u8>, from: int, to: int) -> bool {
    forall|i: int| from <= i < to ==> #[trigger] s[i] < 128
}

/// Every byte string of `list` is ASCII.
pub open spec fn all_ascii(list: Seq<Seq<u8>>) -> bool {
    forall|k: int| 0 <= k < list.len() ==> is_ascii(#[trigger] list[k])
}

/// A run of ATOM-CHARs is ASCII, and ends in the input.
pub proof fn lemma_atom_from_is_ascii(s: Seq<u8>, pos: int, acc: Seq<u8>, far: nat)
    requires
        0 <= pos <= s.len(),
    ensures
        atom_from(s, pos, acc, far).matched is Some,
        pos <= atom_from(s, pos, acc, far).end() <= s.len(),
        atom_from(s, pos, acc, far).value().len() == acc.len() + (atom_from(s, pos, acc, far).end()
            - pos),
        ascii_between(s, pos, atom_from(s, pos, acc, far).end()),
    decreases s.len() - pos,
{
    let item = atom_char(s, pos);
    if item.matched is Some && pos < item.end() <= s.len() {
        lemma_atom_from_is_ascii(s, pos + 1, acc.push(item.value()), max(far, item.far));
    }
}

/// An atom is ASCII, and not empty.
pub proof fn lemma_atom_is_ascii(s: Seq<u8>, pos: int)
    requires
        0 <= pos <= s.len(),
    ensures
        atom(s, pos).matched is Some ==> pos < atom(s, pos).end() <= s.len() && ascii_between(
            s,
            pos,
            atom(s, pos).end(),
        ),
{
    lemma_atom_from_is_ascii(s, pos, Seq::empty(), 0);
}

/// A flag is ASCII, and not empty.
pub proof fn lemma_flag_is_ascii(s: Seq<u8>, pos: int)
    requires
        0 <= pos <= s.len(),
    ensures
        flag(s, pos).matched is Some ==> pos < flag(s, pos).end() <= s.len() && is_ascii(
            flag(s, pos).value(),
        ),
{
    lemma_atom_is_ascii(s, pos);
    if atom(s, pos).matched is None && pos < s.len() {
        lemma_atom_is_ascii(s, pos + 1);
    }
    if flag(s, pos).matched is Some {
        let end = flag(s, pos).end();
        let value = flag(s, pos).value();
        assert(value == s.subrange(pos, end));
        assert(ascii_between(s, pos, end));
        assert forall|i: int| 0 <= i < value.len() implies #[trigger] value[i] < 128 by {
            assert(s[pos + i] < 128);
        }
    }
}

/// Flags with a space between two are ASCII, each of them.
pub proof fn lemma_flags_from_are_ascii(s: Seq<u8>, pos: int, acc: Seq<Seq<u8>>, far: nat)
    requires
        0 <= pos <= s.len(),
        all_ascii(acc),
    ensures
        flags_from(s, pos, acc, far).matched is Some,
        all_ascii(flags_from(s, pos, acc, far).value()),
    decreases s.len() - pos,
{
    if acc.len() == 0 {
        let item = flag(s, pos);
        lemma_flag_is_ascii(s, pos);
        if item.matched is Some && pos < item.end() <= s.len() {
            let more = acc.push(item.value());
            assert forall|k: int| 0 <= k < more.len() implies is_ascii(#[trigger] more[k]) by {
                if k < acc.len() {
                    assert(more[k] == acc[k]);
                }
            }
            lemma_flags_from_are_ascii(s, item.end(), more, max(far, item.far));
        }
    } else {
        let space = grammar::byte(s, pos, grammar::SP);
        if space.matched is Some && pos <= space.end() {
            let item = flag(s, space.end());
            lemma_flag_is_ascii(s, space.end());
            if item.matched is Some && pos < item.end() <= s.len() {
                let more = acc.push(item.value());
                assert forall|k: int| 0 <= k < more.len() implies is_ascii(#[trigger] more[k]) by {
                    if k < acc.len() {
                        assert(more[k] == acc[k]);
                    }
                }
                lemma_flags_from_are_ascii(
                    s,
                    item.end(),
                    more,
                    max(far, max(space.far, item.far)),
                );
            }
        }
    }
}

/// The flags of a FLAGS attribute are ASCII, wherever the attribute stands.
pub proof fn lemma_msg_att_flags_are_ascii(s: Seq<u8>, pos: int)
    ensures
        msg_att_flags(s, pos).matched is Some ==> all_ascii(msg_att_flags(s, pos).value()),
{
    let word = grammar::lit(s, pos, "FLAGS".spec_bytes());
    if word.matched is Some {
        let space = grammar::byte(s, word.end(), grammar::SP);
        if space.matched is Some {
            let open = grammar::byte(s, space.end(), grammar::LPAREN);
            if open.matched is Some {
                lemma_flags_from_are_ascii(s, open.end(), Seq::empty(), 0);
            }
        }
    }
}

/// The flags that a FETCH among the answers to a SELECT reports are ASCII.
pub proof fn lemma_select_flags_are_ascii(s: Seq<u8>)
    ensures
        match select_data(s, 0).matched {
            Some((_, SelectView::Fetch(fetch))) => all_ascii(fetch.flags),
            _ => true,
        },
{
    reveal(select_data);
    assert forall|pos: int| (#[trigger] msg_att_flags(s, pos)).matched is Some implies all_ascii(
        msg_att_flags(s, pos).value(),
    ) by {
        lemma_msg_att_flags_are_ascii(s, pos);
    }
}

/// A run of hexadecimal digits and hyphens that a space or the end of the input follows is
/// taken whole into a tag.
proof fn lemma_tag_from_takes_sentinel(s: Seq<u8>, pos: int, end: int, acc: Seq<u8>, far: nat)
    requires
        0 <= pos <= end <= s.len(),
        forall|i: int| pos <= i < end ==> stream::is_hex(#[trigger] s[i]) || s[i] == 0x2d,
        end == s.len() || s[end] == grammar::SP,
    ensures
        grammar::tag_from(s, pos, acc, far).matched == Some((end, acc + s.subrange(pos, end))),
    decreases end - pos,
{
    let item = grammar::tag_char(s, pos);
    if pos < end {
        assert(stream::is_hex(s[pos]) || s[pos] == 0x2d);
        assert(item.matched == Some((pos + 1, s[pos])));
        lemma_tag_from_takes_sentinel(s, pos + 1, end, acc.push(s[pos]), max(far, item.far));
        assert(acc.push(s[pos]) + s.subrange(pos + 1, end) =~= acc + s.subrange(pos, end));
    } else {
        assert(item.matched is None);
        assert(acc + s.subrange(pos, end) =~= acc);
    }
}

/// The sentinel that the stream draws is a tag: where a space follows it, as in the
/// completion of its NOOP, or nothing at all, the grammar reads it whole as the tag.
pub proof fn lemma_sentinel_is_tag(needle: Seq<u8>, tail: Seq<u8>)
    requires
        stream::is_sentinel(needle),
        tail.len() == 0 || tail[0] == grammar::SP,
    ensures
        grammar::tag(needle + tail, 0).matched == Some((36int, needle)),
{
    let s = needle + tail;
    assert forall|i: int| 0 <= i < 36 implies stream::is_hex(#[trigger] s[i]) || s[i] == 0x2d by {
        assert(s[i] == needle[i]);
        if i == 8 || i == 13 || i == 18 || i == 23 {
        }
    }
    if tail.len() > 0 {
        assert(s[36] == tail[0]);
    }
    lemma_tag_from_takes_sentinel(s, 0, 36, Seq::empty(), 0);
    assert(Seq::<u8>::empty() + s.subrange(0, 36) =~= needle);
    assert(s.subrange(0, 36) =~= needle);
}

/// A range is the same in whichever order its two bounds are written; between two numbers
/// it goes from the lower to the higher, and between a number and `*` from the number up,
/// without an end.
pub proof fn lemma_span_is_unordered(first: super::Range, second: super::Range, a: u64, b: u64)
    requires
        a != 0,
        b != 0,
    ensures
        grammar::span(first, second) == grammar::span(second, first),
        grammar::span(super::Range(a, a), super::Range(b, b)) == (if a <= b {
            super::Range(a, b)
        } else {
            super::Range(b, a)
        }),
        grammar::span(super::Range(a, a), super::Range(0, u64::MAX)) == super::Range(a, u64::MAX),
        grammar::span(super::Range(0, u64::MAX), super::Range(a, a)) == super::Range(a, u64::MAX),
{
}

} // verus!
