//! The response grammar as a mathematical function on byte sequences.
//!
//! Every rule maps an input and a start offset to a [`Parse`]: whether the rule matches there,
//! where the match ends and what it denotes, and the furthest offset at which a terminal was
//! tried and refused while the rule ran. Choice is ordered and repetition is greedy, so a rule
//! has exactly one outcome on every input.
use vstd::prelude::*;
use vstd::string::StringSliceAdditionalSpecFns;
use super::{Append, MailboxView, MoveView, Range, SelectFetchView, SelectView, Store};

verus! {

pub const NUL: u8 = 0x00;
pub const LF: u8 = 0x0a;
pub const CR: u8 = 0x0d;
pub const SP: u8 = 0x20;
pub const DQUOTE: u8 = 0x22;
pub const PERCENT: u8 = 0x25;
pub const LPAREN: u8 = 0x28;
pub const RPAREN: u8 = 0x29;
pub const STAR: u8 = 0x2a;
pub const PLUS: u8 = 0x2b;
pub const COMMA: u8 = 0x2c;
pub const ZERO: u8 = 0x30;
pub const NINE: u8 = 0x39;
pub const COLON: u8 = 0x3a;
pub const LBRACKET: u8 = 0x5b;
pub const BACKSLASH: u8 = 0x5c;
pub const RBRACKET: u8 = 0x5d;
pub const LBRACE: u8 = 0x7b;
pub const RBRACE: u8 = 0x7d;
pub const DEL: u8 = 0x7f;

/// The outcome of running a rule at an offset.
pub struct Parse<T> {
    /// The end offset and the value, when the rule matches.
    pub matched: Option<(int, T)>,
    /// The furthest offset at which a terminal was refused, 0 when none was.
    pub far: nat,
}

/// The larger of two offsets.
pub open spec fn max(a: nat, b: nat) -> nat {
    if a >= b {
        a
    } else {
        b
    }
}

/// A match that ends at `end` and denotes `value`, with nothing refused on the way.
pub open spec fn hit<T>(end: int, value: T) -> Parse<T> {
    Parse { matched: Some((end, value)), far: 0 }
}

/// No match, with `far` as the furthest refusal.
pub open spec fn miss<T>(far: nat) -> Parse<T> {
    Parse { matched: None, far }
}

impl<T> Parse<T> {
    /// Where the match ends.
    pub open spec fn end(self) -> int {
        (self.matched->0).0
    }

    /// What the match denotes.
    pub open spec fn value(self) -> T {
        (self.matched->0).1
    }

    /// Sequence: run `next` where `self` ended, handing it the value.
    pub open spec fn and_then<U>(self, next: spec_fn(int, T) -> Parse<U>) -> Parse<U> {
        match self.matched {
            None => miss(self.far),
            Some((end, value)) => {
                let r = next(end, value);
                Parse { matched: r.matched, far: max(self.far, r.far) }
            },
        }
    }

    /// Sequence: run `next` where `self` ended and take its value.
    pub open spec fn skip_to<U>(self, next: spec_fn(int) -> Parse<U>) -> Parse<U> {
        match self.matched {
            None => miss(self.far),
            Some((end, _)) => {
                let r = next(end);
                Parse { matched: r.matched, far: max(self.far, r.far) }
            },
        }
    }

    /// Sequence: run `next` where `self` ended and keep the value of `self`.
    pub open spec fn keep<U>(self, next: spec_fn(int) -> Parse<U>) -> Parse<T> {
        match self.matched {
            None => miss(self.far),
            Some((end, value)) => {
                let r = next(end);
                match r.matched {
                    None => miss(max(self.far, r.far)),
                    Some((stop, _)) => Parse {
                        matched: Some((stop, value)),
                        far: max(self.far, r.far),
                    },
                }
            },
        }
    }

    /// Sequence: run `next` where `self` ended and pair the two values.
    pub open spec fn pair<U>(self, next: spec_fn(int) -> Parse<U>) -> Parse<(T, U)> {
        match self.matched {
            None => miss(self.far),
            Some((end, value)) => {
                let r = next(end);
                match r.matched {
                    None => miss(max(self.far, r.far)),
                    Some((stop, second)) => Parse {
                        matched: Some((stop, (value, second))),
                        far: max(self.far, r.far),
                    },
                }
            },
        }
    }

    /// Ordered choice: `other` is what the second alternative gives at the same offset.
    pub open spec fn or(self, other: Parse<T>) -> Parse<T> {
        match self.matched {
            Some(_) => self,
            None => Parse { matched: other.matched, far: max(self.far, other.far) },
        }
    }

    /// The same match, denoting `f` of its value.
    pub open spec fn map<U>(self, f: spec_fn(T) -> U) -> Parse<U> {
        match self.matched {
            None => miss(self.far),
            Some((end, value)) => Parse { matched: Some((end, f(value))), far: self.far },
        }
    }

    /// The same match, denoting nothing.
    pub open spec fn void(self) -> Parse<()> {
        match self.matched {
            None => miss(self.far),
            Some((end, _)) => Parse { matched: Some((end, ())), far: self.far },
        }
    }

    /// The bytes that the match covers, from `pos`.
    pub open spec fn slice(self, s: Seq<u8>, pos: int) -> Parse<Seq<u8>> {
        match self.matched {
            None => miss(self.far),
            Some((end, _)) => Parse { matched: Some((end, s.subrange(pos, end))), far: self.far },
        }
    }

    /// Zero or one: a failure of `self` matches nothing at `pos`.
    pub open spec fn optional(self, pos: int) -> Parse<Option<T>> {
        match self.matched {
            None => Parse { matched: Some((pos, None)), far: self.far },
            Some((end, value)) => Parse { matched: Some((end, Some(value))), far: self.far },
        }
    }
}

/// Negative lookahead: matches the empty string at `pos` where `p` failed; what `p` refused on
/// the way is not recorded.
pub open spec fn not<T>(p: Parse<T>, pos: int) -> Parse<()> {
    if p.matched is None {
        hit(pos, ())
    } else {
        miss(0)
    }
}

/// One or more: a repetition that matched nothing fails.
pub open spec fn plus<T>(list: Parse<Seq<T>>) -> Parse<Seq<T>> {
    if list.matched is Some && list.value().len() >= 1 {
        list
    } else {
        miss(list.far)
    }
}

/// Greedy repetition of `item` from `pos`, after the items in `acc` were matched.
pub open spec fn star<T>(
    s: Seq<u8>,
    pos: int,
    item: spec_fn(int) -> Parse<T>,
    acc: Seq<T>,
    far: nat,
) -> Parse<Seq<T>>
    decreases s.len() - pos,
{
    let r = item(pos);
    if r.matched is Some && pos < r.end() <= s.len() {
        star(s, r.end(), item, acc.push(r.value()), max(far, r.far))
    } else {
        Parse { matched: Some((pos, acc)), far: max(far, r.far) }
    }
}

/// Greedy repetition of `item` with `sep` between two items, from `pos`, after the items in
/// `acc` were matched. A separator that no item follows is not consumed.
pub open spec fn separated<T>(
    s: Seq<u8>,
    pos: int,
    item: spec_fn(int) -> Parse<T>,
    sep: spec_fn(int) -> Parse<()>,
    acc: Seq<T>,
    far: nat,
) -> Parse<Seq<T>>
    decreases s.len() - pos,
{
    if acc.len() == 0 {
        let r = item(pos);
        if r.matched is Some && pos < r.end() <= s.len() {
            separated(s, r.end(), item, sep, acc.push(r.value()), max(far, r.far))
        } else {
            Parse { matched: Some((pos, acc)), far: max(far, r.far) }
        }
    } else {
        let q = sep(pos);
        if q.matched is Some && pos <= q.end() {
            let r = item(q.end());
            if r.matched is Some && pos < r.end() <= s.len() {
                separated(
                    s,
                    r.end(),
                    item,
                    sep,
                    acc.push(r.value()),
                    max(far, max(q.far, r.far)),
                )
            } else {
                Parse { matched: Some((pos, acc)), far: max(far, max(q.far, r.far)) }
            }
        } else {
            Parse { matched: Some((pos, acc)), far: max(far, q.far) }
        }
    }
}

// Terminals.

/// The byte `b`.
pub open spec fn byte(s: Seq<u8>, pos: int, b: u8) -> Parse<()> {
    if 0 <= pos < s.len() && s[pos] == b {
        hit(pos + 1, ())
    } else {
        miss(pos as nat)
    }
}

/// One byte of the class `set`.
pub open spec fn any(s: Seq<u8>, pos: int, set: spec_fn(u8) -> bool) -> Parse<u8> {
    if 0 <= pos < s.len() && set(s[pos]) {
        hit(pos + 1, s[pos])
    } else {
        miss(pos as nat)
    }
}

/// The bytes `l`, all of them.
pub open spec fn lit(s: Seq<u8>, pos: int, l: Seq<u8>) -> Parse<()> {
    if 0 <= pos && pos + l.len() <= s.len() && s.subrange(pos, pos + l.len()) == l {
        hit(pos + l.len(), ())
    } else {
        miss(pos as nat)
    }
}

/// A letter in either case, the lower case tried first.
pub open spec fn letter(s: Seq<u8>, pos: int, lower: u8, upper: u8) -> Parse<()> {
    byte(s, pos, lower).or(byte(s, pos, upper))
}

// Character classes.

/// CHAR: any 7-bit byte but NUL.
pub open spec fn is_char(b: u8) -> bool {
    0x01 <= b <= 0x7f
}

/// DIGIT.
pub open spec fn is_digit(b: u8) -> bool {
    ZERO <= b <= NINE
}

/// digit-nz: a digit other than 0.
pub open spec fn is_digit_nz(b: u8) -> bool {
    ZERO < b <= NINE
}

/// CTL: a control character.
pub open spec fn is_ctl(b: u8) -> bool {
    b <= 0x1f || b == DEL
}

/// quoted-specials: `"` and `\`.
pub open spec fn is_quoted_special(b: u8) -> bool {
    b == DQUOTE || b == BACKSLASH
}

/// atom-specials: what an atom cannot hold.
pub open spec fn is_atom_special(b: u8) -> bool {
    b == LPAREN || b == RPAREN || b == LBRACE || b == SP || is_ctl(b) || b == PERCENT || b == STAR
        || is_quoted_special(b) || b == RBRACKET
}

/// CRLF.
pub open spec fn crlf(s: Seq<u8>, pos: int) -> Parse<()> {
    byte(s, pos, CR).skip_to(|p: int| byte(s, p, LF))
}

/// CHAR: any 7-bit byte but NUL.
pub open spec fn char7(s: Seq<u8>, pos: int) -> Parse<u8> {
    any(s, pos, |b: u8| is_char(b))
}

/// TEXT-CHAR: any CHAR but CR and LF.
pub open spec fn text_char(s: Seq<u8>, pos: int) -> Parse<u8> {
    not(byte(s, pos, CR).or(byte(s, pos, LF)), pos).skip_to(|p: int| char7(s, p))
}

/// TEXT-CHARs from `pos` on, after those in `acc`.
pub open spec fn text_from(s: Seq<u8>, pos: int, acc: Seq<u8>, far: nat) -> Parse<Seq<u8>> {
    star(s, pos, |p: int| text_char(s, p), acc, far)
}

/// text: one or more TEXT-CHAR.
pub open spec fn text(s: Seq<u8>, pos: int) -> Parse<()> {
    plus(text_from(s, pos, Seq::empty(), 0)).void()
}

/// ATOM-CHAR: any CHAR but the atom-specials.
pub open spec fn atom_char(s: Seq<u8>, pos: int) -> Parse<u8> {
    not(any(s, pos, |b: u8| is_atom_special(b)), pos).skip_to(|p: int| char7(s, p))
}

/// ATOM-CHARs from `pos` on, after those in `acc`.
pub open spec fn atom_from(s: Seq<u8>, pos: int, acc: Seq<u8>, far: nat) -> Parse<Seq<u8>> {
    star(s, pos, |p: int| atom_char(s, p), acc, far)
}

/// atom: one or more ATOM-CHAR.
pub open spec fn atom(s: Seq<u8>, pos: int) -> Parse<()> {
    plus(atom_from(s, pos, Seq::empty(), 0)).void()
}

/// ASTRING-CHAR: an ATOM-CHAR or `]`.
pub open spec fn astring_char(s: Seq<u8>, pos: int) -> Parse<u8> {
    atom_char(s, pos).or(byte(s, pos, RBRACKET).map(|v: ()| RBRACKET))
}

/// ASTRING-CHARs from `pos` on, after those in `acc`.
pub open spec fn astring_from(s: Seq<u8>, pos: int, acc: Seq<u8>, far: nat) -> Parse<Seq<u8>> {
    star(s, pos, |p: int| astring_char(s, p), acc, far)
}

/// An ASTRING-CHAR other than `+`.
pub open spec fn tag_char(s: Seq<u8>, pos: int) -> Parse<u8> {
    not(byte(s, pos, PLUS), pos).skip_to(|p: int| astring_char(s, p))
}

/// The characters of a tag from `pos` on, after those in `acc`.
pub open spec fn tag_from(s: Seq<u8>, pos: int, acc: Seq<u8>, far: nat) -> Parse<Seq<u8>> {
    star(s, pos, |p: int| tag_char(s, p), acc, far)
}

/// tag: one or more ASTRING-CHAR other than `+`; denotes its own bytes.
pub open spec fn tag(s: Seq<u8>, pos: int) -> Parse<Seq<u8>> {
    plus(tag_from(s, pos, Seq::empty(), 0)).slice(s, pos)
}

// Numbers.

/// The number that a run of decimal digits writes.
pub open spec fn decimal(digits: Seq<u8>) -> nat
    decreases digits.len(),
{
    if digits.len() == 0 {
        0
    } else {
        decimal(digits.drop_last()) * 10 + (digits.last() - ZERO) as nat
    }
}

/// One digit.
pub open spec fn digit(s: Seq<u8>, pos: int) -> Parse<u8> {
    any(s, pos, |b: u8| is_digit(b))
}

/// Digits from `pos` on, after those in `acc`.
pub open spec fn digits_from(s: Seq<u8>, pos: int, acc: Seq<u8>, far: nat) -> Parse<Seq<u8>> {
    star(s, pos, |p: int| digit(s, p), acc, far)
}

/// The value of a run of digits; a run that writes more than 64 bits hold does not match.
pub open spec fn numeral(run: Parse<Seq<u8>>) -> Parse<u64> {
    match run.matched {
        None => miss(run.far),
        Some((end, digits)) => if decimal(digits) <= u64::MAX {
            Parse { matched: Some((end, decimal(digits) as u64)), far: run.far }
        } else {
            miss(run.far)
        },
    }
}

/// number: one or more digits.
pub open spec fn number(s: Seq<u8>, pos: int) -> Parse<u64> {
    numeral(plus(digits_from(s, pos, Seq::empty(), 0)))
}

/// nz-number: a digit other than 0, then any digits.
pub open spec fn nz_number(s: Seq<u8>, pos: int) -> Parse<u64> {
    any(s, pos, |b: u8| is_digit_nz(b)).and_then(
        |p: int, d: u8| numeral(digits_from(s, p, seq![d], 0)),
    )
}

// Strings.

/// QUOTED-CHAR: a TEXT-CHAR other than `"` and `\`, or one of these two after a `\`.
pub open spec fn quoted_char(s: Seq<u8>, pos: int) -> Parse<u8> {
    not(any(s, pos, |b: u8| is_quoted_special(b)), pos).skip_to(|p: int| text_char(s, p)).or(
        byte(s, pos, BACKSLASH).skip_to(
            |p: int|
                byte(s, p, DQUOTE).map(|v: ()| DQUOTE).or(
                    byte(s, p, BACKSLASH).map(|v: ()| BACKSLASH),
                ),
        ),
    )
}

/// QUOTED-CHARs from `pos` on, after those in `acc`.
pub open spec fn quoted_from(s: Seq<u8>, pos: int, acc: Seq<u8>, far: nat) -> Parse<Seq<u8>> {
    star(s, pos, |p: int| quoted_char(s, p), acc, far)
}

/// quoted: QUOTED-CHARs between two `"`; denotes the characters without their escapes.
pub open spec fn quoted(s: Seq<u8>, pos: int) -> Parse<Seq<u8>> {
    byte(s, pos, DQUOTE).skip_to(|p: int| quoted_from(s, p, Seq::empty(), 0)).keep(
        |p: int| byte(s, p, DQUOTE),
    )
}

/// The `n` bytes at `pos`, whatever they are; nothing is recorded where fewer are left.
pub open spec fn octets(s: Seq<u8>, pos: int, n: u64) -> Parse<Seq<u8>> {
    if 0 <= pos && pos + n <= s.len() {
        hit(pos + n, s.subrange(pos, pos + n))
    } else {
        miss(0)
    }
}

/// literal: `{n}`, CRLF, then `n` bytes; denotes these bytes.
pub open spec fn literal(s: Seq<u8>, pos: int) -> Parse<Seq<u8>> {
    byte(s, pos, LBRACE).skip_to(|p: int| number(s, p)).keep(|p: int| byte(s, p, RBRACE)).keep(
        |p: int| crlf(s, p),
    ).and_then(|p: int, n: u64| octets(s, p, n))
}

/// string: quoted or literal.
pub open spec fn string(s: Seq<u8>, pos: int) -> Parse<Seq<u8>> {
    quoted(s, pos).or(literal(s, pos))
}

/// astring: one or more ASTRING-CHAR, or a string.
pub open spec fn astring(s: Seq<u8>, pos: int) -> Parse<Seq<u8>> {
    plus(astring_from(s, pos, Seq::empty(), 0)).slice(s, pos).or(string(s, pos))
}

/// nstring: a string, or `NIL` for none.
pub open spec fn nstring(s: Seq<u8>, pos: int) -> Parse<Option<Seq<u8>>> {
    string(s, pos).map(|v: Seq<u8>| Some(v)).or(
        lit(s, pos, "NIL".spec_bytes()).map(|v: ()| None::<Seq<u8>>),
    )
}

// Capabilities.

/// capability: `AUTH=` and an atom, or an atom; denotes its own bytes.
pub open spec fn capability(s: Seq<u8>, pos: int) -> Parse<Seq<u8>> {
    lit(s, pos, "AUTH=".spec_bytes()).skip_to(|p: int| atom(s, p)).or(atom(s, pos)).slice(s, pos)
}

/// A space and a capability.
pub open spec fn sp_capability(s: Seq<u8>, pos: int) -> Parse<Seq<u8>> {
    byte(s, pos, SP).skip_to(|p: int| capability(s, p))
}

/// Capabilities from `pos` on, a space before each, after those in `acc`.
pub open spec fn capabilities_from(
    s: Seq<u8>,
    pos: int,
    acc: Seq<Seq<u8>>,
    far: nat,
) -> Parse<Seq<Seq<u8>>> {
    star(s, pos, |p: int| sp_capability(s, p), acc, far)
}

/// capability-data: `CAPABILITY`, then one or more capabilities, a space before each.
pub open spec fn capability_data(s: Seq<u8>, pos: int) -> Parse<Seq<Seq<u8>>> {
    lit(s, pos, "CAPABILITY".spec_bytes()).skip_to(
        |p: int| plus(capabilities_from(s, p, Seq::empty(), 0)),
    )
}

// Mailboxes.

/// The five letters of `INBOX`, each in either case.
pub open spec fn inbox(s: Seq<u8>, pos: int) -> Parse<()> {
    letter(s, pos, 0x69, 0x49).skip_to(|p: int| letter(s, p, 0x6e, 0x4e)).skip_to(
        |p: int| letter(s, p, 0x62, 0x42),
    ).skip_to(|p: int| letter(s, p, 0x6f, 0x4f)).skip_to(|p: int| letter(s, p, 0x78, 0x58))
}

/// mailbox: `INBOX` in any case, or an astring.
pub open spec fn mailbox(s: Seq<u8>, pos: int) -> Parse<MailboxView> {
    inbox(s, pos).map(|v: ()| MailboxView::Inbox).or(
        astring(s, pos).map(|v: Seq<u8>| MailboxView::Other(v)),
    )
}

/// A `\` and an atom; denotes its own bytes.
pub open spec fn flag_extension(s: Seq<u8>, pos: int) -> Parse<Seq<u8>> {
    byte(s, pos, BACKSLASH).skip_to(|p: int| atom(s, p)).slice(s, pos)
}

/// The flags of a mailbox from `pos` on, a space between two, after those in `acc`.
pub open spec fn mbx_list_flags_from(
    s: Seq<u8>,
    pos: int,
    acc: Seq<Seq<u8>>,
    far: nat,
) -> Parse<Seq<Seq<u8>>> {
    separated(s, pos, |p: int| flag_extension(s, p), |p: int| byte(s, p, SP), acc, far)
}

/// One quoted character between two `"`.
pub open spec fn quoted_one(s: Seq<u8>, pos: int) -> Parse<u8> {
    byte(s, pos, DQUOTE).skip_to(|p: int| quoted_char(s, p)).keep(|p: int| byte(s, p, DQUOTE))
}

/// The hierarchy separator of a LIST line: one quoted character, or `NIL` for none.
pub open spec fn separator(s: Seq<u8>, pos: int) -> Parse<Option<u8>> {
    quoted_one(s, pos).map(|c: u8| Some(c)).or(
        lit(s, pos, "NIL".spec_bytes()).map(|v: ()| None::<u8>),
    )
}

/// mailbox-list: the flags in brackets, the separator, the mailbox.
pub open spec fn mailbox_list(s: Seq<u8>, pos: int) -> Parse<(Seq<Seq<u8>>, Option<u8>, MailboxView)> {
    byte(s, pos, LPAREN).skip_to(|p: int| mbx_list_flags_from(s, p, Seq::empty(), 0)).keep(
        |p: int| byte(s, p, RPAREN),
    ).keep(|p: int| byte(s, p, SP)).pair(|p: int| separator(s, p)).keep(
        |p: int| byte(s, p, SP),
    ).pair(|p: int| mailbox(s, p)).map(
        |v: ((Seq<Seq<u8>>, Option<u8>), MailboxView)| ((v.0).0, (v.0).1, v.1),
    )
}

// Flags.

/// flag: a keyword (an atom) or a `\` and an atom; denotes its own bytes.
pub open spec fn flag(s: Seq<u8>, pos: int) -> Parse<Seq<u8>> {
    atom(s, pos).slice(s, pos).or(flag_extension(s, pos))
}

/// flag-perm: a flag or `\*`.
pub open spec fn flag_perm(s: Seq<u8>, pos: int) -> Parse<Seq<u8>> {
    flag(s, pos).or(lit(s, pos, "\\*".spec_bytes()).slice(s, pos))
}

/// Flags from `pos` on, a space between two, after those in `acc`.
pub open spec fn flags_from(s: Seq<u8>, pos: int, acc: Seq<Seq<u8>>, far: nat) -> Parse<
    Seq<Seq<u8>>,
> {
    separated(s, pos, |p: int| flag(s, p), |p: int| byte(s, p, SP), acc, far)
}

/// Permanent flags from `pos` on, a space between two, after those in `acc`.
pub open spec fn flags_perm_from(s: Seq<u8>, pos: int, acc: Seq<Seq<u8>>, far: nat) -> Parse<
    Seq<Seq<u8>>,
> {
    separated(s, pos, |p: int| flag_perm(s, p), |p: int| byte(s, p, SP), acc, far)
}

// Message attributes.

/// `UID` and a unique identifier.
pub open spec fn msg_att_uid(s: Seq<u8>, pos: int) -> Parse<u64> {
    lit(s, pos, "UID".spec_bytes()).skip_to(|p: int| byte(s, p, SP)).skip_to(
        |p: int| nz_number(s, p),
    )
}

/// `FLAGS` and the flags in brackets, a space between two.
pub open spec fn msg_att_flags(s: Seq<u8>, pos: int) -> Parse<Seq<Seq<u8>>> {
    lit(s, pos, "FLAGS".spec_bytes()).skip_to(|p: int| byte(s, p, SP)).skip_to(
        |p: int| byte(s, p, LPAREN),
    ).skip_to(|p: int| flags_from(s, p, Seq::empty(), 0)).keep(|p: int| byte(s, p, RPAREN))
}

/// `MODSEQ` and a mod-sequence in brackets.
pub open spec fn msg_att_modseq(s: Seq<u8>, pos: int) -> Parse<u64> {
    lit(s, pos, "MODSEQ".spec_bytes()).skip_to(|p: int| byte(s, p, SP)).skip_to(
        |p: int| byte(s, p, LPAREN),
    ).skip_to(|p: int| number(s, p)).keep(|p: int| byte(s, p, RPAREN))
}

// Sets of identifiers.

/// The range that two bounds written around a `:` denote, in whichever order they are
/// written: from the lower of the two numbers to the higher. A `*`, whose lower bound is 0 as
/// that of no number is, stands for the largest number there is: with a number, the range
/// goes from that number up, without an end.
pub open spec fn span(first: Range, second: Range) -> Range {
    Range(
        if first.0 == 0 {
            second.0
        } else if second.0 == 0 || first.0 <= second.0 {
            first.0
        } else {
            second.0
        },
        if first.1 <= second.1 {
            second.1
        } else {
            first.1
        },
    )
}

/// seq-number: a number other than 0, or `*` for everything up to the largest.
pub open spec fn seq_number(s: Seq<u8>, pos: int) -> Parse<Range> {
    nz_number(s, pos).map(|n: u64| Range(n, n)).or(
        byte(s, pos, STAR).map(|v: ()| Range(0, u64::MAX)),
    )
}

/// seq-range: two seq-numbers around a `:`, in either order.
pub open spec fn seq_range(s: Seq<u8>, pos: int) -> Parse<Range> {
    seq_number(s, pos).keep(|p: int| byte(s, p, COLON)).pair(|p: int| seq_number(s, p)).map(
        |v: (Range, Range)| span(v.0, v.1),
    )
}

/// One member of a sequence-set: a range, or else a single seq-number.
pub open spec fn seq_member(s: Seq<u8>, pos: int) -> Parse<Range> {
    seq_range(s, pos).or(seq_number(s, pos))
}

/// sequence-set: its members from `pos` on, a comma between two, after those in `acc`.
pub open spec fn sequence_set_from(s: Seq<u8>, pos: int, acc: Seq<Range>, far: nat) -> Parse<
    Seq<Range>,
> {
    separated(s, pos, |p: int| seq_member(s, p), |p: int| byte(s, p, COMMA), acc, far)
}

/// uid-range: two unique identifiers around a `:`, in either order.
pub open spec fn uid_range(s: Seq<u8>, pos: int) -> Parse<Range> {
    nz_number(s, pos).keep(|p: int| byte(s, p, COLON)).pair(|p: int| nz_number(s, p)).map(
        |v: (u64, u64)| span(Range(v.0, v.0), Range(v.1, v.1)),
    )
}

/// One member of a uid-set: a range, or else a single identifier.
pub open spec fn uid_member(s: Seq<u8>, pos: int) -> Parse<Range> {
    uid_range(s, pos).or(nz_number(s, pos).map(|n: u64| Range(n, n)))
}

/// uid-set: its members from `pos` on, a comma between two, after those in `acc`.
pub open spec fn uid_set_from(s: Seq<u8>, pos: int, acc: Seq<Range>, far: nat) -> Parse<
    Seq<Range>,
> {
    separated(s, pos, |p: int| uid_member(s, p), |p: int| byte(s, p, COMMA), acc, far)
}

// Response codes.

/// `PERMANENTFLAGS` and the flags in brackets.
pub open spec fn code_permanentflags(s: Seq<u8>, pos: int) -> Parse<Seq<Seq<u8>>> {
    lit(s, pos, "PERMANENTFLAGS".spec_bytes()).skip_to(|p: int| byte(s, p, SP)).skip_to(
        |p: int| byte(s, p, LPAREN),
    ).skip_to(|p: int| flags_perm_from(s, p, Seq::empty(), 0)).keep(|p: int| byte(s, p, RPAREN))
}

/// `UIDVALIDITY` and a number other than 0.
pub open spec fn code_uidvalidity(s: Seq<u8>, pos: int) -> Parse<u64> {
    lit(s, pos, "UIDVALIDITY".spec_bytes()).skip_to(|p: int| byte(s, p, SP)).skip_to(
        |p: int| nz_number(s, p),
    )
}

/// `HIGHESTMODSEQ` and a mod-sequence.
pub open spec fn code_highestmodseq(s: Seq<u8>, pos: int) -> Parse<u64> {
    lit(s, pos, "HIGHESTMODSEQ".spec_bytes()).skip_to(|p: int| byte(s, p, SP)).skip_to(
        |p: int| number(s, p),
    )
}

/// `APPENDUID`, the UIDVALIDITY and the identifier.
pub open spec fn code_appenduid(s: Seq<u8>, pos: int) -> Parse<Append> {
    lit(s, pos, "APPENDUID".spec_bytes()).skip_to(|p: int| byte(s, p, SP)).skip_to(
        |p: int| nz_number(s, p),
    ).keep(|p: int| byte(s, p, SP)).pair(|p: int| nz_number(s, p)).map(
        |v: (u64, u64)| Append { uidvalidity: v.0, uid: v.1 },
    )
}

/// `MODIFIED` and a sequence-set.
pub open spec fn code_modified(s: Seq<u8>, pos: int) -> Parse<Seq<Range>> {
    lit(s, pos, "MODIFIED".spec_bytes()).skip_to(|p: int| byte(s, p, SP)).skip_to(
        |p: int| sequence_set_from(s, p, Seq::empty(), 0),
    )
}

/// `COPYUID`, the UIDVALIDITY and two uid-sets.
pub open spec fn code_copyuid(s: Seq<u8>, pos: int) -> Parse<MoveView> {
    lit(s, pos, "COPYUID".spec_bytes()).skip_to(|p: int| byte(s, p, SP)).skip_to(
        |p: int| nz_number(s, p),
    ).keep(|p: int| byte(s, p, SP)).pair(|p: int| uid_set_from(s, p, Seq::empty(), 0)).keep(
        |p: int| byte(s, p, SP),
    ).pair(|p: int| uid_set_from(s, p, Seq::empty(), 0)).map(
        |v: ((u64, Seq<Range>), Seq<Range>)|
            MoveView { uidvalidity: (v.0).0, from: (v.0).1, to: v.1 },
    )
}

/// `OK`, a space and the opening bracket of a response code.
pub open spec fn ok_code(s: Seq<u8>, pos: int) -> Parse<()> {
    lit(s, pos, "OK".spec_bytes()).skip_to(|p: int| byte(s, p, SP)).skip_to(
        |p: int| byte(s, p, LBRACKET),
    )
}

/// The closing bracket of a response code, a space, the text and the end of the line.
pub open spec fn code_end(s: Seq<u8>, pos: int) -> Parse<()> {
    byte(s, pos, RBRACKET).skip_to(|p: int| byte(s, p, SP)).skip_to(|p: int| text(s, p)).skip_to(
        |p: int| crlf(s, p),
    )
}

/// The closing bracket of a response code and a space.
pub open spec fn code_close(s: Seq<u8>, pos: int) -> Parse<()> {
    byte(s, pos, RBRACKET).skip_to(|p: int| byte(s, p, SP))
}

/// The head of an untagged FETCH: the message number, `FETCH` and the opening bracket.
pub open spec fn fetch_head(s: Seq<u8>, pos: int) -> Parse<()> {
    nz_number(s, pos).skip_to(|p: int| byte(s, p, SP)).skip_to(
        |p: int| lit(s, p, "FETCH".spec_bytes()),
    ).skip_to(|p: int| byte(s, p, SP)).skip_to(|p: int| byte(s, p, LPAREN))
}

// The responses.

/// `*` or a tag; denotes its own bytes.
pub open spec fn star_or_tag(s: Seq<u8>, pos: int) -> Parse<Seq<u8>> {
    byte(s, pos, STAR).slice(s, pos).or(tag(s, pos))
}

/// `*` or a tag, then a space; denotes which.
#[verifier::opaque]
pub open spec fn start(s: Seq<u8>, pos: int) -> Parse<Seq<u8>> {
    star_or_tag(s, pos).keep(|p: int| byte(s, p, SP))
}

/// One line of text.
#[verifier::opaque]
pub open spec fn skip(s: Seq<u8>, pos: int) -> Parse<()> {
    text(s, pos).skip_to(|p: int| crlf(s, p))
}

/// A line that opens with the word `word` and a space.
pub open spec fn status(s: Seq<u8>, pos: int, word: Seq<u8>) -> Parse<()> {
    lit(s, pos, word).skip_to(|p: int| byte(s, p, SP)).skip_to(|p: int| text(s, p)).skip_to(
        |p: int| crlf(s, p),
    )
}

/// A status line that says BAD.
#[verifier::opaque]
pub open spec fn bad(s: Seq<u8>, pos: int) -> Parse<()> {
    status(s, pos, "BAD".spec_bytes())
}

/// A status line that says OK.
#[verifier::opaque]
pub open spec fn ok(s: Seq<u8>, pos: int) -> Parse<()> {
    status(s, pos, "OK".spec_bytes())
}

/// An OK that carries the CAPABILITY code.
#[verifier::opaque]
pub open spec fn available_capabilities(s: Seq<u8>, pos: int) -> Parse<Seq<Seq<u8>>> {
    ok_code(s, pos).skip_to(|p: int| capability_data(s, p)).keep(|p: int| code_end(s, p))
}

/// An ENABLED line.
#[verifier::opaque]
pub open spec fn enabled_capabilities(s: Seq<u8>, pos: int) -> Parse<Seq<Seq<u8>>> {
    lit(s, pos, "ENABLED".spec_bytes()).skip_to(
        |p: int| capabilities_from(s, p, Seq::empty(), 0),
    ).keep(|p: int| crlf(s, p))
}

/// A LIST line.
#[verifier::opaque]
pub open spec fn list_mailbox(s: Seq<u8>, pos: int) -> Parse<
    (Seq<Seq<u8>>, Option<u8>, MailboxView),
> {
    lit(s, pos, "LIST".spec_bytes()).skip_to(|p: int| byte(s, p, SP)).skip_to(
        |p: int| mailbox_list(s, p),
    ).keep(|p: int| crlf(s, p))
}

/// The response code of an untagged OK that SELECT sends.
pub open spec fn select_code(s: Seq<u8>, pos: int) -> Parse<SelectView> {
    code_permanentflags(s, pos).map(|v: Seq<Seq<u8>>| SelectView::Flags(v)).or(
        code_uidvalidity(s, pos).map(|v: u64| SelectView::UIDValidity(v)),
    ).or(code_highestmodseq(s, pos).map(|v: u64| SelectView::HighestModSeq(v)))
}

/// An OK with one of the codes that SELECT sends, up to the end of its text.
pub open spec fn select_ok(s: Seq<u8>, pos: int) -> Parse<SelectView> {
    ok_code(s, pos).skip_to(|p: int| select_code(s, p)).keep(|p: int| code_close(s, p)).keep(
        |p: int| text(s, p),
    )
}

/// `VANISHED (EARLIER)` and a sequence-set.
pub open spec fn select_vanished(s: Seq<u8>, pos: int) -> Parse<SelectView> {
    lit(s, pos, "VANISHED".spec_bytes()).skip_to(|p: int| byte(s, p, SP)).skip_to(
        |p: int| lit(s, p, "(EARLIER)".spec_bytes()),
    ).skip_to(|p: int| byte(s, p, SP)).skip_to(
        |p: int| sequence_set_from(s, p, Seq::empty(), 0),
    ).map(|v: Seq<Range>| SelectView::Vanished(v))
}

/// UID, FLAGS, MODSEQ.
pub open spec fn uid_flags_modseq(s: Seq<u8>, pos: int) -> Parse<SelectFetchView> {
    msg_att_uid(s, pos).keep(|p: int| byte(s, p, SP)).pair(|p: int| msg_att_flags(s, p)).keep(
        |p: int| byte(s, p, SP),
    ).pair(|p: int| msg_att_modseq(s, p)).map(
        |v: ((u64, Seq<Seq<u8>>), u64)| SelectFetchView { uid: (v.0).0, flags: (v.0).1, modseq: v.1 },
    )
}

/// UID, MODSEQ, FLAGS.
pub open spec fn uid_modseq_flags(s: Seq<u8>, pos: int) -> Parse<SelectFetchView> {
    msg_att_uid(s, pos).keep(|p: int| byte(s, p, SP)).pair(|p: int| msg_att_modseq(s, p)).keep(
        |p: int| byte(s, p, SP),
    ).pair(|p: int| msg_att_flags(s, p)).map(
        |v: ((u64, u64), Seq<Seq<u8>>)| SelectFetchView { uid: (v.0).0, flags: v.1, modseq: (v.0).1 },
    )
}

/// FLAGS, UID, MODSEQ.
pub open spec fn flags_uid_modseq(s: Seq<u8>, pos: int) -> Parse<SelectFetchView> {
    msg_att_flags(s, pos).keep(|p: int| byte(s, p, SP)).pair(|p: int| msg_att_uid(s, p)).keep(
        |p: int| byte(s, p, SP),
    ).pair(|p: int| msg_att_modseq(s, p)).map(
        |v: ((Seq<Seq<u8>>, u64), u64)| SelectFetchView { uid: (v.0).1, flags: (v.0).0, modseq: v.1 },
    )
}

/// FLAGS, MODSEQ, UID.
pub open spec fn flags_modseq_uid(s: Seq<u8>, pos: int) -> Parse<SelectFetchView> {
    msg_att_flags(s, pos).keep(|p: int| byte(s, p, SP)).pair(|p: int| msg_att_modseq(s, p)).keep(
        |p: int| byte(s, p, SP),
    ).pair(|p: int| msg_att_uid(s, p)).map(
        |v: ((Seq<Seq<u8>>, u64), u64)| SelectFetchView { uid: v.1, flags: (v.0).0, modseq: (v.0).1 },
    )
}

/// MODSEQ, UID, FLAGS.
pub open spec fn modseq_uid_flags(s: Seq<u8>, pos: int) -> Parse<SelectFetchView> {
    msg_att_modseq(s, pos).keep(|p: int| byte(s, p, SP)).pair(|p: int| msg_att_uid(s, p)).keep(
        |p: int| byte(s, p, SP),
    ).pair(|p: int| msg_att_flags(s, p)).map(
        |v: ((u64, u64), Seq<Seq<u8>>)| SelectFetchView { uid: (v.0).1, flags: v.1, modseq: (v.0).0 },
    )
}

/// MODSEQ, FLAGS, UID.
pub open spec fn modseq_flags_uid(s: Seq<u8>, pos: int) -> Parse<SelectFetchView> {
    msg_att_modseq(s, pos).keep(|p: int| byte(s, p, SP)).pair(|p: int| msg_att_flags(s, p)).keep(
        |p: int| byte(s, p, SP),
    ).pair(|p: int| msg_att_uid(s, p)).map(
        |v: ((u64, Seq<Seq<u8>>), u64)| SelectFetchView { uid: v.1, flags: (v.0).1, modseq: (v.0).0 },
    )
}

/// UID, FLAGS and MODSEQ in any of their six orders.
pub open spec fn select_attributes(s: Seq<u8>, pos: int) -> Parse<SelectFetchView> {
    uid_flags_modseq(s, pos).or(uid_modseq_flags(s, pos)).or(flags_uid_modseq(s, pos)).or(
        flags_modseq_uid(s, pos),
    ).or(modseq_uid_flags(s, pos)).or(modseq_flags_uid(s, pos))
}

/// A FETCH of UID, FLAGS and MODSEQ, up to its closing bracket.
pub open spec fn select_fetch(s: Seq<u8>, pos: int) -> Parse<SelectView> {
    fetch_head(s, pos).skip_to(|p: int| select_attributes(s, p)).keep(
        |p: int| byte(s, p, RPAREN),
    ).map(|v: SelectFetchView| SelectView::Fetch(v))
}

/// One untagged response to a SELECT, up to the end of its line.
pub open spec fn select_item(s: Seq<u8>, pos: int) -> Parse<SelectView> {
    select_ok(s, pos).or(select_vanished(s, pos)).or(select_fetch(s, pos))
}

/// One untagged response to a SELECT.
#[verifier::opaque]
pub open spec fn select_data(s: Seq<u8>, pos: int) -> Parse<SelectView> {
    select_item(s, pos).keep(|p: int| crlf(s, p))
}

/// UID, RFC822.SIZE.
pub open spec fn uid_size(s: Seq<u8>, pos: int) -> Parse<(u64, u64)> {
    msg_att_uid(s, pos).keep(|p: int| byte(s, p, SP)).keep(
        |p: int| lit(s, p, "RFC822.SIZE".spec_bytes()),
    ).keep(|p: int| byte(s, p, SP)).pair(|p: int| number(s, p))
}

/// RFC822.SIZE, UID.
pub open spec fn size_uid(s: Seq<u8>, pos: int) -> Parse<(u64, u64)> {
    lit(s, pos, "RFC822.SIZE".spec_bytes()).skip_to(|p: int| byte(s, p, SP)).skip_to(
        |p: int| number(s, p),
    ).keep(|p: int| byte(s, p, SP)).pair(|p: int| msg_att_uid(s, p)).map(
        |v: (u64, u64)| (v.1, v.0),
    )
}

/// UID and RFC822.SIZE in either order.
pub open spec fn size_attributes(s: Seq<u8>, pos: int) -> Parse<(u64, u64)> {
    uid_size(s, pos).or(size_uid(s, pos))
}

/// A FETCH of UID and RFC822.SIZE.
#[verifier::opaque]
pub open spec fn fetch_size_data(s: Seq<u8>, pos: int) -> Parse<(u64, u64)> {
    fetch_head(s, pos).skip_to(|p: int| size_attributes(s, p)).keep(
        |p: int| byte(s, p, RPAREN),
    ).keep(|p: int| crlf(s, p))
}

/// UID, BODY[].
pub open spec fn uid_body(s: Seq<u8>, pos: int) -> Parse<(u64, Option<Seq<u8>>)> {
    msg_att_uid(s, pos).keep(|p: int| byte(s, p, SP)).keep(
        |p: int| lit(s, p, "BODY[]".spec_bytes()),
    ).keep(|p: int| byte(s, p, SP)).pair(|p: int| nstring(s, p))
}

/// BODY[], UID.
pub open spec fn body_uid(s: Seq<u8>, pos: int) -> Parse<(u64, Option<Seq<u8>>)> {
    lit(s, pos, "BODY[]".spec_bytes()).skip_to(|p: int| byte(s, p, SP)).skip_to(
        |p: int| nstring(s, p),
    ).keep(|p: int| byte(s, p, SP)).pair(|p: int| msg_att_uid(s, p)).map(
        |v: (Option<Seq<u8>>, u64)| (v.1, v.0),
    )
}

/// UID and BODY[] in either order.
pub open spec fn body_attributes(s: Seq<u8>, pos: int) -> Parse<(u64, Option<Seq<u8>>)> {
    uid_body(s, pos).or(body_uid(s, pos))
}

/// A FETCH of UID and BODY[].
#[verifier::opaque]
pub open spec fn fetch_body_data(s: Seq<u8>, pos: int) -> Parse<(u64, Option<Seq<u8>>)> {
    fetch_head(s, pos).skip_to(|p: int| body_attributes(s, p)).keep(
        |p: int| byte(s, p, RPAREN),
    ).keep(|p: int| crlf(s, p))
}

/// The OK that completes an APPEND.
#[verifier::opaque]
pub open spec fn append(s: Seq<u8>, pos: int) -> Parse<Append> {
    ok_code(s, pos).skip_to(|p: int| code_appenduid(s, p)).keep(|p: int| code_end(s, p))
}

/// The untagged OK with the HIGHESTMODSEQ code.
#[verifier::opaque]
pub open spec fn append_data(s: Seq<u8>, pos: int) -> Parse<u64> {
    ok_code(s, pos).skip_to(|p: int| code_highestmodseq(s, p)).keep(|p: int| code_end(s, p))
}

/// `OK` and a space.
pub open spec fn ok_sp(s: Seq<u8>, pos: int) -> Parse<()> {
    lit(s, pos, "OK".spec_bytes()).skip_to(|p: int| byte(s, p, SP))
}

/// The MODIFIED code in brackets and the space behind it.
pub open spec fn bracketed_modified(s: Seq<u8>, pos: int) -> Parse<Seq<Range>> {
    byte(s, pos, LBRACKET).skip_to(|p: int| code_modified(s, p)).keep(|p: int| code_close(s, p))
}

/// The HIGHESTMODSEQ code in brackets and the space behind it.
pub open spec fn bracketed_highestmodseq(s: Seq<u8>, pos: int) -> Parse<u64> {
    byte(s, pos, LBRACKET).skip_to(|p: int| code_highestmodseq(s, p)).keep(
        |p: int| code_close(s, p),
    )
}

/// The OK that completes a STORE.
#[verifier::opaque]
pub open spec fn store(s: Seq<u8>, pos: int) -> Parse<Option<Seq<Range>>> {
    ok_sp(s, pos).skip_to(|p: int| bracketed_modified(s, p).optional(p)).keep(
        |p: int| text(s, p),
    ).keep(|p: int| crlf(s, p))
}

/// UID, MODSEQ.
pub open spec fn uid_modseq(s: Seq<u8>, pos: int) -> Parse<Store> {
    msg_att_uid(s, pos).keep(|p: int| byte(s, p, SP)).pair(|p: int| msg_att_modseq(s, p)).map(
        |v: (u64, u64)| Store { uid: v.0, modseq: v.1 },
    )
}

/// MODSEQ, UID.
pub open spec fn modseq_uid(s: Seq<u8>, pos: int) -> Parse<Store> {
    msg_att_modseq(s, pos).keep(|p: int| byte(s, p, SP)).pair(|p: int| msg_att_uid(s, p)).map(
        |v: (u64, u64)| Store { uid: v.1, modseq: v.0 },
    )
}

/// UID and MODSEQ in either order.
pub open spec fn store_attributes(s: Seq<u8>, pos: int) -> Parse<Store> {
    uid_modseq(s, pos).or(modseq_uid(s, pos))
}

/// The untagged FETCH that a STORE causes.
#[verifier::opaque]
pub open spec fn store_data(s: Seq<u8>, pos: int) -> Parse<Store> {
    fetch_head(s, pos).skip_to(|p: int| store_attributes(s, p)).keep(
        |p: int| byte(s, p, RPAREN),
    ).keep(|p: int| crlf(s, p))
}

/// The OK that completes a MOVE.
#[verifier::opaque]
pub open spec fn move_(s: Seq<u8>, pos: int) -> Parse<Option<u64>> {
    ok_sp(s, pos).skip_to(|p: int| bracketed_highestmodseq(s, p).optional(p)).keep(
        |p: int| text(s, p),
    ).keep(|p: int| crlf(s, p))
}

/// The untagged OK with the COPYUID code.
#[verifier::opaque]
pub open spec fn move_data(s: Seq<u8>, pos: int) -> Parse<MoveView> {
    ok_code(s, pos).skip_to(|p: int| code_copyuid(s, p)).keep(|p: int| code_end(s, p))
}

} // verus!
