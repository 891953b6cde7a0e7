//! The rules of the grammar as executable functions, each proved to compute what the rule of
//! the same name in [`super::grammar`] denotes.
use vstd::prelude::*;
use vstd::slice::{slice_subrange, slice_to_vec};
use vstd::string::StringSliceAdditionalSpecFns;
use super::grammar;
use super::grammar::{Parse, max};
use super::{Append, Mailbox, Move, Range, Select, SelectFetch, Store};

verus! {

/// `r` is what `p` denotes and lies inside an input of `len` bytes, and `after` is `before`
/// moved up to the furthest refusal of `p`.
pub open spec fn ran<T: DeepView>(
    r: Option<(usize, T)>,
    p: Parse<T::V>,
    len: usize,
    before: usize,
    after: usize,
) -> bool {
    &&& after as nat == max(before as nat, p.far)
    &&& match r {
        Some((end, value)) => end <= len && p.matched == Some((end as int, value.deep_view())),
        None => p.matched is None,
    }
}

/// As [`ran`], for a rule that denotes nothing.
pub open spec fn passed<T>(
    r: Option<usize>,
    p: Parse<T>,
    len: usize,
    before: usize,
    after: usize,
) -> bool {
    &&& after as nat == max(before as nat, p.far)
    &&& match r {
        Some(end) => end <= len && p.matched is Some && p.end() == end,
        None => p.matched is None,
    }
}

/// The deep view of a byte string is its view.
pub proof fn lemma_bytes_deep_view(v: Vec<u8>)
    ensures
        v.deep_view() == v@,
{
    assert(v.deep_view() =~= v@);
}

fn mark(far: &mut usize, pos: usize)
    ensures
        *final(far) as nat == max(*old(far) as nat, pos as nat),
{
    if pos > *far {
        *far = pos;
    }
}

/// The bytes of `input` from `from` to `to`, copied.
pub(crate) fn copy(input: &[u8], from: usize, to: usize) -> (r: Vec<u8>)
    requires
        from <= to <= input.len(),
    ensures
        r@ == input@.subrange(from as int, to as int),
        r.deep_view() == input@.subrange(from as int, to as int),
{
    let r = slice_to_vec(slice_subrange(input, from, to));
    proof {
        lemma_bytes_deep_view(r);
    }
    r
}

pub(crate) fn byte(input: &[u8], pos: usize, b: u8, far: &mut usize) -> (r: Option<usize>)
    requires
        pos <= input.len(),
    ensures
        passed(r, grammar::byte(input@, pos as int, b), input.len(), *old(far), *final(far)),
{
    if pos < input.len() && input[pos] == b {
        Some(pos + 1)
    } else {
        mark(far, pos);
        None
    }
}

pub(crate) fn lit(input: &[u8], pos: usize, word: &str, far: &mut usize) -> (r: Option<usize>)
    requires
        pos <= input.len(),
    ensures
        passed(
            r,
            grammar::lit(input@, pos as int, word.spec_bytes()),
            input.len(),
            *old(far),
            *final(far),
        ),
{
    let l = word.as_bytes();
    let n: usize = l.len();
    if input.len() - pos >= n {
        let mut i: usize = 0;
        while i < n
            invariant
                i <= n,
                n == l.len(),
                l@ == word.spec_bytes(),
                pos + n <= input.len(),
                input@.subrange(pos as int, pos + i) == l@.subrange(0, i as int),
                *far == *old(far),
            decreases n - i,
        {
            if input[pos + i] != l[i] {
                assert(input@.subrange(pos as int, pos + n)[i as int] != l@[i as int]);
                mark(far, pos);
                return None;
            }
            assert(input@.subrange(pos as int, pos + i + 1) =~= input@.subrange(
                pos as int,
                pos + i,
            ).push(input@[pos + i]));
            assert(l@.subrange(0, i + 1) =~= l@.subrange(0, i as int).push(l@[i as int]));
            i += 1;
        }
        assert(l@.subrange(0, n as int) =~= l@);
        Some(pos + n)
    } else {
        mark(far, pos);
        None
    }
}

pub(crate) fn letter(input: &[u8], pos: usize, lower: u8, upper: u8, far: &mut usize) -> (r:
    Option<usize>)
    requires
        pos <= input.len(),
    ensures
        passed(
            r,
            grammar::letter(input@, pos as int, lower, upper),
            input.len(),
            *old(far),
            *final(far),
        ),
{
    match byte(input, pos, lower, far) {
        Some(end) => Some(end),
        None => byte(input, pos, upper, far),
    }
}

pub(crate) fn crlf(input: &[u8], pos: usize, far: &mut usize) -> (r: Option<usize>)
    requires
        pos <= input.len(),
    ensures
        passed(r, grammar::crlf(input@, pos as int), input.len(), *old(far), *final(far)),
{
    let p = byte(input, pos, grammar::CR, far)?;
    byte(input, p, grammar::LF, far)
}

pub(crate) fn text_char(input: &[u8], pos: usize, far: &mut usize) -> (r: Option<(usize, u8)>)
    requires
        pos <= input.len(),
    ensures
        ran(r, grammar::text_char(input@, pos as int), input.len(), *old(far), *final(far)),
        r is Some ==> (r->0).0 == pos + 1,
{
    if pos < input.len() {
        let b = input[pos];
        if b == grammar::CR || b == grammar::LF {
            None
        } else if 0x01 <= b && b <= 0x7f {
            Some((pos + 1, b))
        } else {
            mark(far, pos);
            None
        }
    } else {
        mark(far, pos);
        None
    }
}

pub(crate) fn text(input: &[u8], pos: usize, far: &mut usize) -> (r: Option<usize>)
    requires
        pos <= input.len(),
    ensures
        passed(r, grammar::text(input@, pos as int), input.len(), *old(far), *final(far)),
{
    let mut cur = pos;
    let ghost mut acc = Seq::<u8>::empty();
    let ghost mut seen = 0nat;
    loop
        invariant_except_break
            grammar::text_from(input@, pos as int, Seq::empty(), 0) == grammar::text_from(
                input@,
                cur as int,
                acc,
                seen,
            ),
        invariant
            pos <= cur <= input.len(),
            *far as nat == max(*old(far) as nat, seen),
            (cur == pos) == (acc.len() == 0),
        ensures
            grammar::text_from(input@, pos as int, Seq::empty(), 0) == (Parse {
                matched: Some((cur as int, acc)),
                far: seen,
            }),
        decreases input.len() - cur,
    {
        let ghost item = grammar::text_char(input@, cur as int);
        match text_char(input, cur, far) {
            Some((end, value)) => {
                proof {
                    acc = acc.push(value);
                    seen = max(seen, item.far);
                }
                cur = end;
            },
            None => {
                proof {
                    seen = max(seen, item.far);
                }
                break ;
            },
        }
    }
    if cur > pos {
        Some(cur)
    } else {
        None
    }
}

pub(crate) fn status(input: &[u8], pos: usize, word: &str, far: &mut usize) -> (r: Option<usize>)
    requires
        pos <= input.len(),
    ensures
        passed(
            r,
            grammar::status(input@, pos as int, word.spec_bytes()),
            input.len(),
            *old(far),
            *final(far),
        ),
{
    let p = lit(input, pos, word, far)?;
    let p = byte(input, p, grammar::SP, far)?;
    let p = text(input, p, far)?;
    crlf(input, p, far)
}


/// The deep view of a list of ranges is its view.
pub proof fn lemma_ranges_deep_view(v: Vec<Range>)
    ensures
        v.deep_view() == v@,
{
    assert(v.deep_view() =~= v@);
}

/// The deep view of a list with one more element is the deep view of the list with the deep view of the element.
pub proof fn lemma_push_deep_view<T: DeepView>(before: Seq<T>, after: Seq<T>, last: T)
    requires
        after == before.push(last),
    ensures
        Seq::new(after.len(), |i: int| after[i].deep_view()) == Seq::new(
            before.len(),
            |i: int| before[i].deep_view(),
        ).push(last.deep_view()),
{
    assert(Seq::new(after.len(), |i: int| after[i].deep_view()) =~= Seq::new(
        before.len(),
        |i: int| before[i].deep_view(),
    ).push(last.deep_view()));
}

/// The deep view of an empty list is empty.
pub proof fn lemma_empty_deep_view<T: DeepView>(v: Vec<T>)
    requires
        v@.len() == 0,
    ensures
        v.deep_view() == Seq::<T::V>::empty(),
{
    assert(v.deep_view() =~= Seq::<T::V>::empty());
}

pub(crate) fn char7(input: &[u8], pos: usize, far: &mut usize) -> (r: Option<(usize, u8)>)
    requires
        pos <= input.len(),
    ensures
        ran(r, grammar::char7(input@, pos as int), input.len(), *old(far), *final(far)),
        r is Some ==> (r->0).0 == pos + 1,
{
    if pos < input.len() && 0x01 <= input[pos] && input[pos] <= 0x7f {
        Some((pos + 1, input[pos]))
    } else {
        mark(far, pos);
        None
    }
}

pub(crate) fn is_atom_special(b: u8) -> (r: bool)
    ensures
        r == grammar::is_atom_special(b),
{
    b == grammar::LPAREN || b == grammar::RPAREN || b == grammar::LBRACE || b == grammar::SP || b
        <= 0x1f || b == grammar::DEL || b == grammar::PERCENT || b == grammar::STAR || b
        == grammar::DQUOTE || b == grammar::BACKSLASH || b == grammar::RBRACKET
}

pub(crate) fn atom_char(input: &[u8], pos: usize, far: &mut usize) -> (r: Option<(usize, u8)>)
    requires
        pos <= input.len(),
    ensures
        ran(r, grammar::atom_char(input@, pos as int), input.len(), *old(far), *final(far)),
        r is Some ==> (r->0).0 == pos + 1,
{
    if pos < input.len() && is_atom_special(input[pos]) {
        None
    } else {
        char7(input, pos, far)
    }
}

pub(crate) fn atom(input: &[u8], pos: usize, far: &mut usize) -> (r: Option<usize>)
    requires
        pos <= input.len(),
    ensures
        passed(r, grammar::atom(input@, pos as int), input.len(), *old(far), *final(far)),
        r is Some ==> r->0 > pos,
{
    let mut cur = pos;
    let ghost mut acc = Seq::<u8>::empty();
    let ghost mut seen = 0nat;
    loop
        invariant_except_break
            grammar::atom_from(input@, pos as int, Seq::empty(), 0) == grammar::atom_from(
                input@,
                cur as int,
                acc,
                seen,
            ),
        invariant
            pos <= cur <= input.len(),
            *far as nat == max(*old(far) as nat, seen),
            (cur == pos) == (acc.len() == 0),
        ensures
            grammar::atom_from(input@, pos as int, Seq::empty(), 0) == (Parse {
                matched: Some((cur as int, acc)),
                far: seen,
            }),
        decreases input.len() - cur,
    {
        let ghost item = grammar::atom_char(input@, cur as int);
        match atom_char(input, cur, far) {
            Some((end, value)) => {
                proof {
                    acc = acc.push(value);
                    seen = max(seen, item.far);
                }
                cur = end;
            },
            None => {
                proof {
                    seen = max(seen, item.far);
                }
                break ;
            },
        }
    }
    if cur > pos {
        Some(cur)
    } else {
        None
    }
}

pub(crate) fn astring_char(input: &[u8], pos: usize, far: &mut usize) -> (r: Option<(usize, u8)>)
    requires
        pos <= input.len(),
    ensures
        ran(r, grammar::astring_char(input@, pos as int), input.len(), *old(far), *final(far)),
        r is Some ==> (r->0).0 == pos + 1,
{
    match atom_char(input, pos, far) {
        Some(r) => Some(r),
        None => match byte(input, pos, grammar::RBRACKET, far) {
            Some(end) => Some((end, grammar::RBRACKET)),
            None => None,
        },
    }
}

/// One or more ASTRING-CHAR; gives the end of the run.
pub(crate) fn astring_chars(input: &[u8], pos: usize, far: &mut usize) -> (r: Option<usize>)
    requires
        pos <= input.len(),
    ensures
        passed(
            r,
            grammar::plus(grammar::astring_from(input@, pos as int, Seq::empty(), 0)),
            input.len(),
            *old(far),
            *final(far),
        ),
        r is Some ==> r->0 > pos,
{
    let mut cur = pos;
    let ghost mut acc = Seq::<u8>::empty();
    let ghost mut seen = 0nat;
    loop
        invariant_except_break
            grammar::astring_from(input@, pos as int, Seq::empty(), 0) == grammar::astring_from(
                input@,
                cur as int,
                acc,
                seen,
            ),
        invariant
            pos <= cur <= input.len(),
            *far as nat == max(*old(far) as nat, seen),
            (cur == pos) == (acc.len() == 0),
        ensures
            grammar::astring_from(input@, pos as int, Seq::empty(), 0) == (Parse {
                matched: Some((cur as int, acc)),
                far: seen,
            }),
        decreases input.len() - cur,
    {
        let ghost item = grammar::astring_char(input@, cur as int);
        match astring_char(input, cur, far) {
            Some((end, value)) => {
                proof {
                    acc = acc.push(value);
                    seen = max(seen, item.far);
                }
                cur = end;
            },
            None => {
                proof {
                    seen = max(seen, item.far);
                }
                break ;
            },
        }
    }
    if cur > pos {
        Some(cur)
    } else {
        None
    }
}

pub(crate) fn tag_char(input: &[u8], pos: usize, far: &mut usize) -> (r: Option<(usize, u8)>)
    requires
        pos <= input.len(),
    ensures
        ran(r, grammar::tag_char(input@, pos as int), input.len(), *old(far), *final(far)),
        r is Some ==> (r->0).0 == pos + 1,
{
    if pos < input.len() && input[pos] == grammar::PLUS {
        None
    } else {
        astring_char(input, pos, far)
    }
}

pub(crate) fn tag(input: &[u8], pos: usize, far: &mut usize) -> (r: Option<(usize, Vec<u8>)>)
    requires
        pos <= input.len(),
    ensures
        ran(r, grammar::tag(input@, pos as int), input.len(), *old(far), *final(far)),
{
    let mut cur = pos;
    let ghost mut acc = Seq::<u8>::empty();
    let ghost mut seen = 0nat;
    loop
        invariant_except_break
            grammar::tag_from(input@, pos as int, Seq::empty(), 0) == grammar::tag_from(
                input@,
                cur as int,
                acc,
                seen,
            ),
        invariant
            pos <= cur <= input.len(),
            *far as nat == max(*old(far) as nat, seen),
            (cur == pos) == (acc.len() == 0),
        ensures
            grammar::tag_from(input@, pos as int, Seq::empty(), 0) == (Parse {
                matched: Some((cur as int, acc)),
                far: seen,
            }),
        decreases input.len() - cur,
    {
        let ghost item = grammar::tag_char(input@, cur as int);
        match tag_char(input, cur, far) {
            Some((end, value)) => {
                proof {
                    acc = acc.push(value);
                    seen = max(seen, item.far);
                }
                cur = end;
            },
            None => {
                proof {
                    seen = max(seen, item.far);
                }
                break ;
            },
        }
    }
    if cur > pos {
        Some((cur, copy(input, pos, cur)))
    } else {
        None
    }
}

/// One more digit: ten times the number, and the digit.
pub proof fn lemma_decimal_push(digits: Seq<u8>, d: u8)
    ensures
        grammar::decimal(digits.push(d)) == grammar::decimal(digits) * 10 + (d - grammar::ZERO) as nat,
{
    assert(digits.push(d).drop_last() =~= digits);
}

/// The digits from `pos` on, after the digits `init` that wrote `value`: the end of the run and
/// its value, or none where that does not fit.
fn digits(input: &[u8], pos: usize, far: &mut usize, Ghost(init): Ghost<Seq<u8>>, value: u64) -> (r:
    (usize, Option<u64>, Ghost<Seq<u8>>))
    requires
        pos <= input.len(),
        value == grammar::decimal(init),
    ensures
        pos <= r.0 <= input.len(),
        grammar::digits_from(input@, pos as int, init, 0) == (Parse {
            matched: Some((r.0 as int, r.2@)),
            far: r.0 as nat,
        }),
        *final(far) as nat == max(*old(far) as nat, r.0 as nat),
        r.2@.len() == init.len() + (r.0 - pos),
        match r.1 {
            Some(v) => v == grammar::decimal(r.2@),
            None => grammar::decimal(r.2@) > u64::MAX,
        },
{
    let mut cur = pos;
    let mut value = value;
    let mut over = false;
    let ghost mut acc = init;
    let ghost mut seen = 0nat;
    loop
        invariant_except_break
            grammar::digits_from(input@, pos as int, init, 0) == grammar::digits_from(
                input@,
                cur as int,
                acc,
                seen,
            ),
            *far == *old(far),
        invariant
            pos <= cur <= input.len(),
            seen <= cur,
            acc.len() == init.len() + (cur - pos),
            over ==> grammar::decimal(acc) > u64::MAX,
            !over ==> value == grammar::decimal(acc),
        ensures
            grammar::digits_from(input@, pos as int, init, 0) == (Parse {
                matched: Some((cur as int, acc)),
                far: cur as nat,
            }),
            *far as nat == max(*old(far) as nat, cur as nat),
        decreases input.len() - cur,
    {
        let ghost item = grammar::digit(input@, cur as int);
        if cur < input.len() && grammar::ZERO <= input[cur] && input[cur] <= grammar::NINE {
            let d: u64 = (input[cur] - grammar::ZERO) as u64;
            proof {
                assert(item.matched == Some((cur + 1, input@[cur as int])));
                seen = max(seen, item.far);
                lemma_decimal_push(acc, input@[cur as int]);
                acc = acc.push(input@[cur as int]);
            }
            if !over && value <= (u64::MAX - d) / 10 {
                value = value * 10 + d;
            } else {
                over = true;
            }
            cur = cur + 1;
        } else {
            mark(far, cur);
            proof {
                assert(item.matched is None && item.far == cur);
                seen = max(seen, cur as nat);
            }
            break ;
        }
    }
    if over {
        (cur, None, Ghost(acc))
    } else {
        (cur, Some(value), Ghost(acc))
    }
}

pub(crate) fn number(input: &[u8], pos: usize, far: &mut usize) -> (r: Option<(usize, u64)>)
    requires
        pos <= input.len(),
    ensures
        ran(r, grammar::number(input@, pos as int), input.len(), *old(far), *final(far)),
        r is Some ==> (r->0).0 > pos,
{
    let (end, value, _) = digits(input, pos, far, Ghost(Seq::empty()), 0);
    if end > pos {
        match value {
            Some(v) => Some((end, v)),
            None => None,
        }
    } else {
        None
    }
}

pub(crate) fn nz_number(input: &[u8], pos: usize, far: &mut usize) -> (r: Option<(usize, u64)>)
    requires
        pos <= input.len(),
    ensures
        ran(r, grammar::nz_number(input@, pos as int), input.len(), *old(far), *final(far)),
        r is Some ==> (r->0).0 > pos,
{
    if pos < input.len() && grammar::ZERO < input[pos] && input[pos] <= grammar::NINE {
        let d: u64 = (input[pos] - grammar::ZERO) as u64;
        let ghost first = Seq::<u8>::empty().push(input@[pos as int]);
        proof {
            lemma_decimal_push(Seq::empty(), input@[pos as int]);
            assert(first =~= seq![input@[pos as int]]);
        }
        let (end, value, _) = digits(input, pos + 1, far, Ghost(first), d);
        match value {
            Some(v) => Some((end, v)),
            None => None,
        }
    } else {
        mark(far, pos);
        None
    }
}

pub(crate) fn quoted_char(input: &[u8], pos: usize, far: &mut usize) -> (r: Option<(usize, u8)>)
    requires
        pos <= input.len(),
    ensures
        ran(r, grammar::quoted_char(input@, pos as int), input.len(), *old(far), *final(far)),
        r is Some ==> (r->0).0 > pos,
{
    let special = pos < input.len() && (input[pos] == grammar::DQUOTE || input[pos]
        == grammar::BACKSLASH);
    if !special {
        match text_char(input, pos, far) {
            Some(r) => {
                return Some(r);
            },
            None => {},
        }
    }
    let p = byte(input, pos, grammar::BACKSLASH, far)?;
    match byte(input, p, grammar::DQUOTE, far) {
        Some(end) => Some((end, grammar::DQUOTE)),
        None => match byte(input, p, grammar::BACKSLASH, far) {
            Some(end) => Some((end, grammar::BACKSLASH)),
            None => None,
        },
    }
}

pub(crate) fn quoted(input: &[u8], pos: usize, far: &mut usize) -> (r: Option<(usize, Vec<u8>)>)
    requires
        pos <= input.len(),
    ensures
        ran(r, grammar::quoted(input@, pos as int), input.len(), *old(far), *final(far)),
        r is Some ==> (r->0).0 > pos,
{
    let open = byte(input, pos, grammar::DQUOTE, far)?;
    let mut cur = open;
    let mut out: Vec<u8> = Vec::new();
    let ghost mut seen = 0nat;
    let ghost before = *far;
    loop
        invariant_except_break
            grammar::quoted_from(input@, open as int, Seq::empty(), 0) == grammar::quoted_from(
                input@,
                cur as int,
                out@,
                seen,
            ),
        invariant
            open <= cur <= input.len(),
            *far as nat == max(before as nat, seen),
        ensures
            grammar::quoted_from(input@, open as int, Seq::empty(), 0) == (Parse {
                matched: Some((cur as int, out@)),
                far: seen,
            }),
        decreases input.len() - cur,
    {
        let ghost item = grammar::quoted_char(input@, cur as int);
        match quoted_char(input, cur, far) {
            Some((end, value)) => {
                out.push(value);
                proof {
                    seen = max(seen, item.far);
                }
                cur = end;
            },
            None => {
                proof {
                    seen = max(seen, item.far);
                }
                break ;
            },
        }
    }
    let end = byte(input, cur, grammar::DQUOTE, far)?;
    proof {
        lemma_bytes_deep_view(out);
    }
    Some((end, out))
}

pub(crate) fn literal(input: &[u8], pos: usize, far: &mut usize) -> (r: Option<(usize, Vec<u8>)>)
    requires
        pos <= input.len(),
    ensures
        ran(r, grammar::literal(input@, pos as int), input.len(), *old(far), *final(far)),
        r is Some ==> (r->0).0 > pos,
{
    let p = byte(input, pos, grammar::LBRACE, far)?;
    let (p, n) = number(input, p, far)?;
    let p = byte(input, p, grammar::RBRACE, far)?;
    let p = crlf(input, p, far)?;
    if n <= (input.len() - p) as u64 {
        let end = p + n as usize;
        Some((end, copy(input, p, end)))
    } else {
        None
    }
}

pub(crate) fn string(input: &[u8], pos: usize, far: &mut usize) -> (r: Option<(usize, Vec<u8>)>)
    requires
        pos <= input.len(),
    ensures
        ran(r, grammar::string(input@, pos as int), input.len(), *old(far), *final(far)),
        r is Some ==> (r->0).0 > pos,
{
    match quoted(input, pos, far) {
        Some(r) => Some(r),
        None => literal(input, pos, far),
    }
}

pub(crate) fn astring(input: &[u8], pos: usize, far: &mut usize) -> (r: Option<(usize, Vec<u8>)>)
    requires
        pos <= input.len(),
    ensures
        ran(r, grammar::astring(input@, pos as int), input.len(), *old(far), *final(far)),
        r is Some ==> (r->0).0 > pos,
{
    match astring_chars(input, pos, far) {
        Some(end) => Some((end, copy(input, pos, end))),
        None => string(input, pos, far),
    }
}

pub(crate) fn nstring(input: &[u8], pos: usize, far: &mut usize) -> (r: Option<
    (usize, Option<Vec<u8>>),
>)
    requires
        pos <= input.len(),
    ensures
        ran(r, grammar::nstring(input@, pos as int), input.len(), *old(far), *final(far)),
{
    match string(input, pos, far) {
        Some((end, value)) => Some((end, Some(value))),
        None => match lit(input, pos, "NIL", far) {
            Some(end) => Some((end, None)),
            None => None,
        },
    }
}

pub(crate) fn capability(input: &[u8], pos: usize, far: &mut usize) -> (r: Option<
    (usize, Vec<u8>),
>)
    requires
        pos <= input.len(),
    ensures
        ran(r, grammar::capability(input@, pos as int), input.len(), *old(far), *final(far)),
        r is Some ==> (r->0).0 > pos,
{
    let first = match lit(input, pos, "AUTH=", far) {
        Some(p) => atom(input, p, far),
        None => None,
    };
    let end = match first {
        Some(end) => end,
        None => atom(input, pos, far)?,
    };
    Some((end, copy(input, pos, end)))
}

pub(crate) fn sp_capability(input: &[u8], pos: usize, far: &mut usize) -> (r: Option<
    (usize, Vec<u8>),
>)
    requires
        pos <= input.len(),
    ensures
        ran(r, grammar::sp_capability(input@, pos as int), input.len(), *old(far), *final(far)),
        r is Some ==> (r->0).0 > pos,
{
    let p = byte(input, pos, grammar::SP, far)?;
    capability(input, p, far)
}

/// Any number of capabilities, a space before each.
pub(crate) fn capabilities(input: &[u8], pos: usize, far: &mut usize) -> (r: (usize, Vec<Vec<u8>>))
    requires
        pos <= input.len(),
    ensures
        ran(
            Some(r),
            grammar::capabilities_from(input@, pos as int, Seq::empty(), 0),
            input.len(),
            *old(far),
            *final(far),
        ),
        (r.0 == pos) == (r.1@.len() == 0),
{
    let mut cur = pos;
    let mut out: Vec<Vec<u8>> = Vec::new();
    let ghost mut seen = 0nat;
    proof {
        lemma_empty_deep_view(out);
    }
    loop
        invariant_except_break
            grammar::capabilities_from(input@, pos as int, Seq::empty(), 0)
                == grammar::capabilities_from(input@, cur as int, out.deep_view(), seen),
        invariant
            pos <= cur <= input.len(),
            *far as nat == max(*old(far) as nat, seen),
            (cur == pos) == (out@.len() == 0),
        ensures
            grammar::capabilities_from(input@, pos as int, Seq::empty(), 0) == (Parse {
                matched: Some((cur as int, out.deep_view())),
                far: seen,
            }),
        decreases input.len() - cur,
    {
        let ghost item = grammar::sp_capability(input@, cur as int);
        match sp_capability(input, cur, far) {
            Some((end, value)) => {
                proof {
                    seen = max(seen, item.far);
                }
                if end <= cur {
                    break ;
                }
                proof {
                    lemma_push_deep_view(out@, out@.push(value), value);
                }
                out.push(value);
                cur = end;
            },
            None => {
                proof {
                    seen = max(seen, item.far);
                }
                break ;
            },
        }
    }
    (cur, out)
}

pub(crate) fn capability_data(input: &[u8], pos: usize, far: &mut usize) -> (r: Option<
    (usize, Vec<Vec<u8>>),
>)
    requires
        pos <= input.len(),
    ensures
        ran(r, grammar::capability_data(input@, pos as int), input.len(), *old(far), *final(far)),
{
    let p = lit(input, pos, "CAPABILITY", far)?;
    let (end, out) = capabilities(input, p, far);
    if out.len() >= 1 {
        Some((end, out))
    } else {
        None
    }
}


pub(crate) fn inbox(input: &[u8], pos: usize, far: &mut usize) -> (r: Option<usize>)
    requires
        pos <= input.len(),
    ensures
        passed(r, grammar::inbox(input@, pos as int), input.len(), *old(far), *final(far)),
{
    let p = letter(input, pos, 0x69, 0x49, far)?;
    let p = letter(input, p, 0x6e, 0x4e, far)?;
    let p = letter(input, p, 0x62, 0x42, far)?;
    let p = letter(input, p, 0x6f, 0x4f, far)?;
    letter(input, p, 0x78, 0x58, far)
}

pub(crate) fn mailbox(input: &[u8], pos: usize, far: &mut usize) -> (r: Option<(usize, Mailbox)>)
    requires
        pos <= input.len(),
    ensures
        ran(r, grammar::mailbox(input@, pos as int), input.len(), *old(far), *final(far)),
{
    match inbox(input, pos, far) {
        Some(end) => Some((end, Mailbox::Inbox)),
        None => match astring(input, pos, far) {
            Some((end, name)) => {
                proof {
                    lemma_bytes_deep_view(name);
                }
                Some((end, Mailbox::Other(name)))
            },
            None => None,
        },
    }
}

pub(crate) fn flag_extension(input: &[u8], pos: usize, far: &mut usize) -> (r: Option<(usize, Vec<u8>)>)
    requires
        pos <= input.len(),
    ensures
        ran(r, grammar::flag_extension(input@, pos as int), input.len(), *old(far), *final(far)),
        r is Some ==> (r->0).0 > pos,
{
    let p = byte(input, pos, grammar::BACKSLASH, far)?;
    let end = atom(input, p, far)?;
    Some((end, copy(input, pos, end)))
}

pub(crate) fn mbx_list_flags(input: &[u8], pos: usize, far: &mut usize) -> (r: (usize, Vec<Vec<u8>>))
    requires
        pos <= input.len(),
    ensures
        ran(
            Some(r),
            grammar::mbx_list_flags_from(input@, pos as int, Seq::empty(), 0),
            input.len(),
            *old(far),
            *final(far),
        ),
{
    let mut cur = pos;
    let mut out: Vec<Vec<u8>> = Vec::new();
    let ghost mut seen = 0nat;
    proof {
        lemma_empty_deep_view(out);
    }
    loop
        invariant_except_break
            grammar::mbx_list_flags_from(input@, pos as int, Seq::empty(), 0) == grammar::mbx_list_flags_from(
                input@,
                cur as int,
                out.deep_view(),
                seen,
            ),
        invariant
            pos <= cur <= input.len(),
            *far as nat == max(*old(far) as nat, seen),
        ensures
            grammar::mbx_list_flags_from(input@, pos as int, Seq::empty(), 0) == (Parse {
                matched: Some((cur as int, out.deep_view())),
                far: seen,
            }),
        decreases input.len() - cur,
    {
        let mut at = cur;
        if out.len() > 0 {
            let ghost q = grammar::byte(input@, cur as int, grammar::SP);
            match byte(input, cur, grammar::SP, far) {
                Some(p) => {
                    at = p;
                },
                None => {
                    proof {
                        seen = max(seen, q.far);
                    }
                    break ;
                },
            }
            proof {
                seen = max(seen, q.far);
            }
        }
        let ghost item = grammar::flag_extension(input@, at as int);
        match flag_extension(input, at, far) {
            Some((end, value)) => {
                proof {
                    seen = max(seen, item.far);
                }
                if end <= cur {
                    break ;
                }
                proof {
                    lemma_push_deep_view(out@, out@.push(value), value);
                }
                out.push(value);
                cur = end;
            },
            None => {
                proof {
                    seen = max(seen, item.far);
                }
                break ;
            },
        }
    }
    (cur, out)
}

pub(crate) fn quoted_one(input: &[u8], pos: usize, far: &mut usize) -> (r: Option<(usize, u8)>)
    requires
        pos <= input.len(),
    ensures
        ran(r, grammar::quoted_one(input@, pos as int), input.len(), *old(far), *final(far)),
{
    let p = byte(input, pos, grammar::DQUOTE, far)?;
    let (p, c) = quoted_char(input, p, far)?;
    let end = byte(input, p, grammar::DQUOTE, far)?;
    Some((end, c))
}

pub(crate) fn separator(input: &[u8], pos: usize, far: &mut usize) -> (r: Option<(usize, Option<u8>)>)
    requires
        pos <= input.len(),
    ensures
        ran(r, grammar::separator(input@, pos as int), input.len(), *old(far), *final(far)),
{
    match quoted_one(input, pos, far) {
        Some((end, c)) => Some((end, Some(c))),
        None => match lit(input, pos, "NIL", far) {
            Some(end) => Some((end, None)),
            None => None,
        },
    }
}

pub(crate) fn mailbox_list(input: &[u8], pos: usize, far: &mut usize) -> (r: Option<(usize, (Vec<Vec<u8>>, Option<u8>, Mailbox))>)
    requires
        pos <= input.len(),
    ensures
        ran(r, grammar::mailbox_list(input@, pos as int), input.len(), *old(far), *final(far)),
{
    let p = byte(input, pos, grammar::LPAREN, far)?;
    let (p, flags) = mbx_list_flags(input, p, far);
    let p = byte(input, p, grammar::RPAREN, far)?;
    let p = byte(input, p, grammar::SP, far)?;
    let (p, separator) = separator(input, p, far)?;
    let p = byte(input, p, grammar::SP, far)?;
    let (end, mailbox) = mailbox(input, p, far)?;
    Some((end, (flags, separator, mailbox)))
}

pub(crate) fn flag(input: &[u8], pos: usize, far: &mut usize) -> (r: Option<(usize, Vec<u8>)>)
    requires
        pos <= input.len(),
    ensures
        ran(r, grammar::flag(input@, pos as int), input.len(), *old(far), *final(far)),
        r is Some ==> (r->0).0 > pos,
{
    match atom(input, pos, far) {
        Some(end) => Some((end, copy(input, pos, end))),
        None => flag_extension(input, pos, far),
    }
}

pub(crate) fn flag_perm(input: &[u8], pos: usize, far: &mut usize) -> (r: Option<(usize, Vec<u8>)>)
    requires
        pos <= input.len(),
    ensures
        ran(r, grammar::flag_perm(input@, pos as int), input.len(), *old(far), *final(far)),
{
    match flag(input, pos, far) {
        Some(r) => Some(r),
        None => match lit(input, pos, "\\*", far) {
            Some(end) => Some((end, copy(input, pos, end))),
            None => None,
        },
    }
}

pub(crate) fn flags(input: &[u8], pos: usize, far: &mut usize) -> (r: (usize, Vec<Vec<u8>>))
    requires
        pos <= input.len(),
    ensures
        ran(
            Some(r),
            grammar::flags_from(input@, pos as int, Seq::empty(), 0),
            input.len(),
            *old(far),
            *final(far),
        ),
{
    let mut cur = pos;
    let mut out: Vec<Vec<u8>> = Vec::new();
    let ghost mut seen = 0nat;
    proof {
        lemma_empty_deep_view(out);
    }
    loop
        invariant_except_break
            grammar::flags_from(input@, pos as int, Seq::empty(), 0) == grammar::flags_from(
                input@,
                cur as int,
                out.deep_view(),
                seen,
            ),
        invariant
            pos <= cur <= input.len(),
            *far as nat == max(*old(far) as nat, seen),
        ensures
            grammar::flags_from(input@, pos as int, Seq::empty(), 0) == (Parse {
                matched: Some((cur as int, out.deep_view())),
                far: seen,
            }),
        decreases input.len() - cur,
    {
        let mut at = cur;
        if out.len() > 0 {
            let ghost q = grammar::byte(input@, cur as int, grammar::SP);
            match byte(input, cur, grammar::SP, far) {
                Some(p) => {
                    at = p;
                },
                None => {
                    proof {
                        seen = max(seen, q.far);
                    }
                    break ;
                },
            }
            proof {
                seen = max(seen, q.far);
            }
        }
        let ghost item = grammar::flag(input@, at as int);
        match flag(input, at, far) {
            Some((end, value)) => {
                proof {
                    seen = max(seen, item.far);
                }
                if end <= cur {
                    break ;
                }
                proof {
                    lemma_push_deep_view(out@, out@.push(value), value);
                }
                out.push(value);
                cur = end;
            },
            None => {
                proof {
                    seen = max(seen, item.far);
                }
                break ;
            },
        }
    }
    (cur, out)
}

pub(crate) fn flags_perm(input: &[u8], pos: usize, far: &mut usize) -> (r: (usize, Vec<Vec<u8>>))
    requires
        pos <= input.len(),
    ensures
        ran(
            Some(r),
            grammar::flags_perm_from(input@, pos as int, Seq::empty(), 0),
            input.len(),
            *old(far),
            *final(far),
        ),
{
    let mut cur = pos;
    let mut out: Vec<Vec<u8>> = Vec::new();
    let ghost mut seen = 0nat;
    proof {
        lemma_empty_deep_view(out);
    }
    loop
        invariant_except_break
            grammar::flags_perm_from(input@, pos as int, Seq::empty(), 0) == grammar::flags_perm_from(
                input@,
                cur as int,
                out.deep_view(),
                seen,
            ),
        invariant
            pos <= cur <= input.len(),
            *far as nat == max(*old(far) as nat, seen),
        ensures
            grammar::flags_perm_from(input@, pos as int, Seq::empty(), 0) == (Parse {
                matched: Some((cur as int, out.deep_view())),
                far: seen,
            }),
        decreases input.len() - cur,
    {
        let mut at = cur;
        if out.len() > 0 {
            let ghost q = grammar::byte(input@, cur as int, grammar::SP);
            match byte(input, cur, grammar::SP, far) {
                Some(p) => {
                    at = p;
                },
                None => {
                    proof {
                        seen = max(seen, q.far);
                    }
                    break ;
                },
            }
            proof {
                seen = max(seen, q.far);
            }
        }
        let ghost item = grammar::flag_perm(input@, at as int);
        match flag_perm(input, at, far) {
            Some((end, value)) => {
                proof {
                    seen = max(seen, item.far);
                }
                if end <= cur {
                    break ;
                }
                proof {
                    lemma_push_deep_view(out@, out@.push(value), value);
                }
                out.push(value);
                cur = end;
            },
            None => {
                proof {
                    seen = max(seen, item.far);
                }
                break ;
            },
        }
    }
    (cur, out)
}

pub(crate) fn msg_att_uid(input: &[u8], pos: usize, far: &mut usize) -> (r: Option<(usize, u64)>)
    requires
        pos <= input.len(),
    ensures
        ran(r, grammar::msg_att_uid(input@, pos as int), input.len(), *old(far), *final(far)),
{
    let p = lit(input, pos, "UID", far)?;
    let p = byte(input, p, grammar::SP, far)?;
    nz_number(input, p, far)
}

pub(crate) fn msg_att_flags(input: &[u8], pos: usize, far: &mut usize) -> (r: Option<(usize, Vec<Vec<u8>>)>)
    requires
        pos <= input.len(),
    ensures
        ran(r, grammar::msg_att_flags(input@, pos as int), input.len(), *old(far), *final(far)),
{
    let p = lit(input, pos, "FLAGS", far)?;
    let p = byte(input, p, grammar::SP, far)?;
    let p = byte(input, p, grammar::LPAREN, far)?;
    let (p, flags) = flags(input, p, far);
    let end = byte(input, p, grammar::RPAREN, far)?;
    Some((end, flags))
}

pub(crate) fn msg_att_modseq(input: &[u8], pos: usize, far: &mut usize) -> (r: Option<(usize, u64)>)
    requires
        pos <= input.len(),
    ensures
        ran(r, grammar::msg_att_modseq(input@, pos as int), input.len(), *old(far), *final(far)),
{
    let p = lit(input, pos, "MODSEQ", far)?;
    let p = byte(input, p, grammar::SP, far)?;
    let p = byte(input, p, grammar::LPAREN, far)?;
    let (p, modseq) = number(input, p, far)?;
    let end = byte(input, p, grammar::RPAREN, far)?;
    Some((end, modseq))
}

pub(crate) fn span(first: Range, second: Range) -> (r: Range)
    ensures
        r == grammar::span(first, second),
{
    let from = if first.0 == 0 {
        second.0
    } else if second.0 == 0 || first.0 <= second.0 {
        first.0
    } else {
        second.0
    };
    let to = if first.1 <= second.1 {
        second.1
    } else {
        first.1
    };
    Range(from, to)
}

pub(crate) fn seq_number(input: &[u8], pos: usize, far: &mut usize) -> (r: Option<(usize, Range)>)
    requires
        pos <= input.len(),
    ensures
        ran(r, grammar::seq_number(input@, pos as int), input.len(), *old(far), *final(far)),
        r is Some ==> (r->0).0 > pos,
{
    match nz_number(input, pos, far) {
        Some((end, n)) => Some((end, Range(n, n))),
        None => match byte(input, pos, grammar::STAR, far) {
            Some(end) => Some((end, Range(0, u64::MAX))),
            None => None,
        },
    }
}

pub(crate) fn seq_range(input: &[u8], pos: usize, far: &mut usize) -> (r: Option<(usize, Range)>)
    requires
        pos <= input.len(),
    ensures
        ran(r, grammar::seq_range(input@, pos as int), input.len(), *old(far), *final(far)),
        r is Some ==> (r->0).0 > pos,
{
    let (p, first) = seq_number(input, pos, far)?;
    let p = byte(input, p, grammar::COLON, far)?;
    let (end, second) = seq_number(input, p, far)?;
    Some((end, span(first, second)))
}

pub(crate) fn seq_member(input: &[u8], pos: usize, far: &mut usize) -> (r: Option<(usize, Range)>)
    requires
        pos <= input.len(),
    ensures
        ran(r, grammar::seq_member(input@, pos as int), input.len(), *old(far), *final(far)),
        r is Some ==> (r->0).0 > pos,
{
    match seq_range(input, pos, far) {
        Some(r) => Some(r),
        None => seq_number(input, pos, far),
    }
}

pub(crate) fn sequence_set(input: &[u8], pos: usize, far: &mut usize) -> (r: (usize, Vec<Range>))
    requires
        pos <= input.len(),
    ensures
        ran(
            Some(r),
            grammar::sequence_set_from(input@, pos as int, Seq::empty(), 0),
            input.len(),
            *old(far),
            *final(far),
        ),
{
    let mut cur = pos;
    let mut out: Vec<Range> = Vec::new();
    let ghost mut seen = 0nat;
    proof {
        lemma_empty_deep_view(out);
    }
    loop
        invariant_except_break
            grammar::sequence_set_from(input@, pos as int, Seq::empty(), 0) == grammar::sequence_set_from(
                input@,
                cur as int,
                out.deep_view(),
                seen,
            ),
        invariant
            pos <= cur <= input.len(),
            *far as nat == max(*old(far) as nat, seen),
        ensures
            grammar::sequence_set_from(input@, pos as int, Seq::empty(), 0) == (Parse {
                matched: Some((cur as int, out.deep_view())),
                far: seen,
            }),
        decreases input.len() - cur,
    {
        let mut at = cur;
        if out.len() > 0 {
            let ghost q = grammar::byte(input@, cur as int, grammar::COMMA);
            match byte(input, cur, grammar::COMMA, far) {
                Some(p) => {
                    at = p;
                },
                None => {
                    proof {
                        seen = max(seen, q.far);
                    }
                    break ;
                },
            }
            proof {
                seen = max(seen, q.far);
            }
        }
        let ghost item = grammar::seq_member(input@, at as int);
        match seq_member(input, at, far) {
            Some((end, value)) => {
                proof {
                    seen = max(seen, item.far);
                }
                if end <= cur {
                    break ;
                }
                proof {
                    lemma_push_deep_view(out@, out@.push(value), value);
                }
                out.push(value);
                cur = end;
            },
            None => {
                proof {
                    seen = max(seen, item.far);
                }
                break ;
            },
        }
    }
    (cur, out)
}

pub(crate) fn uid_range(input: &[u8], pos: usize, far: &mut usize) -> (r: Option<(usize, Range)>)
    requires
        pos <= input.len(),
    ensures
        ran(r, grammar::uid_range(input@, pos as int), input.len(), *old(far), *final(far)),
        r is Some ==> (r->0).0 > pos,
{
    let (p, first) = nz_number(input, pos, far)?;
    let p = byte(input, p, grammar::COLON, far)?;
    let (end, second) = nz_number(input, p, far)?;
    Some((end, span(Range(first, first), Range(second, second))))
}

pub(crate) fn uid_member(input: &[u8], pos: usize, far: &mut usize) -> (r: Option<(usize, Range)>)
    requires
        pos <= input.len(),
    ensures
        ran(r, grammar::uid_member(input@, pos as int), input.len(), *old(far), *final(far)),
        r is Some ==> (r->0).0 > pos,
{
    match uid_range(input, pos, far) {
        Some(r) => Some(r),
        None => match nz_number(input, pos, far) {
            Some((end, n)) => Some((end, Range(n, n))),
            None => None,
        },
    }
}

pub(crate) fn uid_set(input: &[u8], pos: usize, far: &mut usize) -> (r: (usize, Vec<Range>))
    requires
        pos <= input.len(),
    ensures
        ran(
            Some(r),
            grammar::uid_set_from(input@, pos as int, Seq::empty(), 0),
            input.len(),
            *old(far),
            *final(far),
        ),
{
    let mut cur = pos;
    let mut out: Vec<Range> = Vec::new();
    let ghost mut seen = 0nat;
    proof {
        lemma_empty_deep_view(out);
    }
    loop
        invariant_except_break
            grammar::uid_set_from(input@, pos as int, Seq::empty(), 0) == grammar::uid_set_from(
                input@,
                cur as int,
                out.deep_view(),
                seen,
            ),
        invariant
            pos <= cur <= input.len(),
            *far as nat == max(*old(far) as nat, seen),
        ensures
            grammar::uid_set_from(input@, pos as int, Seq::empty(), 0) == (Parse {
                matched: Some((cur as int, out.deep_view())),
                far: seen,
            }),
        decreases input.len() - cur,
    {
        let mut at = cur;
        if out.len() > 0 {
            let ghost q = grammar::byte(input@, cur as int, grammar::COMMA);
            match byte(input, cur, grammar::COMMA, far) {
                Some(p) => {
                    at = p;
                },
                None => {
                    proof {
                        seen = max(seen, q.far);
                    }
                    break ;
                },
            }
            proof {
                seen = max(seen, q.far);
            }
        }
        let ghost item = grammar::uid_member(input@, at as int);
        match uid_member(input, at, far) {
            Some((end, value)) => {
                proof {
                    seen = max(seen, item.far);
                }
                if end <= cur {
                    break ;
                }
                proof {
                    lemma_push_deep_view(out@, out@.push(value), value);
                }
                out.push(value);
                cur = end;
            },
            None => {
                proof {
                    seen = max(seen, item.far);
                }
                break ;
            },
        }
    }
    (cur, out)
}

pub(crate) fn code_permanentflags(input: &[u8], pos: usize, far: &mut usize) -> (r: Option<(usize, Vec<Vec<u8>>)>)
    requires
        pos <= input.len(),
    ensures
        ran(r, grammar::code_permanentflags(input@, pos as int), input.len(), *old(far), *final(far)),
{
    let p = lit(input, pos, "PERMANENTFLAGS", far)?;
    let p = byte(input, p, grammar::SP, far)?;
    let p = byte(input, p, grammar::LPAREN, far)?;
    let (p, flags) = flags_perm(input, p, far);
    let end = byte(input, p, grammar::RPAREN, far)?;
    Some((end, flags))
}

pub(crate) fn code_uidvalidity(input: &[u8], pos: usize, far: &mut usize) -> (r: Option<(usize, u64)>)
    requires
        pos <= input.len(),
    ensures
        ran(r, grammar::code_uidvalidity(input@, pos as int), input.len(), *old(far), *final(far)),
{
    let p = lit(input, pos, "UIDVALIDITY", far)?;
    let p = byte(input, p, grammar::SP, far)?;
    nz_number(input, p, far)
}

pub(crate) fn code_highestmodseq(input: &[u8], pos: usize, far: &mut usize) -> (r: Option<(usize, u64)>)
    requires
        pos <= input.len(),
    ensures
        ran(r, grammar::code_highestmodseq(input@, pos as int), input.len(), *old(far), *final(far)),
{
    let p = lit(input, pos, "HIGHESTMODSEQ", far)?;
    let p = byte(input, p, grammar::SP, far)?;
    number(input, p, far)
}

pub(crate) fn code_appenduid(input: &[u8], pos: usize, far: &mut usize) -> (r: Option<(usize, Append)>)
    requires
        pos <= input.len(),
    ensures
        ran(r, grammar::code_appenduid(input@, pos as int), input.len(), *old(far), *final(far)),
{
    let p = lit(input, pos, "APPENDUID", far)?;
    let p = byte(input, p, grammar::SP, far)?;
    let (p, uidvalidity) = nz_number(input, p, far)?;
    let p = byte(input, p, grammar::SP, far)?;
    let (end, uid) = nz_number(input, p, far)?;
    Some((end, Append { uidvalidity, uid }))
}

pub(crate) fn code_modified(input: &[u8], pos: usize, far: &mut usize) -> (r: Option<(usize, Vec<Range>)>)
    requires
        pos <= input.len(),
    ensures
        ran(r, grammar::code_modified(input@, pos as int), input.len(), *old(far), *final(far)),
{
    let p = lit(input, pos, "MODIFIED", far)?;
    let p = byte(input, p, grammar::SP, far)?;
    Some(sequence_set(input, p, far))
}

pub(crate) fn code_copyuid(input: &[u8], pos: usize, far: &mut usize) -> (r: Option<(usize, Move)>)
    requires
        pos <= input.len(),
    ensures
        ran(r, grammar::code_copyuid(input@, pos as int), input.len(), *old(far), *final(far)),
{
    let p = lit(input, pos, "COPYUID", far)?;
    let p = byte(input, p, grammar::SP, far)?;
    let (p, uidvalidity) = nz_number(input, p, far)?;
    let p = byte(input, p, grammar::SP, far)?;
    let (p, from) = uid_set(input, p, far);
    let p = byte(input, p, grammar::SP, far)?;
    let (end, to) = uid_set(input, p, far);
    proof {
        lemma_ranges_deep_view(from);
        lemma_ranges_deep_view(to);
    }
    Some((end, Move { uidvalidity, from, to }))
}

pub(crate) fn ok_sp(input: &[u8], pos: usize, far: &mut usize) -> (r: Option<usize>)
    requires
        pos <= input.len(),
    ensures
        passed(r, grammar::ok_sp(input@, pos as int), input.len(), *old(far), *final(far)),
{
    let p = lit(input, pos, "OK", far)?;
    byte(input, p, grammar::SP, far)
}

pub(crate) fn ok_code(input: &[u8], pos: usize, far: &mut usize) -> (r: Option<usize>)
    requires
        pos <= input.len(),
    ensures
        passed(r, grammar::ok_code(input@, pos as int), input.len(), *old(far), *final(far)),
{
    let p = lit(input, pos, "OK", far)?;
    let p = byte(input, p, grammar::SP, far)?;
    byte(input, p, grammar::LBRACKET, far)
}

pub(crate) fn code_close(input: &[u8], pos: usize, far: &mut usize) -> (r: Option<usize>)
    requires
        pos <= input.len(),
    ensures
        passed(r, grammar::code_close(input@, pos as int), input.len(), *old(far), *final(far)),
{
    let p = byte(input, pos, grammar::RBRACKET, far)?;
    byte(input, p, grammar::SP, far)
}

pub(crate) fn code_end(input: &[u8], pos: usize, far: &mut usize) -> (r: Option<usize>)
    requires
        pos <= input.len(),
    ensures
        passed(r, grammar::code_end(input@, pos as int), input.len(), *old(far), *final(far)),
{
    let p = byte(input, pos, grammar::RBRACKET, far)?;
    let p = byte(input, p, grammar::SP, far)?;
    let p = text(input, p, far)?;
    crlf(input, p, far)
}

pub(crate) fn fetch_head(input: &[u8], pos: usize, far: &mut usize) -> (r: Option<usize>)
    requires
        pos <= input.len(),
    ensures
        passed(r, grammar::fetch_head(input@, pos as int), input.len(), *old(far), *final(far)),
{
    let (p, _) = nz_number(input, pos, far)?;
    let p = byte(input, p, grammar::SP, far)?;
    let p = lit(input, p, "FETCH", far)?;
    let p = byte(input, p, grammar::SP, far)?;
    byte(input, p, grammar::LPAREN, far)
}

pub(crate) fn star_or_tag(input: &[u8], pos: usize, far: &mut usize) -> (r: Option<(usize, Vec<u8>)>)
    requires
        pos <= input.len(),
    ensures
        ran(r, grammar::star_or_tag(input@, pos as int), input.len(), *old(far), *final(far)),
{
    match byte(input, pos, grammar::STAR, far) {
        Some(end) => Some((end, copy(input, pos, end))),
        None => tag(input, pos, far),
    }
}

pub(crate) fn select_code(input: &[u8], pos: usize, far: &mut usize) -> (r: Option<(usize, Select)>)
    requires
        pos <= input.len(),
    ensures
        ran(r, grammar::select_code(input@, pos as int), input.len(), *old(far), *final(far)),
{
    match code_permanentflags(input, pos, far) {
        Some((end, flags)) => Some((end, Select::Flags(flags))),
        None => match code_uidvalidity(input, pos, far) {
            Some((end, n)) => Some((end, Select::UIDValidity(n))),
            None => match code_highestmodseq(input, pos, far) {
                Some((end, n)) => Some((end, Select::HighestModSeq(n))),
                None => None,
            },
        },
    }
}

pub(crate) fn select_ok(input: &[u8], pos: usize, far: &mut usize) -> (r: Option<(usize, Select)>)
    requires
        pos <= input.len(),
    ensures
        ran(r, grammar::select_ok(input@, pos as int), input.len(), *old(far), *final(far)),
{
    let p = ok_code(input, pos, far)?;
    let (p, value) = select_code(input, p, far)?;
    let p = code_close(input, p, far)?;
    let end = text(input, p, far)?;
    Some((end, value))
}

pub(crate) fn select_vanished(input: &[u8], pos: usize, far: &mut usize) -> (r: Option<(usize, Select)>)
    requires
        pos <= input.len(),
    ensures
        ran(r, grammar::select_vanished(input@, pos as int), input.len(), *old(far), *final(far)),
{
    let p = lit(input, pos, "VANISHED", far)?;
    let p = byte(input, p, grammar::SP, far)?;
    let p = lit(input, p, "(EARLIER)", far)?;
    let p = byte(input, p, grammar::SP, far)?;
    let (end, uids) = sequence_set(input, p, far);
    proof {
        lemma_ranges_deep_view(uids);
    }
    Some((end, Select::Vanished(uids)))
}

pub(crate) fn uid_flags_modseq(input: &[u8], pos: usize, far: &mut usize) -> (r: Option<(usize, SelectFetch)>)
    requires
        pos <= input.len(),
    ensures
        ran(r, grammar::uid_flags_modseq(input@, pos as int), input.len(), *old(far), *final(far)),
{
    let (p, uid) = msg_att_uid(input, pos, far)?;
    let p = byte(input, p, grammar::SP, far)?;
    let (p, flags) = msg_att_flags(input, p, far)?;
    let p = byte(input, p, grammar::SP, far)?;
    let (end, modseq) = msg_att_modseq(input, p, far)?;
    Some((end, SelectFetch { uid, flags, modseq }))
}

pub(crate) fn uid_modseq_flags(input: &[u8], pos: usize, far: &mut usize) -> (r: Option<(usize, SelectFetch)>)
    requires
        pos <= input.len(),
    ensures
        ran(r, grammar::uid_modseq_flags(input@, pos as int), input.len(), *old(far), *final(far)),
{
    let (p, uid) = msg_att_uid(input, pos, far)?;
    let p = byte(input, p, grammar::SP, far)?;
    let (p, modseq) = msg_att_modseq(input, p, far)?;
    let p = byte(input, p, grammar::SP, far)?;
    let (end, flags) = msg_att_flags(input, p, far)?;
    Some((end, SelectFetch { uid, flags, modseq }))
}

pub(crate) fn flags_uid_modseq(input: &[u8], pos: usize, far: &mut usize) -> (r: Option<(usize, SelectFetch)>)
    requires
        pos <= input.len(),
    ensures
        ran(r, grammar::flags_uid_modseq(input@, pos as int), input.len(), *old(far), *final(far)),
{
    let (p, flags) = msg_att_flags(input, pos, far)?;
    let p = byte(input, p, grammar::SP, far)?;
    let (p, uid) = msg_att_uid(input, p, far)?;
    let p = byte(input, p, grammar::SP, far)?;
    let (end, modseq) = msg_att_modseq(input, p, far)?;
    Some((end, SelectFetch { uid, flags, modseq }))
}

pub(crate) fn flags_modseq_uid(input: &[u8], pos: usize, far: &mut usize) -> (r: Option<(usize, SelectFetch)>)
    requires
        pos <= input.len(),
    ensures
        ran(r, grammar::flags_modseq_uid(input@, pos as int), input.len(), *old(far), *final(far)),
{
    let (p, flags) = msg_att_flags(input, pos, far)?;
    let p = byte(input, p, grammar::SP, far)?;
    let (p, modseq) = msg_att_modseq(input, p, far)?;
    let p = byte(input, p, grammar::SP, far)?;
    let (end, uid) = msg_att_uid(input, p, far)?;
    Some((end, SelectFetch { uid, flags, modseq }))
}

pub(crate) fn modseq_uid_flags(input: &[u8], pos: usize, far: &mut usize) -> (r: Option<(usize, SelectFetch)>)
    requires
        pos <= input.len(),
    ensures
        ran(r, grammar::modseq_uid_flags(input@, pos as int), input.len(), *old(far), *final(far)),
{
    let (p, modseq) = msg_att_modseq(input, pos, far)?;
    let p = byte(input, p, grammar::SP, far)?;
    let (p, uid) = msg_att_uid(input, p, far)?;
    let p = byte(input, p, grammar::SP, far)?;
    let (end, flags) = msg_att_flags(input, p, far)?;
    Some((end, SelectFetch { uid, flags, modseq }))
}

pub(crate) fn modseq_flags_uid(input: &[u8], pos: usize, far: &mut usize) -> (r: Option<(usize, SelectFetch)>)
    requires
        pos <= input.len(),
    ensures
        ran(r, grammar::modseq_flags_uid(input@, pos as int), input.len(), *old(far), *final(far)),
{
    let (p, modseq) = msg_att_modseq(input, pos, far)?;
    let p = byte(input, p, grammar::SP, far)?;
    let (p, flags) = msg_att_flags(input, p, far)?;
    let p = byte(input, p, grammar::SP, far)?;
    let (end, uid) = msg_att_uid(input, p, far)?;
    Some((end, SelectFetch { uid, flags, modseq }))
}

pub(crate) fn select_attributes(input: &[u8], pos: usize, far: &mut usize) -> (r: Option<(usize, SelectFetch)>)
    requires
        pos <= input.len(),
    ensures
        ran(r, grammar::select_attributes(input@, pos as int), input.len(), *old(far), *final(far)),
{
    match uid_flags_modseq(input, pos, far) {
        Some(r) => Some(r),
        None => match uid_modseq_flags(input, pos, far) {
            Some(r) => Some(r),
            None => match flags_uid_modseq(input, pos, far) {
                Some(r) => Some(r),
                None => match flags_modseq_uid(input, pos, far) {
                    Some(r) => Some(r),
                    None => match modseq_uid_flags(input, pos, far) {
                        Some(r) => Some(r),
                        None => modseq_flags_uid(input, pos, far),
                    },
                },
            },
        },
    }
}

#[verifier::rlimit(40)]
pub(crate) fn select_fetch(input: &[u8], pos: usize, far: &mut usize) -> (r: Option<(usize, Select)>)
    requires
        pos <= input.len(),
    ensures
        ran(r, grammar::select_fetch(input@, pos as int), input.len(), *old(far), *final(far)),
{
    let p = fetch_head(input, pos, far)?;
    let (p, fetch) = select_attributes(input, p, far)?;
    let end = byte(input, p, grammar::RPAREN, far)?;
    Some((end, Select::Fetch(fetch)))
}

pub(crate) fn select_item(input: &[u8], pos: usize, far: &mut usize) -> (r: Option<(usize, Select)>)
    requires
        pos <= input.len(),
    ensures
        ran(r, grammar::select_item(input@, pos as int), input.len(), *old(far), *final(far)),
{
    match select_ok(input, pos, far) {
        Some(r) => Some(r),
        None => match select_vanished(input, pos, far) {
            Some(r) => Some(r),
            None => select_fetch(input, pos, far),
        },
    }
}

pub(crate) fn uid_size(input: &[u8], pos: usize, far: &mut usize) -> (r: Option<(usize, (u64, u64))>)
    requires
        pos <= input.len(),
    ensures
        ran(r, grammar::uid_size(input@, pos as int), input.len(), *old(far), *final(far)),
{
    let (p, uid) = msg_att_uid(input, pos, far)?;
    let p = byte(input, p, grammar::SP, far)?;
    let p = lit(input, p, "RFC822.SIZE", far)?;
    let p = byte(input, p, grammar::SP, far)?;
    let (end, size) = number(input, p, far)?;
    Some((end, (uid, size)))
}

pub(crate) fn size_uid(input: &[u8], pos: usize, far: &mut usize) -> (r: Option<(usize, (u64, u64))>)
    requires
        pos <= input.len(),
    ensures
        ran(r, grammar::size_uid(input@, pos as int), input.len(), *old(far), *final(far)),
{
    let p = lit(input, pos, "RFC822.SIZE", far)?;
    let p = byte(input, p, grammar::SP, far)?;
    let (p, size) = number(input, p, far)?;
    let p = byte(input, p, grammar::SP, far)?;
    let (end, uid) = msg_att_uid(input, p, far)?;
    Some((end, (uid, size)))
}

pub(crate) fn size_attributes(input: &[u8], pos: usize, far: &mut usize) -> (r: Option<(usize, (u64, u64))>)
    requires
        pos <= input.len(),
    ensures
        ran(r, grammar::size_attributes(input@, pos as int), input.len(), *old(far), *final(far)),
{
    match uid_size(input, pos, far) {
        Some(r) => Some(r),
        None => size_uid(input, pos, far),
    }
}

pub(crate) fn uid_body(input: &[u8], pos: usize, far: &mut usize) -> (r: Option<(usize, (u64, Option<Vec<u8>>))>)
    requires
        pos <= input.len(),
    ensures
        ran(r, grammar::uid_body(input@, pos as int), input.len(), *old(far), *final(far)),
{
    let (p, uid) = msg_att_uid(input, pos, far)?;
    let p = byte(input, p, grammar::SP, far)?;
    let p = lit(input, p, "BODY[]", far)?;
    let p = byte(input, p, grammar::SP, far)?;
    let (end, body) = nstring(input, p, far)?;
    Some((end, (uid, body)))
}

pub(crate) fn body_uid(input: &[u8], pos: usize, far: &mut usize) -> (r: Option<(usize, (u64, Option<Vec<u8>>))>)
    requires
        pos <= input.len(),
    ensures
        ran(r, grammar::body_uid(input@, pos as int), input.len(), *old(far), *final(far)),
{
    let p = lit(input, pos, "BODY[]", far)?;
    let p = byte(input, p, grammar::SP, far)?;
    let (p, body) = nstring(input, p, far)?;
    let p = byte(input, p, grammar::SP, far)?;
    let (end, uid) = msg_att_uid(input, p, far)?;
    Some((end, (uid, body)))
}

pub(crate) fn body_attributes(input: &[u8], pos: usize, far: &mut usize) -> (r: Option<(usize, (u64, Option<Vec<u8>>))>)
    requires
        pos <= input.len(),
    ensures
        ran(r, grammar::body_attributes(input@, pos as int), input.len(), *old(far), *final(far)),
{
    match uid_body(input, pos, far) {
        Some(r) => Some(r),
        None => body_uid(input, pos, far),
    }
}

pub(crate) fn uid_modseq(input: &[u8], pos: usize, far: &mut usize) -> (r: Option<(usize, Store)>)
    requires
        pos <= input.len(),
    ensures
        ran(r, grammar::uid_modseq(input@, pos as int), input.len(), *old(far), *final(far)),
{
    let (p, uid) = msg_att_uid(input, pos, far)?;
    let p = byte(input, p, grammar::SP, far)?;
    let (end, modseq) = msg_att_modseq(input, p, far)?;
    Some((end, Store { uid, modseq }))
}

pub(crate) fn modseq_uid(input: &[u8], pos: usize, far: &mut usize) -> (r: Option<(usize, Store)>)
    requires
        pos <= input.len(),
    ensures
        ran(r, grammar::modseq_uid(input@, pos as int), input.len(), *old(far), *final(far)),
{
    let (p, modseq) = msg_att_modseq(input, pos, far)?;
    let p = byte(input, p, grammar::SP, far)?;
    let (end, uid) = msg_att_uid(input, p, far)?;
    Some((end, Store { uid, modseq }))
}

pub(crate) fn store_attributes(input: &[u8], pos: usize, far: &mut usize) -> (r: Option<(usize, Store)>)
    requires
        pos <= input.len(),
    ensures
        ran(r, grammar::store_attributes(input@, pos as int), input.len(), *old(far), *final(far)),
{
    match uid_modseq(input, pos, far) {
        Some(r) => Some(r),
        None => modseq_uid(input, pos, far),
    }
}

pub(crate) fn bracketed_modified(input: &[u8], pos: usize, far: &mut usize) -> (r: Option<(usize, Vec<Range>)>)
    requires
        pos <= input.len(),
    ensures
        ran(r, grammar::bracketed_modified(input@, pos as int), input.len(), *old(far), *final(far)),
{
    let p = byte(input, pos, grammar::LBRACKET, far)?;
    let (p, uids) = code_modified(input, p, far)?;
    let end = code_close(input, p, far)?;
    Some((end, uids))
}

pub(crate) fn bracketed_highestmodseq(input: &[u8], pos: usize, far: &mut usize) -> (r: Option<(usize, u64)>)
    requires
        pos <= input.len(),
    ensures
        ran(r, grammar::bracketed_highestmodseq(input@, pos as int), input.len(), *old(far), *final(far)),
{
    let p = byte(input, pos, grammar::LBRACKET, far)?;
    let (p, n) = code_highestmodseq(input, p, far)?;
    let end = code_close(input, p, far)?;
    Some((end, n))
}

} // verus!
