//! Strings: building them, reading numbers out of them, and lists of them kept as sets.
use vstd::prelude::*;
use vstd::string::{StrSliceExecFns, StringExecFns, StringSliceAdditionalSpecFns};

verus! {

/// The strings that `v` holds.
pub open spec fn strs(v: Seq<String>) -> Seq<Seq<char>> {
    Seq::new(v.len(), |i: int| v[i]@)
}

/// No string stands twice in `list`.
pub open spec fn distinct(list: Seq<Seq<char>>) -> bool {
    forall|i: int, j: int| 0 <= i < j < list.len() ==> list[i] != list[j]
}

/// The characters that `s` holds, if it holds any.
pub open spec fn string_of(s: Option<String>) -> Option<Seq<char>> {
    match s {
        Some(s) => Some(s@),
        None => None,
    }
}

/// The decimal digits of `n`, without leading zeros.
pub open spec fn digits_of(n: nat) -> Seq<char>
    decreases n,
{
    if n < 10 {
        seq![(0x30 + n) as u8 as char]
    } else {
        digits_of(n / 10).push((0x30 + n % 10) as u8 as char)
    }
}

/// A decimal digit.
pub open spec fn is_digit(c: char) -> bool {
    '0' <= c <= '9'
}

/// The number that a run of decimal digits writes.
pub open spec fn value_of(digits: Seq<char>) -> nat
    decreases digits.len(),
{
    if digits.len() == 0 {
        0
    } else {
        value_of(digits.drop_last()) * 10 + (digits.last() as u8 - 0x30) as nat
    }
}

/// Every character is a decimal digit.
pub open spec fn all_digits(digits: Seq<char>) -> bool {
    forall|i: int| 0 <= i < digits.len() ==> is_digit(#[trigger] digits[i])
}

/// What a run of characters says as an unsigned number of 64 bits: digits, at least one, and
/// no more than fit.
pub open spec fn unsigned(digits: Seq<char>) -> Option<u64> {
    if digits.len() > 0 && all_digits(digits) && value_of(digits) <= u64::MAX {
        Some(value_of(digits) as u64)
    } else {
        None
    }
}

/// What a string says as an unsigned number of 64 bits: digits, after a `+` or none.
pub open spec fn number_of(s: Seq<char>) -> Option<u64> {
    if s.len() > 0 && s[0] == '+' {
        unsigned(s.subrange(1, s.len() as int))
    } else {
        unsigned(s)
    }
}

/// `String::push`: appends one character.
#[verifier::external_body]
pub(crate) fn push(s: &mut String, c: char)
    ensures
        final(s)@ == old(s)@.push(c),
{
    s.push(c)
}

/// Appends the decimal digits of `n` to `out`.
pub fn write_decimal(out: &mut String, n: u64)
    ensures
        final(out)@ == old(out)@ + digits_of(n as nat),
    decreases n,
{
    if n >= 10 {
        write_decimal(out, n / 10);
    }
    let digit: u8 = 0x30 + (n % 10) as u8;
    push(out, digit as char);
    assert(out@ =~= old(out)@ + digits_of(n as nat));
}

/// The decimal digits of `n`, without leading zeros.
pub fn decimal(n: u64) -> (r: String)
    ensures
        r@ == digits_of(n as nat),
{
    let mut out = String::new();
    write_decimal(&mut out, n);
    assert(out@ =~= digits_of(n as nat));
    out
}

/// One more digit: ten times the number, and the digit.
pub proof fn lemma_value_push(digits: Seq<char>, c: char)
    ensures
        value_of(digits.push(c)) == value_of(digits) * 10 + (c as u8 - 0x30) as nat,
{
    assert(digits.push(c).drop_last() =~= digits);
}

/// Reads an unsigned number of 64 bits.
pub fn parse_u64(s: &str) -> (r: Option<u64>)
    ensures
        r == number_of(s@),
{
    let len = s.unicode_len();
    let from: usize = if len > 0 && s.get_char(0) == '+' {
        1
    } else {
        0
    };
    if from == len {
        return None;
    }
    let ghost digits = s@.subrange(from as int, len as int);
    assert(from == 0 ==> digits =~= s@);
    let mut i: usize = from;
    let mut value: u64 = 0;
    let mut over = false;
    assert(digits.subrange(0, 0) =~= Seq::<char>::empty());
    while i < len
        invariant
            from <= i <= len,
            len == s@.len(),
            digits == s@.subrange(from as int, len as int),
            from == 0 ==> digits == s@,
            from == (if s@.len() > 0 && s@[0] == '+' {
                1int
            } else {
                0int
            }),
            all_digits(digits.subrange(0, i - from)),
            over ==> value_of(digits.subrange(0, i - from)) > u64::MAX,
            !over ==> value == value_of(digits.subrange(0, i - from)),
        decreases len - i,
    {
        let c = s.get_char(i);
        if !('0' <= c && c <= '9') {
            assert(!is_digit(digits[i - from]));
            assert(!all_digits(digits));
            return None;
        }
        let d: u64 = (c as u8 - 0x30) as u64;
        proof {
            let next = digits.subrange(0, i - from + 1);
            assert(next =~= digits.subrange(0, i - from).push(c));
            assert forall|j: int| 0 <= j < next.len() implies is_digit(#[trigger] next[j]) by {
                if j < i - from {
                    assert(next[j] == digits.subrange(0, i - from)[j]);
                }
            }
            lemma_value_push(digits.subrange(0, i - from), c);
        }
        if !over && value <= (u64::MAX - d) / 10 {
            value = value * 10 + d;
        } else {
            over = true;
        }
        i += 1;
    }
    assert(digits.subrange(0, len - from) =~= digits);
    if over {
        None
    } else {
        Some(value)
    }
}

/// Whether `item` is one of `list`.
pub fn contains(list: &Vec<String>, item: &str) -> (r: bool)
    ensures
        r == strs(list@).contains(item@),
{
    let mut i: usize = 0;
    while i < list.len()
        invariant
            i <= list.len(),
            forall|j: int| 0 <= j < i ==> strs(list@)[j] != item@,
        decreases list.len() - i,
    {
        if equal(list[i].as_str(), item) {
            assert(strs(list@)[i as int] == item@);
            return true;
        }
        i += 1;
    }
    false
}

/// A hexadecimal digit in lower case.
pub open spec fn is_hex(c: char) -> bool {
    ('0' <= c && c <= '9') || ('a' <= c && c <= 'f')
}

/// The shape of a random identifier: 36 characters in five groups, hexadecimal digits in
/// lower case with a hyphen between two groups.
pub open spec fn is_identifier(s: Seq<char>) -> bool {
    &&& s.len() == 36
    &&& forall|i: int|
        0 <= i < 36 ==> if i == 8 || i == 13 || i == 18 || i == 23 {
            #[trigger] s[i] == '-'
        } else {
            is_hex(s[i])
        }
}

/// `uuid::Uuid::new_v4`, written by `Uuid::hyphenated` and `to_string`: a random
/// identifier. Which one it is depends on chance; whichever it is, it has the shape of
/// `is_identifier`, which is how the crate writes the sixteen bytes of every identifier.
#[verifier::external_body]
pub(crate) fn unique() -> (r: String)
    ensures
        is_identifier(r@),
{
    uuid::Uuid::new_v4().hyphenated().to_string()
}

/// An identifier is written in ASCII, without a colon, a comma, a space or a dot.
pub proof fn lemma_identifier_is_plain(s: Seq<char>)
    requires
        is_identifier(s),
    ensures
        vstd::utf8::is_ascii_chars(s),
        !s.contains(':'),
        !s.contains(','),
        !s.contains(' '),
        !s.contains('.'),
        !s.contains('/'),
{
    assert forall|i: int| 0 <= i < s.len() implies is_hex(#[trigger] s[i]) || s[i] == '-' by {
        if i == 8 || i == 13 || i == 18 || i == 23 {
        }
    }
}

/// `String::into_bytes`: the bytes of the string, which is given up for them, so that no
/// copy of it is left.
#[verifier::external_body]
pub(crate) fn into_bytes(s: String) -> (r: Vec<u8>)
    ensures
        r@ == vstd::utf8::encode_utf8(s@),
{
    s.into_bytes()
}

/// Whether two strings hold the same characters: they do where they hold the same bytes.
pub(crate) fn equal(a: &str, b: &str) -> (r: bool)
    ensures
        r == (a@ == b@),
{
    proof {
        vstd::utf8::encode_utf8_decode_utf8(a@);
        vstd::utf8::encode_utf8_decode_utf8(b@);
    }
    crate::bytes::same(a.as_bytes(), b.as_bytes())
}

/// `s` sets out with `prefix`.
pub open spec fn begins<T>(s: Seq<T>, prefix: Seq<T>) -> bool {
    prefix.len() <= s.len() && s.subrange(0, prefix.len() as int) == prefix
}

/// A string sets out with another where its bytes set out with the bytes of the other, and
/// there only.
pub proof fn lemma_begins_by_bytes(s: Seq<char>, prefix: Seq<char>)
    ensures
        begins(s, prefix) <==> begins(
            vstd::utf8::encode_utf8(s),
            vstd::utf8::encode_utf8(prefix),
        ),
    decreases prefix.len(),
{
    let whole = vstd::utf8::encode_utf8(s);
    let part = vstd::utf8::encode_utf8(prefix);
    if prefix.len() == 0 {
        assert(s.subrange(0, 0) =~= prefix);
        assert(whole.subrange(0, 0) =~= part);
    } else if s.len() == 0 {
        vstd::utf8::encode_utf8_first_scalar(prefix);
    } else {
        let rest = s.drop_first();
        let less = prefix.drop_first();
        let first = vstd::utf8::encode_scalar(s[0] as u32);
        let other = vstd::utf8::encode_scalar(prefix[0] as u32);
        vstd::utf8::encode_utf8_first_scalar(s);
        vstd::utf8::encode_utf8_first_scalar(prefix);
        lemma_begins_by_bytes(rest, less);
        assert(whole == first + vstd::utf8::encode_utf8(rest));
        assert(part == other + vstd::utf8::encode_utf8(less));
        if begins(s, prefix) {
            assert(s[0] == s.subrange(0, prefix.len() as int)[0]);
            assert(rest.subrange(0, less.len() as int) =~= s.subrange(0, prefix.len() as int).drop_first());
            assert(begins(rest, less));
            assert(whole.subrange(0, part.len() as int) =~= first + vstd::utf8::encode_utf8(
                rest,
            ).subrange(0, vstd::utf8::encode_utf8(less).len() as int));
        }
        if begins(whole, part) {
            assert forall|i: int| 0 <= i < part.len() implies whole[i] == part[i] by {
                assert(whole.subrange(0, part.len() as int)[i] == part[i]);
            }
            assert(whole[0] == part[0]);
            assert(vstd::utf8::decode_first_scalar(whole) == vstd::utf8::decode_first_scalar(part));
            vstd::utf8::char_u32_cast(s[0], s[0] as u32);
            vstd::utf8::char_u32_cast(prefix[0], prefix[0] as u32);
            assert(s[0] == prefix[0]);
            assert(vstd::utf8::encode_utf8(rest).subrange(
                0,
                vstd::utf8::encode_utf8(less).len() as int,
            ) =~= whole.subrange(0, part.len() as int).subrange(
                first.len() as int,
                part.len() as int,
            ));
            assert(part.subrange(first.len() as int, part.len() as int) =~= vstd::utf8::encode_utf8(
                less,
            ));
            assert(begins(vstd::utf8::encode_utf8(rest), vstd::utf8::encode_utf8(less)));
            assert(begins(rest, less));
            assert(s.subrange(0, prefix.len() as int) =~= seq![s[0]] + rest.subrange(
                0,
                less.len() as int,
            ));
            assert(prefix =~= seq![prefix[0]] + less);
        }
    }
}

/// Whether `s` sets out with `prefix`.
pub(crate) fn starts_with(s: &str, prefix: &str) -> (r: bool)
    ensures
        r == begins(s@, prefix@),
{
    proof {
        lemma_begins_by_bytes(s@, prefix@);
    }
    let whole = s.as_bytes();
    let part = prefix.as_bytes();
    assert(whole@ == vstd::utf8::encode_utf8(s@));
    assert(part@ == vstd::utf8::encode_utf8(prefix@));
    if part.len() > whole.len() {
        return false;
    }
    let mut i: usize = 0;
    while i < part.len()
        invariant
            i <= part.len() <= whole.len(),
            forall|j: int| 0 <= j < i ==> whole@[j] == part@[j],
            whole@ == vstd::utf8::encode_utf8(s@),
            part@ == vstd::utf8::encode_utf8(prefix@),
            begins(s@, prefix@) <==> begins(whole@, part@),
        decreases part.len() - i,
    {
        if whole[i] != part[i] {
            assert(whole@.subrange(0, part@.len() as int)[i as int] != part@[i as int]);
            return false;
        }
        i += 1;
    }
    assert(whole@.subrange(0, part@.len() as int) =~= part@);
    true
}

/// `a`, then `b`.
pub fn join(a: &str, b: &str) -> (r: String)
    ensures
        r@ == a@ + b@,
{
    let mut out = String::from_str(a);
    out.append(b);
    out
}


/// Every byte is an ASCII character.
pub open spec fn is_ascii(bytes: Seq<u8>) -> bool {
    forall|i: int| 0 <= i < bytes.len() ==> #[trigger] bytes[i] < 128
}

/// The characters that ASCII bytes write.
pub open spec fn chars(bytes: Seq<u8>) -> Seq<char> {
    Seq::new(bytes.len(), |i: int| bytes[i] as char)
}

/// The strings that a list of ASCII byte strings writes.
pub open spec fn chars_all(list: Seq<Seq<u8>>) -> Seq<Seq<char>> {
    Seq::new(list.len(), |i: int| chars(list[i]))
}

/// The string that ASCII bytes write, none where a byte is no ASCII character.
pub open spec fn ascii(bytes: Seq<u8>) -> Option<Seq<char>> {
    if is_ascii(bytes) {
        Some(chars(bytes))
    } else {
        None
    }
}

/// The strings that a list of ASCII byte strings writes, none where a byte is no ASCII
/// character.
pub open spec fn ascii_all(list: Seq<Seq<u8>>) -> Option<Seq<Seq<char>>> {
    if forall|i: int| 0 <= i < list.len() ==> is_ascii(#[trigger] list[i]) {
        Some(chars_all(list))
    } else {
        None
    }
}

/// Reads ASCII bytes as a string.
pub fn ascii_string(bytes: &[u8]) -> (r: Option<String>)
    ensures
        string_of(r) == ascii(bytes@),
{
    let mut out = String::new();
    let mut i: usize = 0;
    while i < bytes.len()
        invariant
            i <= bytes.len(),
            forall|j: int| 0 <= j < i ==> #[trigger] bytes@[j] < 128,
            out@ == chars(bytes@.subrange(0, i as int)),
        decreases bytes.len() - i,
    {
        if bytes[i] >= 128 {
            return None;
        }
        push(&mut out, bytes[i] as char);
        assert(out@ =~= chars(bytes@.subrange(0, i + 1)));
        i += 1;
    }
    assert(bytes@.subrange(0, bytes@.len() as int) =~= bytes@);
    Some(out)
}

/// Reads a list of ASCII byte strings as strings.
pub fn ascii_strings(list: &Vec<Vec<u8>>) -> (r: Option<Vec<String>>)
    ensures
        match r {
            Some(all) => ascii_all(crate::bytes::views(list@)) == Some(strs(all@)),
            None => ascii_all(crate::bytes::views(list@)) is None,
        },
{
    let mut out: Vec<String> = Vec::new();
    let mut i: usize = 0;
    while i < list.len()
        invariant
            i <= list.len(),
            out@.len() == i,
            forall|j: int|
                0 <= j < i ==> is_ascii(#[trigger] crate::bytes::views(list@)[j]) && out@[j]@
                    == chars(crate::bytes::views(list@)[j]),
        decreases list.len() - i,
    {
        match ascii_string(list[i].as_slice()) {
            Some(s) => {
                out.push(s);
            },
            None => {
                assert(!is_ascii(crate::bytes::views(list@)[i as int]));
                return None;
            },
        }
        i += 1;
    }
    assert(strs(out@) =~= chars_all(crate::bytes::views(list@)));
    Some(out)
}


/// The digits of a number are digits, and they write the number.
pub proof fn lemma_digits(n: nat)
    ensures
        digits_of(n).len() > 0,
        all_digits(digits_of(n)),
        value_of(digits_of(n)) == n,
    decreases n,
{
    if n < 10 {
        let d = seq![(0x30 + n) as u8 as char];
        assert(d.drop_last() =~= Seq::<char>::empty());
        assert(d.last() == (0x30 + n) as u8 as char);
        assert(value_of(d.drop_last()) == 0);
    } else {
        lemma_digits(n / 10);
        lemma_value_push(digits_of(n / 10), (0x30 + n % 10) as u8 as char);
    }
}

/// A number that is written in decimal reads as itself.
pub proof fn lemma_number_of_digits(n: u64)
    ensures
        number_of(digits_of(n as nat)) == Some(n),
{
    lemma_digits(n as nat);
    assert(is_digit(digits_of(n as nat)[0]));
}

} // verus!
