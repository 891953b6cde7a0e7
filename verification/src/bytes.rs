//! Byte strings: comparing, joining, and writing numbers.
use vstd::prelude::*;

verus! {

/// The byte strings that `v` holds.
pub open spec fn views(v: Seq<Vec<u8>>) -> Seq<Seq<u8>> {
    Seq::new(v.len(), |i: int| v[i]@)
}

/// The deep view of a list of byte strings is the list of their views.
pub proof fn lemma_deep_view_is_views(v: Vec<Vec<u8>>)
    ensures
        v.deep_view() == views(v@),
{
    assert forall|i: int| 0 <= i < v@.len() implies v@[i].deep_view() == v@[i]@ by {
        assert(v@[i].deep_view() =~= v@[i]@);
    }
    assert(v.deep_view() =~= views(v@));
}

/// The bytes that `bytes` holds, if it holds any.
pub open spec fn option_view(bytes: Option<Vec<u8>>) -> Option<Seq<u8>> {
    match bytes {
        Some(bytes) => Some(bytes@),
        None => None,
    }
}

/// The parts one after the other.
pub open spec fn joined(parts: Seq<Seq<u8>>) -> Seq<u8>
    decreases parts.len(),
{
    if parts.len() == 0 {
        Seq::empty()
    } else {
        joined(parts.drop_last()) + parts.last()
    }
}

/// The decimal digits of `n`, without leading zeros.
pub open spec fn digits_of(n: nat) -> Seq<u8>
    decreases n,
{
    if n < 10 {
        seq![(0x30 + n) as u8]
    } else {
        digits_of(n / 10).push((0x30 + n % 10) as u8)
    }
}

/// Whether two byte strings hold the same bytes.
pub fn same(a: &[u8], b: &[u8]) -> (r: bool)
    ensures
        r == (a@ == b@),
{
    if a.len() != b.len() {
        return false;
    }
    let mut i: usize = 0;
    while i < a.len()
        invariant
            i <= a.len(),
            a.len() == b.len(),
            a@.subrange(0, i as int) == b@.subrange(0, i as int),
        decreases a.len() - i,
    {
        if a[i] != b[i] {
            return false;
        }
        assert(a@.subrange(0, i + 1) =~= a@.subrange(0, i as int).push(a@[i as int]));
        assert(b@.subrange(0, i + 1) =~= b@.subrange(0, i as int).push(b@[i as int]));
        i += 1;
    }
    assert(a@ =~= a@.subrange(0, a.len() as int));
    assert(b@ =~= b@.subrange(0, b.len() as int));
    true
}

/// Whether `item` is one of `list`.
pub fn contains(list: &Vec<Vec<u8>>, item: &[u8]) -> (r: bool)
    ensures
        r == views(list@).contains(item@),
{
    let mut i: usize = 0;
    while i < list.len()
        invariant
            i <= list.len(),
            forall|j: int| 0 <= j < i ==> views(list@)[j] != item@,
        decreases list.len() - i,
    {
        if same(list[i].as_slice(), item) {
            assert(views(list@)[i as int] == item@);
            return true;
        }
        i += 1;
    }
    false
}

/// Appends the bytes of `tail` to `out`.
pub fn extend(out: &mut Vec<u8>, tail: &[u8])
    ensures
        final(out)@ == old(out)@ + tail@,
{
    out.extend_from_slice(tail);
    assert(out@ =~= old(out)@ + tail@);
}

/// The parts one after the other.
pub fn concat(parts: &Vec<Vec<u8>>) -> (r: Vec<u8>)
    ensures
        r@ == joined(views(parts@)),
{
    let mut out: Vec<u8> = Vec::new();
    let mut i: usize = 0;
    assert(views(parts@).subrange(0, 0) =~= Seq::<Seq<u8>>::empty());
    while i < parts.len()
        invariant
            i <= parts.len(),
            out@ == joined(views(parts@).subrange(0, i as int)),
        decreases parts.len() - i,
    {
        extend(&mut out, parts[i].as_slice());
        proof {
            let next = views(parts@).subrange(0, i + 1);
            assert(next.drop_last() =~= views(parts@).subrange(0, i as int));
            assert(next.last() == parts@[i as int]@);
        }
        i += 1;
    }
    assert(views(parts@).subrange(0, parts@.len() as int) =~= views(parts@));
    out
}

/// Appends the decimal digits of `n` to `out`.
pub fn write_decimal(out: &mut Vec<u8>, n: u64)
    ensures
        final(out)@ == old(out)@ + digits_of(n as nat),
    decreases n,
{
    if n >= 10 {
        write_decimal(out, n / 10);
    }
    let digit: u8 = 0x30 + (n % 10) as u8;
    out.push(digit);
    proof {
        if n >= 10 {
            assert(out@ =~= old(out)@ + digits_of(n as nat));
        } else {
            assert(out@ =~= old(out)@ + digits_of(n as nat));
        }
    }
}

/// The decimal digits of `n`, without leading zeros.
pub fn decimal(n: u64) -> (r: Vec<u8>)
    ensures
        r@ == digits_of(n as nat),
{
    let mut out: Vec<u8> = Vec::new();
    write_decimal(&mut out, n);
    assert(out@ =~= digits_of(n as nat));
    out
}

} // verus!
