//! Integers in byte buffers, in either byte order.
use vstd::arithmetic::div_mod::lemma_div_denominator;
use vstd::arithmetic::power::{lemma_pow_positive, pow};
use vstd::prelude::*;

verus! {

/// The `n` low-order bytes of `x`, lowest first.
pub open spec fn le(x: nat, n: nat) -> Seq<u8>
    decreases n,
{
    if n == 0 {
        Seq::empty()
    } else {
        seq![(x % 256) as u8] + le(x / 256, (n - 1) as nat)
    }
}

/// The number whose bytes, lowest first, are `s`.
pub open spec fn from_le(s: Seq<u8>) -> nat
    decreases s.len(),
{
    if s.len() == 0 {
        0
    } else {
        s[0] as nat + 256 * from_le(s.skip(1))
    }
}

/// In which order the bytes of a number stand in memory.
#[derive(Clone, Copy, Debug, PartialEq, Eq, Structural)]
pub enum ByteOrder {
    /// The lowest byte first.
    Little,
    /// The highest byte first.
    Big,
}

/// Bytes that are given lowest first, in another order; and back again.
pub open spec fn ordered(order: ByteOrder, s: Seq<u8>) -> Seq<u8> {
    match order {
        ByteOrder::Little => s,
        ByteOrder::Big => s.reverse(),
    }
}

/// The `n` low-order bytes of `x`.
pub open spec fn number(order: ByteOrder, x: nat, n: nat) -> Seq<u8> {
    ordered(order, le(x, n))
}

/// The number whose bytes are `s`.
pub open spec fn value(order: ByteOrder, s: Seq<u8>) -> nat {
    from_le(ordered(order, s))
}

/// The number that stands in the `n` bytes of `s` from `at` on.
pub open spec fn number_at(order: ByteOrder, s: Seq<u8>, at: int, n: int) -> nat {
    value(order, s.subrange(at, at + n))
}

/// 256 to the power `n`: how many numbers `n` bytes can tell apart.
pub open spec fn span(n: nat) -> nat
    decreases n,
{
    if n == 0 {
        1
    } else {
        256 * span((n - 1) as nat)
    }
}

/// An encoded number has as many bytes as were asked for.
pub proof fn lemma_le_len(x: nat, n: nat)
    ensures
        le(x, n).len() == n,
    decreases n,
{
    if n > 0 {
        lemma_le_len(x / 256, (n - 1) as nat);
    }
}

/// Reading back an encoded number gives the number, if it fits.
pub proof fn lemma_le_roundtrip(x: nat, n: nat)
    requires
        x < span(n),
    ensures
        from_le(le(x, n)) == x,
    decreases n,
{
    if n > 0 {
        lemma_le_len(x / 256, (n - 1) as nat);
        lemma_le_roundtrip(x / 256, (n - 1) as nat);
        assert(le(x, n).skip(1) =~= le(x / 256, (n - 1) as nat));
    }
}

/// What `n` bytes hold is less than 256 to the power `n`.
pub proof fn lemma_from_le_bound(s: Seq<u8>)
    ensures
        from_le(s) < span(s.len()),
    decreases s.len(),
{
    if s.len() > 0 {
        lemma_from_le_bound(s.skip(1));
    }
}

/// Reading a number and encoding it again gives the same bytes.
pub proof fn lemma_from_le_roundtrip(s: Seq<u8>)
    ensures
        le(from_le(s), s.len()) == s,
    decreases s.len(),
{
    if s.len() > 0 {
        lemma_from_le_roundtrip(s.skip(1));
        assert(from_le(s) / 256 == from_le(s.skip(1)));
        assert(from_le(s) % 256 == s[0]);
        assert(seq![s[0]] + s.skip(1) =~= s);
    }
}

/// Ordering bytes twice gives them back, and keeps how many there are.
pub proof fn lemma_ordered_twice(order: ByteOrder, s: Seq<u8>)
    ensures
        ordered(order, ordered(order, s)) == s,
        ordered(order, s).len() == s.len(),
{
    assert(ordered(order, ordered(order, s)) =~= s);
}

/// An encoded number has as many bytes as were asked for.
pub proof fn lemma_number_len(order: ByteOrder, x: nat, n: nat)
    ensures
        number(order, x, n).len() == n,
{
    lemma_le_len(x, n);
    lemma_ordered_twice(order, le(x, n));
}

/// Reading back an encoded number gives the number, if it fits.
pub proof fn lemma_number_roundtrip(order: ByteOrder, x: nat, n: nat)
    requires
        x < span(n),
    ensures
        value(order, number(order, x, n)) == x,
{
    lemma_le_roundtrip(x, n);
    lemma_ordered_twice(order, le(x, n));
}

/// What `n` bytes hold is less than 256 to the power `n`.
pub proof fn lemma_value_bound(order: ByteOrder, s: Seq<u8>)
    ensures
        value(order, s) < span(s.len()),
{
    lemma_ordered_twice(order, s);
    lemma_from_le_bound(ordered(order, s));
}

/// Reading a number and encoding it again gives the same bytes.
pub proof fn lemma_value_roundtrip(order: ByteOrder, s: Seq<u8>)
    ensures
        number(order, value(order, s), s.len()) == s,
{
    lemma_ordered_twice(order, s);
    lemma_from_le_roundtrip(ordered(order, s));
}

/// The spans of the widths that the wire formats use.
pub proof fn lemma_spans()
    ensures
        span(1) == 0x100,
        span(2) == 0x1_0000,
        span(4) == 0x1_0000_0000,
        span(8) == 0x1_0000_0000_0000_0000,
{
    reveal_with_fuel(span, 9);
}

/// The `n` low-order bytes of `x`, lowest first.
fn le_bytes(x: u64, n: usize) -> (bytes: Vec<u8>)
    ensures
        bytes@ == le(x as nat, n as nat),
{
    let mut bytes: Vec<u8> = Vec::new();
    let mut rest: u64 = x;
    let mut i: usize = 0;
    while i < n
        invariant
            i <= n,
            bytes@ + le(rest as nat, (n - i) as nat) == le(x as nat, n as nat),
        decreases n - i,
    {
        let ghost before = bytes@;
        let low: u8 = (rest % 256) as u8;
        bytes.push(low);
        proof {
            assert(before + (seq![low] + le((rest / 256) as nat, (n - i - 1) as nat))
                =~= bytes@ + le((rest / 256) as nat, (n - i - 1) as nat));
        }
        rest = rest / 256;
        i = i + 1;
    }
    assert(bytes@ + le(rest as nat, 0) =~= bytes@);
    bytes
}

/// Appends the `n` low-order bytes of `x`.
pub fn push_number(order: ByteOrder, buf: &mut Vec<u8>, x: u64, n: usize)
    ensures
        final(buf)@ == old(buf)@ + number(order, x as nat, n as nat),
{
    let bytes: Vec<u8> = le_bytes(x, n);
    let ghost all = number(order, x as nat, n as nat);
    let ghost before = buf@;
    let mut i: usize = 0;
    while i < bytes.len()
        invariant
            i <= bytes@.len() == all.len(),
            all == ordered(order, bytes@),
            buf@ == before + all.take(i as int),
        decreases bytes@.len() - i,
    {
        let next: u8 = match order {
            ByteOrder::Little => bytes[i],
            ByteOrder::Big => bytes[bytes.len() - 1 - i],
        };
        buf.push(next);
        assert(all.take(i + 1) =~= all.take(i as int).push(next));
        i = i + 1;
    }
    assert(all.take(i as int) =~= all);
}

/// Reads the number in the `n` bytes from `at` on; at most eight bytes.
pub fn read_number(order: ByteOrder, buf: &Vec<u8>, at: usize, n: usize) -> (x: u64)
    requires
        n <= 8,
        at + n <= buf@.len(),
    ensures
        x == number_at(order, buf@, at as int, n as int),
        x < span(n as nat),
{
    let ghost s = ordered(order, buf@.subrange(at as int, at + n));
    let mut x: u64 = 0;
    let mut i: usize = n;
    assert(s.skip(n as int) =~= Seq::empty());
    while i > 0
        invariant
            i <= n <= 8,
            at + n <= buf.len() == buf@.len(),
            s == ordered(order, buf@.subrange(at as int, at + n)),
            s.len() == n,
            x == from_le(s.skip(i as int)),
        decreases i,
    {
        i = i - 1;
        let next: u8 = match order {
            ByteOrder::Little => buf[at + i],
            ByteOrder::Big => buf[at + (n - 1 - i)],
        };
        proof {
            let rest = s.skip(i + 1);
            assert(next == s[i as int]);
            assert(s.skip(i as int).skip(1) =~= rest);
            lemma_from_le_bound(rest);
            lemma_span_monotone(rest.len(), 7);
            reveal_with_fuel(span, 8);
        }
        x = next as u64 + 256 * x;
    }
    proof {
        assert(s.skip(0) =~= s);
        lemma_from_le_bound(s);
    }
    x
}

proof fn lemma_span_monotone(a: nat, b: nat)
    requires
        a <= b,
    ensures
        span(a) <= span(b),
    decreases b,
{
    if a < b {
        lemma_span_monotone(a, (b - 1) as nat);
    }
}

proof fn lemma_le_digit(x: nat, n: nat, i: nat)
    requires
        i < n,
    ensures
        le(x, n).len() == n,
        le(x, n)[i as int] == (x as int / pow(256, i)) % 256,
    decreases n,
{
    reveal(pow);
    lemma_le_len(x, n);
    if i > 0 {
        let rest = le(x / 256, (n - 1) as nat);
        lemma_le_digit(x / 256, (n - 1) as nat, (i - 1) as nat);
        lemma_pow_positive(256, (i - 1) as nat);
        lemma_div_denominator(x as int, 256, pow(256, (i - 1) as nat));
        assert(le(x, n)[i as int] == rest[i - 1]);
    }
}

proof fn lemma_span_is_power(n: nat)
    ensures
        span(n) == pow(256, n),
    decreases n,
{
    reveal(pow);
    if n > 0 {
        lemma_span_is_power((n - 1) as nat);
    }
}

/// The bytes of a number are its digits to the base 256: from the lowest to the
/// highest in the one order, from the highest to the lowest in the other.
pub proof fn law_bytes_are_the_digits(x: nat, n: nat, i: int)
    requires
        0 <= i < n,
    ensures
        number(ByteOrder::Little, x, n).len() == n,
        number(ByteOrder::Big, x, n).len() == n,
        number(ByteOrder::Little, x, n)[i] == (x as int / pow(256, i as nat)) % 256,
        number(ByteOrder::Big, x, n)[n - 1 - i] == (x as int / pow(256, i as nat)) % 256,
{
    lemma_le_digit(x, n, i as nat);
}

/// The number that is read has the bytes that are there as its digits to the base
/// 256, and no others.
pub proof fn law_number_has_the_bytes_as_digits(s: Seq<u8>, at: int, n: int, i: int)
    requires
        0 <= at,
        0 <= i < n,
        at + n <= s.len(),
    ensures
        number_at(ByteOrder::Little, s, at, n) < pow(256, n as nat),
        number_at(ByteOrder::Big, s, at, n) < pow(256, n as nat),
        (number_at(ByteOrder::Little, s, at, n) as int / pow(256, i as nat)) % 256 == s[at + i],
        (number_at(ByteOrder::Big, s, at, n) as int / pow(256, i as nat)) % 256 == s[at + n - 1
            - i],
{
    let part = s.subrange(at, at + n);
    lemma_span_is_power(n as nat);
    lemma_value_bound(ByteOrder::Little, part);
    lemma_value_bound(ByteOrder::Big, part);
    lemma_value_roundtrip(ByteOrder::Little, part);
    lemma_value_roundtrip(ByteOrder::Big, part);
    law_bytes_are_the_digits(value(ByteOrder::Little, part), n as nat, i);
    law_bytes_are_the_digits(value(ByteOrder::Big, part), n as nat, i);
}

/// A single byte is a number in either order.
pub proof fn lemma_single_byte(order: ByteOrder, s: Seq<u8>, at: int)
    requires
        0 <= at < s.len(),
    ensures
        number_at(order, s, at, 1) == s[at],
{
    reveal(pow);
    assert(pow(256, 0) == 1);
    assert(pow(256, 1) == 256 * pow(256, 0));
    law_number_has_the_bytes_as_digits(s, at, 1, 0);
}

} // verus!
