//! Integers as sequences of bytes.

use vstd::arithmetic::div_mod::lemma_div_denominator;
use vstd::arithmetic::power::{lemma_pow_positive, pow};
use vstd::prelude::*;

verus! {

/// Which byte of an integer comes first.
#[derive(Clone, Copy, PartialEq, Eq, Structural)]
pub enum ByteOrder {
    /// The least significant one.
    Little,
    /// The most significant one.
    Big,
}

/// 256 to the power of `n`.
pub open spec fn pow256(n: nat) -> nat
    decreases n,
{
    if n == 0 {
        1
    } else {
        256 * pow256((n - 1) as nat)
    }
}

/// The `len` least significant bytes of `value`, the least significant one first.
pub open spec fn digits(value: nat, len: nat) -> Seq<u8>
    decreases len,
{
    if len == 0 {
        Seq::empty()
    } else {
        seq![(value % 256) as u8] + digits(value / 256, (len - 1) as nat)
    }
}

/// The integer whose bytes are `bytes`, the least significant one first.
pub open spec fn from_digits(bytes: Seq<u8>) -> nat
    decreases bytes.len(),
{
    if bytes.len() == 0 {
        0
    } else {
        bytes[0] as nat + 256 * from_digits(bytes.drop_first())
    }
}

/// `value` in `len` bytes.
pub open spec fn bytes_of(value: nat, len: nat, order: ByteOrder) -> Seq<u8> {
    match order {
        ByteOrder::Little => digits(value, len),
        ByteOrder::Big => digits(value, len).reverse(),
    }
}

/// The integer that `bytes` represent.
pub open spec fn value_of(bytes: Seq<u8>, order: ByteOrder) -> nat {
    match order {
        ByteOrder::Little => from_digits(bytes),
        ByteOrder::Big => from_digits(bytes.reverse()),
    }
}

/// The byte order of the machine.
pub open spec fn native_order() -> ByteOrder {
    match vstd::endian::endianness() {
        vstd::endian::Endian::Little => ByteOrder::Little,
        vstd::endian::Endian::Big => ByteOrder::Big,
    }
}

/// There are as many bytes as asked for.
pub proof fn lemma_digits_len(value: nat, len: nat)
    ensures
        digits(value, len).len() == len,
    decreases len,
{
    if len > 0 {
        lemma_digits_len(value / 256, (len - 1) as nat);
    }
}

/// An integer that fits into the bytes is what they represent.
pub proof fn lemma_from_digits_of(value: nat, len: nat)
    requires
        value < pow256(len),
    ensures
        from_digits(digits(value, len)) == value,
    decreases len,
{
    if len > 0 {
        assert(value / 256 < pow256((len - 1) as nat));
        lemma_from_digits_of(value / 256, (len - 1) as nat);
        assert(digits(value, len).drop_first() == digits(value / 256, (len - 1) as nat));
    }
}

/// The bytes of the integer that bytes represent are those bytes, and it fits into them.
pub proof fn lemma_digits_of_from(bytes: Seq<u8>)
    ensures
        digits(from_digits(bytes), bytes.len()) == bytes,
        from_digits(bytes) < pow256(bytes.len()),
    decreases bytes.len(),
{
    if bytes.len() > 0 {
        let rest = bytes.drop_first();
        lemma_digits_of_from(rest);
        let value = from_digits(bytes);
        assert(value % 256 == bytes[0] && value / 256 == from_digits(rest));
        assert(digits(value, bytes.len()) == seq![bytes[0]] + rest);
        assert(seq![bytes[0]] + rest == bytes);
    }
}

/// An integer that fits into `len` bytes is what they represent.
pub proof fn law_value_of_bytes_of(value: nat, len: nat, order: ByteOrder)
    requires
        value < pow256(len),
    ensures
        value_of(bytes_of(value, len, order), order) == value,
{
    lemma_from_digits_of(value, len);
    let bytes = digits(value, len);
    assert(bytes.reverse().reverse() == bytes);
}

/// The bytes of the integer that bytes represent are those bytes, and it fits into them.
pub proof fn law_bytes_of_value_of(bytes: Seq<u8>, order: ByteOrder)
    ensures
        bytes_of(value_of(bytes, order), bytes.len(), order) == bytes,
        value_of(bytes, order) < pow256(bytes.len()),
{
    match order {
        ByteOrder::Little => lemma_digits_of_from(bytes),
        ByteOrder::Big => {
            lemma_digits_of_from(bytes.reverse());
            assert(bytes.reverse().reverse() == bytes);
        },
    }
}

/// The bytes of an integer in one byte order are those in the other, reversed.
pub proof fn law_byte_orders_are_reversed(value: nat, len: nat)
    ensures
        bytes_of(value, len, ByteOrder::Big) == bytes_of(value, len, ByteOrder::Little).reverse(),
        bytes_of(value, len, ByteOrder::Little) == bytes_of(value, len, ByteOrder::Big).reverse(),
        bytes_of(value, len, ByteOrder::Little).len() == len,
        forall|i: int|
            0 <= i < len ==> #[trigger] bytes_of(value, len, ByteOrder::Big)[i] == bytes_of(
                value,
                len,
                ByteOrder::Little,
            )[len - 1 - i],
{
    lemma_digits_len(value, len);
}

/// Each byte of an integer, counting from the least significant one, is what is left of the integer
/// divided by that power of 256, and so much of it as is less than 256.
pub proof fn law_bytes_are_digits(value: nat, len: nat, i: nat)
    requires
        i < len,
    ensures
        bytes_of(value, len, ByteOrder::Little)[i as int] == (value as int / pow(256, i)) % 256,
        bytes_of(value, len, ByteOrder::Big)[len - 1 - i] == (value as int / pow(256, i)) % 256,
    decreases len,
{
    lemma_digits_len(value, len);
    reveal(pow);
    lemma_pow_positive(256, i);
    if i > 0 {
        let j = (i - 1) as nat;
        law_bytes_are_digits(value / 256, (len - 1) as nat, j);
        lemma_pow_positive(256, j);
        lemma_div_denominator(value as int, 256, pow(256, j));
        assert(digits(value, len)[i as int] == digits(value / 256, (len - 1) as nat)[j as int]);
    }
}

/// As many bytes represent just the integers below that power of 256.
pub proof fn law_bytes_hold(len: nat)
    ensures
        pow256(len) == pow(256, len),
    decreases len,
{
    reveal(pow);
    if len > 0 {
        law_bytes_hold((len - 1) as nat);
    }
}

/// Eight bytes hold a `u64`.
pub proof fn lemma_pow256_values()
    ensures
        pow256(2) == 0x1_0000,
        pow256(4) == 0x1_0000_0000,
        pow256(8) == 0x1_0000_0000_0000_0000,
{
    reveal_with_fuel(pow256, 9);
}

/// More bytes hold more.
proof fn lemma_pow256_monotonic(m: nat, n: nat)
    requires
        m <= n,
    ensures
        pow256(m) <= pow256(n),
    decreases n,
{
    if m < n {
        lemma_pow256_monotonic(m, (n - 1) as nat);
    }
}

/// The bytes from the `at`th on, `len` in all, the least significant one first.
spec fn digits_at(bytes: Seq<u8>, at: int, len: int, order: ByteOrder) -> Seq<u8> {
    match order {
        ByteOrder::Little => bytes.subrange(at, at + len),
        ByteOrder::Big => bytes.subrange(at, at + len).reverse(),
    }
}

/// Where the `i`th byte of an integer stands, counting from the least significant one.
fn position(at: usize, len: usize, i: usize, order: ByteOrder) -> (p: usize)
    requires
        i < len,
        at + len <= usize::MAX,
    ensures
        at <= p < at + len,
        order == ByteOrder::Little ==> p == at + i,
        order == ByteOrder::Big ==> p == at + len - 1 - i,
{
    match order {
        ByteOrder::Little => at + i,
        ByteOrder::Big => at + (len - 1 - i),
    }
}

/// Read an integer of `len` bytes that starts with the `at`th byte.
pub fn decode_at(bytes: &[u8], at: usize, len: usize, order: ByteOrder) -> (value: u64)
    requires
        at + len <= bytes@.len(),
        len <= 8,
    ensures
        value == value_of(bytes@.subrange(at as int, at + len), order),
        value < pow256(len as nat),
{
    let ghost all = digits_at(bytes@, at as int, len as int, order);
    let total: usize = bytes.len();
    let mut value: u64 = 0;
    let mut i: usize = len;
    assert(all.skip(len as int) == Seq::<u8>::empty());
    while i > 0
        invariant
            i <= len <= 8,
            at + len <= bytes@.len() == total,
            all == digits_at(bytes@, at as int, len as int, order),
            all.len() == len,
            value == from_digits(all.skip(i as int)),
        decreases i,
    {
        i = i - 1;
        let ghost rest = all.skip(i as int);
        let p: usize = position(at, len, i, order);
        assert(bytes@[p as int] == all[i as int]);
        proof {
            assert(rest.drop_first() == all.skip(i + 1));
            lemma_digits_of_from(rest);
            lemma_pow256_monotonic(rest.len(), 8);
            lemma_pow256_values();
        }
        value = value * 256 + bytes[p] as u64;
    }
    proof {
        assert(all.skip(0) == all);
        lemma_digits_of_from(all);
    }
    value
}

/// Write the `len` least significant bytes of an integer, starting with the `at`th byte of the
/// buffer.
pub fn encode_at(bytes: &mut [u8], at: usize, len: usize, value: u64, order: ByteOrder)
    requires
        at + len <= old(bytes)@.len(),
    ensures
        final(bytes)@.len() == old(bytes)@.len(),
        final(bytes)@.subrange(at as int, at + len) == bytes_of(value as nat, len as nat, order),
        forall|j: int|
            0 <= j < old(bytes)@.len() && !(at <= j < at + len) ==> #[trigger] final(bytes)@[j]
                == old(bytes)@[j],
{
    let ghost before = bytes@;
    let ghost all = digits(value as nat, len as nat);
    let total: usize = bytes.len();
    let mut left: u64 = value;
    let mut i: usize = 0;
    proof {
        lemma_digits_len(value as nat, len as nat);
        assert(all.skip(0) == all);
    }
    while i < len
        invariant
            i <= len,
            at + len <= bytes@.len() == total,
            before.len() == bytes@.len(),
            all.len() == len,
            all.skip(i as int) == digits(left as nat, (len - i) as nat),
            forall|j: int|
                0 <= j < i ==> #[trigger] digits_at(bytes@, at as int, len as int, order)[j]
                    == all[j],
            forall|j: int|
                0 <= j < before.len() && !(at <= j < at + len) ==> #[trigger] bytes@[j]
                    == before[j],
        decreases len - i,
    {
        let ghost filled = bytes@;
        let p: usize = position(at, len, i, order);
        let digit: u8 = (left % 256) as u8;
        proof {
            assert(all[i as int] == all.skip(i as int)[0]);
            assert(all[i as int] == digit);
            assert(all.skip(i + 1) == all.skip(i as int).drop_first());
            assert(digits(left as nat, (len - i) as nat).drop_first() == digits(
                (left / 256) as nat,
                (len - i - 1) as nat,
            ));
        }
        bytes[p] = digit;
        left = left / 256;
        assert forall|j: int| 0 <= j < i + 1 implies #[trigger] digits_at(
            bytes@,
            at as int,
            len as int,
            order,
        )[j] == all[j] by {
            if j < i {
                assert(digits_at(filled, at as int, len as int, order)[j] == all[j]);
            }
        }
        i = i + 1;
    }
    proof {
        assert(digits_at(bytes@, at as int, len as int, order) == all);
        let written = bytes@.subrange(at as int, at + len);
        assert(written.reverse().reverse() == written);
    }
}

/// `u16::to_ne_bytes`: the two bytes of an integer, in the byte order of the machine.
#[verifier::external_body]
fn to_ne_bytes(value: u16) -> (bytes: [u8; 2])
    ensures
        bytes@ == bytes_of(value as nat, 2, native_order()),
{
    value.to_ne_bytes()
}

/// The byte order of the machine.
pub fn native_byte_order() -> (order: ByteOrder)
    ensures
        order == native_order(),
{
    let bytes = to_ne_bytes(1);
    proof {
        reveal_with_fuel(digits, 3);
        assert(digits(1, 2) == seq![1u8, 0u8]);
    }
    if bytes[0] == 1 {
        ByteOrder::Little
    } else {
        ByteOrder::Big
    }
}

} // verus!
