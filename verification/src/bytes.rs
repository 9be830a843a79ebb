//! Fixed-size identifiers and byte strings: equality, big-endian order, hexadecimal.

use vstd::prelude::*;

verus! {

/// The number that a byte string writes in base 256, most significant byte first.
pub open spec fn big_endian(bytes: Seq<u8>) -> nat
    decreases bytes.len(),
{
    if bytes.len() == 0 {
        0
    } else {
        256 * big_endian(bytes.drop_last()) + bytes.last() as nat
    }
}

/// The order of 32-byte identifiers: the number each of them writes.
pub open spec fn id_order(id: [u8; 32]) -> nat {
    big_endian(id@)
}

/// Byte strings of one length that write one number are the same.
pub proof fn lemma_big_endian_injective(a: Seq<u8>, b: Seq<u8>)
    requires
        a.len() == b.len(),
        big_endian(a) == big_endian(b),
    ensures
        a == b,
    decreases a.len(),
{
    if a.len() > 0 {
        lemma_big_endian_injective(a.drop_last(), b.drop_last());
        assert(a =~= a.drop_last().push(a.last()));
        assert(b =~= b.drop_last().push(b.last()));
    } else {
        assert(a =~= b);
    }
}

/// Two identifiers in the same place of the order are equal.
pub proof fn lemma_id_order_injective(a: [u8; 32], b: [u8; 32])
    requires
        id_order(a) == id_order(b),
    ensures
        a == b,
{
    lemma_big_endian_injective(a@, b@);
    assert(a =~= b);
}

/// Whether two byte strings are equal.
pub fn bytes_equal(a: &[u8], b: &[u8]) -> (equal: bool)
    ensures
        equal == (a@ == b@),
{
    if a.len() != b.len() {
        return false;
    }
    let mut i: usize = 0;
    while i < a.len()
        invariant
            i <= a@.len(),
            a@.len() == b@.len(),
            forall|k: int| 0 <= k < i ==> a@[k] == b@[k],
        decreases a@.len() - i,
    {
        if a[i] != b[i] {
            return false;
        }
        i += 1;
    }
    assert(a@ =~= b@);
    true
}

/// Whether two identifiers are equal.
pub fn id_equal(a: &[u8; 32], b: &[u8; 32]) -> (equal: bool)
    ensures
        equal == (*a == *b),
{
    let mut i: usize = 0;
    while i < 32
        invariant
            i <= 32,
            forall|k: int| 0 <= k < i ==> a@[k] == b@[k],
        decreases 32 - i,
    {
        if a[i] != b[i] {
            return false;
        }
        i += 1;
    }
    assert(a@ =~= b@);
    assert(*a =~= *b);
    true
}

/// The identifier of nothing: all bytes zero.
pub open spec fn is_zero(id: [u8; 32]) -> bool {
    forall|i: int| 0 <= i < 32 ==> id@[i] == 0
}

/// Whether an identifier is all zeros.
pub fn id_is_zero(id: &[u8; 32]) -> (zero: bool)
    ensures
        zero == is_zero(*id),
{
    let mut i: usize = 0;
    while i < 32
        invariant
            i <= 32,
            forall|k: int| 0 <= k < i ==> id@[k] == 0,
        decreases 32 - i,
    {
        if id[i] != 0 {
            assert(id@[i as int] != 0);
            return false;
        }
        i += 1;
    }
    true
}

/// Whether one identifier comes before another.
pub fn id_before(a: &[u8; 32], b: &[u8; 32]) -> (before: bool)
    ensures
        before == (id_order(*a) < id_order(*b)),
{
    let mut i: usize = 0;
    while i < 32
        invariant
            i <= 32,
            a@.take(i as int) == b@.take(i as int),
        decreases 32 - i,
    {
        if a[i] != b[i] {
            let before: bool = a[i] < b[i];
            proof {
                let (x, y) = if before {
                    (a@, b@)
                } else {
                    (b@, a@)
                };
                assert(x.take(i as int) == y.take(i as int));
                lemma_first_difference_decides(x, y, i as int, 32);
                assert(x.take(32) =~= x);
                assert(y.take(32) =~= y);
            }
            return before;
        }
        assert(a@.take(i + 1) =~= a@.take(i as int).push(a@[i as int]));
        assert(b@.take(i + 1) =~= b@.take(i as int).push(b@[i as int]));
        i += 1;
    }
    assert(a@.take(32) =~= a@);
    assert(b@.take(32) =~= b@);
    false
}

/// The first differing byte decides the order of two byte strings.
pub proof fn lemma_first_difference_decides(x: Seq<u8>, y: Seq<u8>, first: int, end: int)
    requires
        0 <= first < end <= x.len(),
        end <= y.len(),
        x.take(first) == y.take(first),
        x[first] < y[first],
    ensures
        big_endian(x.take(end)) < big_endian(y.take(end)),
    decreases end,
{
    assert(x.take(end).drop_last() =~= x.take(end - 1));
    assert(y.take(end).drop_last() =~= y.take(end - 1));
    if first < end - 1 {
        lemma_first_difference_decides(x, y, first, end - 1);
    }
}

/// The 16 bytes of an identifier as one number.
pub fn id_from_bytes(bytes: &[u8; 16]) -> (id: u128)
    ensures
        id as nat == big_endian(bytes@),
{
    let mut value: u128 = 0;
    let mut i: usize = 0;
    assert(power_of_256(16) == u128::MAX + 1) by {
        reveal_with_fuel(power_of_256, 17);
    }
    while i < 16
        invariant
            i <= 16,
            value as nat == big_endian(bytes@.take(i as int)),
            value as nat * power_of_256((16 - i) as nat) <= u128::MAX as nat + 1 - power_of_256(
                (16 - i) as nat,
            ),
        decreases 16 - i,
    {
        proof {
            assert(bytes@.take(i + 1).drop_last() =~= bytes@.take(i as int));
            let rest = power_of_256((15 - i) as nat);
            assert(power_of_256((16 - i) as nat) == 256 * rest);
            assert(rest >= 1) by {
                lemma_power_of_256_positive((15 - i) as nat);
            }
            assert((value * 256 + bytes@[i as int] + 1) * rest <= u128::MAX + 1) by (nonlinear_arith)
                requires
                    value * (256 * rest) <= u128::MAX + 1 - 256 * rest,
                    0 <= bytes@[i as int] <= 255,
                    rest >= 1,
            ;
            assert(value * 256 + bytes@[i as int] + 1 <= (value * 256 + bytes@[i as int] + 1)
                * rest) by (nonlinear_arith)
                requires
                    rest >= 1,
                    value * 256 + bytes@[i as int] + 1 >= 0,
            ;
            assert((value * 256 + bytes@[i as int] + 1) * rest == (value * 256 + bytes@[i as int])
                * rest + rest) by (nonlinear_arith);
        }
        value = value * 256 + bytes[i] as u128;
        i += 1;
    }
    assert(bytes@.take(16) =~= bytes@);
    value
}

/// Powers of 256.
spec fn power_of_256(exponent: nat) -> nat
    decreases exponent,
{
    if exponent == 0 {
        1
    } else {
        256 * power_of_256((exponent - 1) as nat)
    }
}

proof fn lemma_power_of_256_positive(exponent: nat)
    ensures
        power_of_256(exponent) >= 1,
    decreases exponent,
{
    if exponent > 0 {
        lemma_power_of_256_positive((exponent - 1) as nat);
    }
}

} // verus!
