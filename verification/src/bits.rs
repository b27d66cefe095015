//! Bit fields in wire order: bit 0 is the highest bit of the first byte.

use vstd::prelude::*;

verus! {

/// The mask of bit `i` within its byte.
pub open spec fn bit_mask(i: int) -> u8 {
    0x80u8 >> ((i % 8) as u8)
}

/// Whether bit `i` of `bf` is set; bits past the end are clear.
pub open spec fn bit_at(bf: Seq<u8>, i: int) -> bool {
    0 <= i && i / 8 < bf.len() && bf[i / 8] & bit_mask(i) != 0
}

/// Number of bytes that hold `n` bits.
pub open spec fn byte_count(n: int) -> int {
    (n + 7) / 8
}

proof fn lemma_or_mask(b: u8, k: u8, j: u8)
    by (bit_vector)
    requires
        k < 8,
        j < 8,
    ensures
        ((b | (0x80u8 >> k)) & (0x80u8 >> j) != 0) <==> (k == j || b & (0x80u8 >> j) != 0),
{
}

proof fn lemma_zero_mask(k: u8)
    by (bit_vector)
    ensures
        0u8 & (0x80u8 >> k) == 0,
{
}

/// A field of zero bytes has no bit set.
pub proof fn lemma_zero_bits(bf: Seq<u8>)
    requires
        forall|k: int| 0 <= k < bf.len() ==> bf[k] == 0,
    ensures
        forall|i: int| !bit_at(bf, i),
{
    assert forall|i: int| !bit_at(bf, i) by {
        if 0 <= i && i / 8 < bf.len() {
            lemma_zero_mask((i % 8) as u8);
        }
    }
}

/// Reads bit `i`; bits past the end are clear.
pub fn bitfield_bit(bf: &Vec<u8>, i: u64) -> (r: bool)
    ensures
        r == bit_at(bf@, i as int),
{
    if i / 8 >= bf.len() as u64 {
        return false;
    }
    let mask: u8 = 0x80u8 >> ((i % 8) as u8);
    bf[(i / 8) as usize] & mask != 0
}

/// Sets bit `i` and leaves every other bit as it was.
pub fn set_bit(bf: &mut Vec<u8>, i: usize)
    requires
        i / 8 < old(bf)@.len(),
    ensures
        final(bf)@.len() == old(bf)@.len(),
        forall|j: int| #[trigger] bit_at(final(bf)@, j) == (j == i || bit_at(old(bf)@, j)),
{
    let k: u8 = (i % 8) as u8;
    let b: u8 = bf[i / 8];
    let ghost before = bf@;
    bf.set(i / 8, b | (0x80u8 >> k));
    proof {
        assert forall|j: int| #[trigger] bit_at(bf@, j) == (j == i || bit_at(before, j)) by {
            if 0 <= j && j / 8 == i / 8 {
                lemma_or_mask(b, k, (j % 8) as u8);
                assert(j == i <==> j % 8 == i % 8);
            }
        }
    }
}

/// Whether `bf` is the field of `n` bits in which those are set that satisfy `pred`.
pub open spec fn is_field(bf: Seq<u8>, n: int, pred: spec_fn(int) -> bool) -> bool {
    &&& bf.len() == byte_count(n)
    &&& forall|i: int| 0 <= i ==> #[trigger] bit_at(bf, i) == (i < n && pred(i))
}

/// The field of `n` bits in which those are set that satisfy `pred`.
pub open spec fn field_of(n: int, pred: spec_fn(int) -> bool) -> Seq<u8> {
    choose|bf: Seq<u8>| is_field(bf, n, pred)
}

proof fn lemma_byte_eq(a: u8, b: u8)
    by (bit_vector)
    requires
        (a & (0x80u8 >> 0u8) != 0) == (b & (0x80u8 >> 0u8) != 0),
        (a & (0x80u8 >> 1u8) != 0) == (b & (0x80u8 >> 1u8) != 0),
        (a & (0x80u8 >> 2u8) != 0) == (b & (0x80u8 >> 2u8) != 0),
        (a & (0x80u8 >> 3u8) != 0) == (b & (0x80u8 >> 3u8) != 0),
        (a & (0x80u8 >> 4u8) != 0) == (b & (0x80u8 >> 4u8) != 0),
        (a & (0x80u8 >> 5u8) != 0) == (b & (0x80u8 >> 5u8) != 0),
        (a & (0x80u8 >> 6u8) != 0) == (b & (0x80u8 >> 6u8) != 0),
        (a & (0x80u8 >> 7u8) != 0) == (b & (0x80u8 >> 7u8) != 0),
    ensures
        a == b,
{
}

/// A field is given by its bits.
pub proof fn lemma_field_unique(bf: Seq<u8>, n: int, pred: spec_fn(int) -> bool)
    requires
        is_field(bf, n, pred),
    ensures
        bf == field_of(n, pred),
{
    let other = field_of(n, pred);
    assert(is_field(other, n, pred));
    assert forall|k: int| 0 <= k < bf.len() implies bf[k] == other[k] by {
        assert forall|j: int| 0 <= j < 8 implies #[trigger] bit_at(bf, 8 * k + j) == bit_at(
            other,
            8 * k + j,
        ) by {}
        assert(bit_at(bf, 8 * k + 0) == bit_at(other, 8 * k + 0));
        assert(bit_at(bf, 8 * k + 1) == bit_at(other, 8 * k + 1));
        assert(bit_at(bf, 8 * k + 2) == bit_at(other, 8 * k + 2));
        assert(bit_at(bf, 8 * k + 3) == bit_at(other, 8 * k + 3));
        assert(bit_at(bf, 8 * k + 4) == bit_at(other, 8 * k + 4));
        assert(bit_at(bf, 8 * k + 5) == bit_at(other, 8 * k + 5));
        assert(bit_at(bf, 8 * k + 6) == bit_at(other, 8 * k + 6));
        assert(bit_at(bf, 8 * k + 7) == bit_at(other, 8 * k + 7));
        lemma_byte_eq(bf[k], other[k]);
    }
    assert(bf =~= other);
}

/// A field of `n` clear bits.
pub fn clear_bits(n: usize) -> (bf: Vec<u8>)
    ensures
        bf@.len() == byte_count(n as int),
        forall|i: int| !bit_at(bf@, i),
{
    let mut bf: Vec<u8> = Vec::new();
    let len: usize = n / 8 + if n % 8 == 0 { 0 } else { 1 };
    while bf.len() < len
        invariant
            bf@.len() <= len,
            forall|k: int| 0 <= k < bf@.len() ==> bf@[k] == 0,
        decreases len - bf@.len(),
    {
        bf.push(0);
    }
    proof {
        lemma_zero_bits(bf@);
    }
    bf
}

proof fn lemma_high_bit(b: u8, k: u8)
    by (bit_vector)
    requires
        k < 8,
    ensures
        (b & (0x80u8 >> k) != 0) <==> (b >> ((7 - k) as u8)) % 2 == 1,
{
}

/// Bits are counted from the highest bit of the first byte: bit 0 weighs 128, bit 7
/// weighs 1, and bit 8 is the highest of the second byte.
pub proof fn law_first_bit_is_the_highest(bf: Seq<u8>, k: int, j: int)
    requires
        0 <= k < bf.len(),
        0 <= j < 8,
    ensures
        bit_at(bf, 8 * k + j) <==> (bf[k] >> ((7 - j) as u8)) % 2 == 1,
        !bit_at(bf, 8 * bf.len() + j),
{
    lemma_high_bit(bf[k], j as u8);
    assert((8 * k + j) / 8 == k && (8 * k + j) % 8 == j);
    assert((8 * bf.len() + j) / 8 == bf.len());
}

proof fn lemma_field_upto(n: int, k: int, pred: spec_fn(int) -> bool) -> (bf: Seq<u8>)
    requires
        0 <= k <= n,
    ensures
        bf.len() == byte_count(n),
        forall|i: int| 0 <= i ==> #[trigger] bit_at(bf, i) == (i < k && pred(i)),
    decreases k,
{
    if k == 0 {
        let bf = Seq::new(byte_count(n) as nat, |i: int| 0u8);
        lemma_zero_bits(bf);
        bf
    } else {
        let before = lemma_field_upto(n, k - 1, pred);
        if pred(k - 1) {
            let i = k - 1;
            let b = before[i / 8];
            let m = (i % 8) as u8;
            let bf = before.update(i / 8, b | (0x80u8 >> m));
            assert forall|j: int| 0 <= j implies #[trigger] bit_at(bf, j) == (j < k && pred(j)) by {
                if j / 8 == i / 8 {
                    lemma_or_mask(b, m, (j % 8) as u8);
                    assert(j == i <==> j % 8 == i % 8);
                }
                assert(bit_at(before, j) == (j < k - 1 && pred(j)));
            }
            bf
        } else {
            assert forall|j: int| 0 <= j implies #[trigger] bit_at(before, j) == (j < k && pred(j)) by {
                assert(bit_at(before, j) == (j < k - 1 && pred(j)));
            }
            before
        }
    }
}

/// A field has one bit per place, set exactly where the condition holds, in as few bytes
/// as that takes. The bits that are left over are clear.
pub proof fn law_field_has_its_bits(n: int, pred: spec_fn(int) -> bool, i: int)
    requires
        0 <= n,
        0 <= i,
    ensures
        bit_at(field_of(n, pred), i) <==> i < n && pred(i),
        8 * field_of(n, pred).len() >= n,
        8 * field_of(n, pred).len() < n + 8,
{
    let bf = lemma_field_upto(n, n, pred);
    assert(is_field(bf, n, pred));
}

} // verus!
