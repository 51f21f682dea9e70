//! The two checksums of an SD card.
//!
//! Both are remainders of a division of polynomials over bits: the bits of the
//! message come in from the most significant one on, and the register holds the
//! remainder of what came in so far.

use vstd::prelude::*;

verus! {

/// The remainder for a command with one more bit, modulo `x^7 + x^3 + 1`.
pub open spec fn shift7(reg: u8, bit: bool) -> u8 {
    if ((reg & 0x40) != 0) != bit {
        ((reg << 1) ^ 0x09) & 0x7F
    } else {
        (reg << 1) & 0x7F
    }
}

/// The remainder for a command with the first `n` bits of one more byte.
pub open spec fn shift7_bits(reg: u8, byte: u8, n: nat) -> u8
    decreases n,
{
    if n == 0 {
        reg
    } else {
        let before = shift7_bits(reg, byte, (n - 1) as nat);
        shift7(before, (byte << ((n - 1) as u8)) & 0x80 != 0)
    }
}

/// The remainder for a command.
pub open spec fn remainder7(data: Seq<u8>) -> u8
    decreases data.len(),
{
    if data.len() == 0 {
        0
    } else {
        shift7_bits(remainder7(data.drop_last()), data.last(), 8)
    }
}

/// The checksum of a command, as it is sent: the remainder, then the stop bit.
pub open spec fn checksum7(data: Seq<u8>) -> u8 {
    (remainder7(data) << 1) | 1
}

/// The remainder for a data block with one more bit, modulo
/// `x^16 + x^12 + x^5 + 1`.
pub open spec fn shift16(reg: u16, bit: bool) -> u16 {
    if ((reg & 0x8000) != 0) != bit {
        (reg << 1) ^ 0x1021
    } else {
        reg << 1
    }
}

/// The remainder for a data block with one more byte.
pub open spec fn shift16_byte(reg: u16, byte: u8) -> u16 {
    let r = shift16(reg, byte & 0x80 != 0);
    let r = shift16(r, byte & 0x40 != 0);
    let r = shift16(r, byte & 0x20 != 0);
    let r = shift16(r, byte & 0x10 != 0);
    let r = shift16(r, byte & 0x08 != 0);
    let r = shift16(r, byte & 0x04 != 0);
    let r = shift16(r, byte & 0x02 != 0);
    shift16(r, byte & 0x01 != 0)
}

/// The checksum of a data block.
pub open spec fn checksum16(data: Seq<u8>) -> u16
    decreases data.len(),
{
    if data.len() == 0 {
        0
    } else {
        shift16_byte(checksum16(data.drop_last()), data.last())
    }
}

/// Perform the 7-bit CRC used on the SD card
pub fn crc7(data: &[u8]) -> (sum: u8)
    ensures
        sum == checksum7(data@),
{
    let mut crc: u8 = 0;
    let mut i: usize = 0;
    assert(0u8 & 0x7F == 0) by (bit_vector);
    while i < data.len()
        invariant
            i <= data@.len(),
            crc & 0x7F == remainder7(data@.take(i as int)),
        decreases data@.len() - i,
    {
        let byte: u8 = data[i];
        let ghost reg = remainder7(data@.take(i as int));
        let mut d: u8 = byte;
        let mut bit: u8 = 0;
        assert(byte << 0u8 == byte) by (bit_vector);
        while bit < 8
            invariant
                bit <= 8,
                crc & 0x7F == shift7_bits(reg, byte, bit as nat),
                d == byte << bit,
            decreases 8 - bit,
        {
            let ghost before = shift7_bits(reg, byte, bit as nat);
            let shifted: u8 = crc << 1;
            let next: u8 = if ((d & 0x80) ^ (shifted & 0x80)) != 0 {
                shifted ^ 0x09
            } else {
                shifted
            };
            proof {
                assert(next & 0x7F == shift7(before, d & 0x80 != 0)
                    && (bit < 8 ==> d << 1u8 == byte << ((bit + 1) as u8))) by (bit_vector)
                    requires
                        crc & 0x7F == before,
                        shifted == crc << 1,
                        d == byte << bit,
                        next == if ((d & 0x80) ^ (shifted & 0x80)) != 0 {
                            shifted ^ 0x09
                        } else {
                            shifted
                        },
                ;
            }
            crc = next;
            d = d << 1;
            bit = bit + 1;
        }
        assert(data@.take(i + 1).drop_last() =~= data@.take(i as int));
        i = i + 1;
    }
    assert(data@.take(i as int) =~= data@);
    assert((crc << 1) | 1 == ((crc & 0x7F) << 1) | 1) by (bit_vector);
    (crc << 1) | 1
}

/// The remainder for a data block with one more byte, all bits of it at once.
spec fn mix16(reg: u16, byte: u8) -> u16 {
    let mixed = (((reg >> 8) & 0xFF) | (reg << 8)) ^ (byte as u16);
    let low = mixed ^ ((mixed & 0xFF) >> 4);
    let high = low ^ (low << 12);
    high ^ ((high & 0xFF) << 5)
}

/// The bits of a byte can be taken one after the other, or all at once.
proof fn lemma_mix16(reg: u16, byte: u8)
    ensures
        mix16(reg, byte) == shift16_byte(reg, byte),
{
    assert(mix16(reg, byte) == shift16_byte(reg, byte)) by (bit_vector);
}

/// Perform the X25 CRC calculation, as used for data blocks.
pub fn crc16(data: &[u8]) -> (sum: u16)
    ensures
        sum == checksum16(data@),
{
    let mut crc: u16 = 0;
    let mut i: usize = 0;
    while i < data.len()
        invariant
            i <= data@.len(),
            crc == checksum16(data@.take(i as int)),
        decreases data@.len() - i,
    {
        let byte: u8 = data[i];
        let swapped: u16 = ((crc >> 8) & 0xFF) | (crc << 8);
        let mixed: u16 = swapped ^ (byte as u16);
        let low: u16 = mixed ^ ((mixed & 0xFF) >> 4);
        let high: u16 = low ^ (low << 12);
        let next: u16 = high ^ ((high & 0xFF) << 5);
        proof {
            lemma_mix16(crc, byte);
        }
        assert(data@.take(i + 1).drop_last() =~= data@.take(i as int));
        crc = next;
        i = i + 1;
    }
    assert(data@.take(i as int) =~= data@);
    crc
}

/// The checksum of a command always has the stop bit.
pub proof fn law_crc7_has_the_stop_bit(data: Seq<u8>)
    ensures
        checksum7(data) & 1 == 1,
{
    let reg = remainder7(data);
    assert(((reg << 1) | 1) & 1 == 1) by (bit_vector);
}

/// A remainder fits in seven bits, and what was different before a bit stays
/// different behind it.
proof fn lemma_shift7(a: u8, b: u8, bit: bool)
    requires
        a < 0x80,
        b < 0x80,
    ensures
        shift7(a, bit) < 0x80,
        shift7(a, bit) == shift7(b, bit) ==> a == b,
        shift7(a, bit) != shift7(a, !bit),
{
    assert(shift7(a, bit) < 0x80 && (shift7(a, bit) == shift7(b, bit) ==> a == b) && shift7(
        a,
        bit,
    ) != shift7(a, !bit)) by (bit_vector)
        requires
            a < 0x80,
            b < 0x80,
    ;
}

/// What was different before some bits stays different behind them.
proof fn lemma_shift7_bits(a: u8, b: u8, byte: u8, n: nat)
    requires
        a < 0x80,
        b < 0x80,
    ensures
        shift7_bits(a, byte, n) < 0x80,
        shift7_bits(b, byte, n) < 0x80,
        shift7_bits(a, byte, n) == shift7_bits(b, byte, n) ==> a == b,
    decreases n,
{
    if n > 0 {
        let m = (n - 1) as nat;
        let bit = (byte << (m as u8)) & 0x80 != 0;
        lemma_shift7_bits(a, b, byte, m);
        lemma_shift7(shift7_bits(a, byte, m), shift7_bits(b, byte, m), bit);
        lemma_shift7(shift7_bits(b, byte, m), shift7_bits(a, byte, m), bit);
    }
}

/// A byte with its bit `k` changed, counted from the most significant one, makes a
/// difference from that bit on.
proof fn lemma_flip7(reg: u8, byte: u8, k: u8, n: nat)
    requires
        reg < 0x80,
        k < 8,
        n <= 8,
    ensures
        shift7_bits(reg, byte, n) < 0x80,
        shift7_bits(reg, byte ^ (0x80u8 >> k), n) < 0x80,
        shift7_bits(reg, byte, n) == shift7_bits(reg, byte ^ (0x80u8 >> k), n) <==> n <= k,
    decreases n,
{
    if n > 0 {
        let m = (n - 1) as nat;
        let j = m as u8;
        let other = byte ^ (0x80u8 >> k);
        lemma_flip7(reg, byte, k, m);
        assert(((other << j) & 0x80 != 0) == (((byte << j) & 0x80 != 0) != (j == k))) by (bit_vector)
            requires
                other == byte ^ (0x80u8 >> k),
                k < 8,
                j < 8,
        ;
        let a = shift7_bits(reg, byte, m);
        let b = shift7_bits(reg, other, m);
        let bit = (byte << j) & 0x80 != 0;
        lemma_shift7(a, b, bit);
        lemma_shift7(b, a, bit);
        lemma_shift7(a, a, bit);
        lemma_shift7(b, b, !bit);
    }
}

/// A remainder fits in seven bits.
proof fn lemma_remainder7(data: Seq<u8>)
    ensures
        remainder7(data) < 0x80,
    decreases data.len(),
{
    if data.len() > 0 {
        lemma_remainder7(data.drop_last());
        let reg = remainder7(data.drop_last());
        lemma_shift7_bits(reg, reg, data.last(), 8);
    }
}

/// One changed bit makes a difference to the remainder.
proof fn lemma_flip_remainder7(data: Seq<u8>, i: int, k: u8)
    requires
        0 <= i < data.len(),
        k < 8,
    ensures
        remainder7(data.update(i, data[i] ^ (0x80u8 >> k))) != remainder7(data),
    decreases data.len(),
{
    let other = data.update(i, data[i] ^ (0x80u8 >> k));
    lemma_remainder7(data.drop_last());
    lemma_remainder7(other.drop_last());
    if i == data.len() - 1 {
        assert(other.drop_last() =~= data.drop_last());
        lemma_flip7(remainder7(data.drop_last()), data.last(), k, 8);
    } else {
        lemma_flip_remainder7(data.drop_last(), i, k);
        assert(other.drop_last() =~= data.drop_last().update(i, data[i] ^ (0x80u8 >> k)));
        lemma_shift7_bits(
            remainder7(data.drop_last()),
            remainder7(other.drop_last()),
            data.last(),
            8,
        );
    }
}

/// A command with one changed bit, bit `k` of byte `i`, has another checksum.
pub proof fn law_crc7_sees_a_changed_bit(data: Seq<u8>, i: int, k: u8)
    requires
        0 <= i < data.len(),
        k < 8,
    ensures
        checksum7(data.update(i, data[i] ^ (0x80u8 >> k))) != checksum7(data),
{
    let other = data.update(i, data[i] ^ (0x80u8 >> k));
    lemma_flip_remainder7(data, i, k);
    lemma_remainder7(data);
    lemma_remainder7(other);
    let a = remainder7(data);
    let b = remainder7(other);
    assert(((a << 1) | 1) == ((b << 1) | 1) ==> a == b) by (bit_vector)
        requires
            a < 0x80,
            b < 0x80,
    ;
}

/// What was different before a byte stays different behind it, and two bytes make a
/// difference.
proof fn lemma_shift16_byte(a: u16, b: u16, x: u8, y: u8)
    ensures
        shift16_byte(a, x) == shift16_byte(b, x) ==> a == b,
        shift16_byte(a, x) == shift16_byte(a, y) ==> x == y,
{
    assert((shift16_byte(a, x) == shift16_byte(b, x) ==> a == b) && (shift16_byte(a, x)
        == shift16_byte(a, y) ==> x == y)) by (bit_vector);
}

/// A data block with one changed byte has another checksum.
pub proof fn law_crc16_sees_a_changed_byte(data: Seq<u8>, i: int, byte: u8)
    requires
        0 <= i < data.len(),
        byte != data[i],
    ensures
        checksum16(data.update(i, byte)) != checksum16(data),
    decreases data.len(),
{
    let other = data.update(i, byte);
    if i == data.len() - 1 {
        assert(other.drop_last() =~= data.drop_last());
        let reg = checksum16(data.drop_last());
        lemma_shift16_byte(reg, reg, data.last(), byte);
    } else {
        law_crc16_sees_a_changed_byte(data.drop_last(), i, byte);
        assert(other.drop_last() =~= data.drop_last().update(i, byte));
        lemma_shift16_byte(
            checksum16(data.drop_last()),
            checksum16(other.drop_last()),
            data.last(),
            byte,
        );
    }
}

/// The bits in which two messages differ.
pub open spec fn difference(a: Seq<u8>, b: Seq<u8>) -> Seq<u8> {
    Seq::new(a.len(), |i: int| a[i] ^ b[i])
}

/// The difference of two remainders behind some bits is the remainder of the difference.
proof fn lemma_linear7_bits(a: u8, b: u8, x: u8, y: u8, n: nat)
    requires
        n <= 8,
    ensures
        shift7_bits(a ^ b, x ^ y, n) == shift7_bits(a, x, n) ^ shift7_bits(b, y, n),
    decreases n,
{
    if n > 0 {
        let m = (n - 1) as nat;
        let j = m as u8;
        lemma_linear7_bits(a, b, x, y, m);
        let p = shift7_bits(a, x, m);
        let q = shift7_bits(b, y, m);
        assert(shift7(p ^ q, ((x ^ y) << j) & 0x80 != 0) == shift7(p, (x << j) & 0x80 != 0)
            ^ shift7(q, (y << j) & 0x80 != 0)) by (bit_vector);
    }
}

/// The difference of two remainders is the remainder of the difference.
proof fn lemma_linear7(a: Seq<u8>, b: Seq<u8>)
    requires
        a.len() == b.len(),
    ensures
        remainder7(difference(a, b)) == remainder7(a) ^ remainder7(b),
    decreases a.len(),
{
    if a.len() > 0 {
        lemma_linear7(a.drop_last(), b.drop_last());
        assert(difference(a, b).drop_last() =~= difference(a.drop_last(), b.drop_last()));
        lemma_linear7_bits(
            remainder7(a.drop_last()),
            remainder7(b.drop_last()),
            a.last(),
            b.last(),
            8,
        );
    } else {
        assert(0u8 ^ 0u8 == 0) by (bit_vector);
    }
}

/// The checksum of a command is linear but for its stop bit: two commands of one length
/// differ in their checksums as the checksum of their difference says.
pub proof fn law_crc7_is_linear(a: Seq<u8>, b: Seq<u8>)
    requires
        a.len() == b.len(),
    ensures
        checksum7(difference(a, b)) == (checksum7(a) ^ checksum7(b)) | 1,
{
    lemma_linear7(a, b);
    let p = remainder7(a);
    let q = remainder7(b);
    assert(((p ^ q) << 1) | 1 == (((p << 1) | 1) ^ ((q << 1) | 1)) | 1) by (bit_vector);
}

/// The difference of two remainders behind a byte is the remainder of the difference.
proof fn lemma_linear16_byte(a: u16, b: u16, x: u8, y: u8)
    ensures
        shift16_byte(a ^ b, x ^ y) == shift16_byte(a, x) ^ shift16_byte(b, y),
{
    lemma_mix16(a, x);
    lemma_mix16(b, y);
    lemma_mix16(a ^ b, x ^ y);
    assert(mix16(a ^ b, x ^ y) == mix16(a, x) ^ mix16(b, y)) by (bit_vector);
}

/// The checksum of a data block is linear: two blocks of one length differ in their
/// checksums as the checksum of their difference says.
pub proof fn law_crc16_is_linear(a: Seq<u8>, b: Seq<u8>)
    requires
        a.len() == b.len(),
    ensures
        checksum16(difference(a, b)) == checksum16(a) ^ checksum16(b),
    decreases a.len(),
{
    if a.len() > 0 {
        law_crc16_is_linear(a.drop_last(), b.drop_last());
        assert(difference(a, b).drop_last() =~= difference(a.drop_last(), b.drop_last()));
        lemma_linear16_byte(
            checksum16(a.drop_last()),
            checksum16(b.drop_last()),
            a.last(),
            b.last(),
        );
    } else {
        assert(0u16 ^ 0u16 == 0) by (bit_vector);
    }
}

/// A remainder with its own high byte behind it loses that byte.
proof fn lemma_own_byte(reg: u16, byte: u8)
    ensures
        reg / 0x100 == byte ==> shift16_byte(reg, byte) == reg << 8,
        (reg << 8) / 0x100 == reg % 0x100,
        (reg << 8) << 8 == 0,
{
    lemma_mix16(reg, byte);
    assert((reg / 0x100 == byte ==> mix16(reg, byte) == reg << 8) && (reg << 8) / 0x100 == reg
        % 0x100 && (reg << 8) << 8 == 0) by (bit_vector);
}

/// A data block with its checksum behind it, most significant byte first, has the checksum
/// 0.
pub proof fn law_a_block_and_its_checksum_cancel_out(data: Seq<u8>)
    ensures
        ({
            let sum = checksum16(data);
            checksum16(data.push((sum / 0x100) as u8).push((sum % 0x100) as u8)) == 0
        }),
{
    let sum = checksum16(data);
    let high = data.push((sum / 0x100) as u8);
    let all = high.push((sum % 0x100) as u8);
    assert(high.drop_last() =~= data);
    assert(all.drop_last() =~= high);
    lemma_own_byte(sum, (sum / 0x100) as u8);
    lemma_own_byte(sum << 8, (sum % 0x100) as u8);
    assert(checksum16(high) == sum << 8);
}

/// The remainder for a command with one more byte.
spec fn shift7_byte(reg: u8, byte: u8) -> u8 {
    let r = shift7(reg, byte & 0x80 != 0);
    let r = shift7(r, byte & 0x40 != 0);
    let r = shift7(r, byte & 0x20 != 0);
    let r = shift7(r, byte & 0x10 != 0);
    let r = shift7(r, byte & 0x08 != 0);
    let r = shift7(r, byte & 0x04 != 0);
    let r = shift7(r, byte & 0x02 != 0);
    shift7(r, byte & 0x01 != 0)
}

/// Eight bits are a byte.
proof fn lemma_shift7_byte(reg: u8, byte: u8)
    ensures
        shift7_bits(reg, byte, 8) == shift7_byte(reg, byte),
{
    assert((byte << 0u8) & 0x80 == byte & 0x80 && ((byte << 1u8) & 0x80 != 0) == (byte & 0x40 != 0)
        && ((byte << 2u8) & 0x80 != 0) == (byte & 0x20 != 0) && ((byte << 3u8) & 0x80 != 0) == (byte
        & 0x10 != 0) && ((byte << 4u8) & 0x80 != 0) == (byte & 0x08 != 0) && ((byte << 5u8) & 0x80
        != 0) == (byte & 0x04 != 0) && ((byte << 6u8) & 0x80 != 0) == (byte & 0x02 != 0) && ((byte
        << 7u8) & 0x80 != 0) == (byte & 0x01 != 0)) by (bit_vector);
    let r1 = shift7_bits(reg, byte, 1);
    let r2 = shift7_bits(reg, byte, 2);
    let r3 = shift7_bits(reg, byte, 3);
    let r4 = shift7_bits(reg, byte, 4);
    let r5 = shift7_bits(reg, byte, 5);
    let r6 = shift7_bits(reg, byte, 6);
    let r7 = shift7_bits(reg, byte, 7);
    assert(shift7_bits(reg, byte, 0) == reg);
    assert(r1 == shift7(reg, byte & 0x80 != 0));
    assert(r2 == shift7(r1, byte & 0x40 != 0));
    assert(r3 == shift7(r2, byte & 0x20 != 0));
    assert(r4 == shift7(r3, byte & 0x10 != 0));
    assert(r5 == shift7(r4, byte & 0x08 != 0));
    assert(r6 == shift7(r5, byte & 0x04 != 0));
    assert(r7 == shift7(r6, byte & 0x02 != 0));
}

/// The checksum of a command, byte by byte: with one more byte it is the remainder of the
/// division of what was there, as a polynomial, by `x^7 + x^3 + 1`. So it is the checksum of
/// every command of whatever length.
pub proof fn law_crc7_takes_in_a_byte(data: Seq<u8>, byte: u8)
    ensures
        checksum7(Seq::empty()) == 1,
        ({
            let mixed = (byte as u16) ^ ((checksum7(data) & 0xFE) as u16);
            let times = mixed ^ (mixed << 3);
            let over = times >> 7;
            checksum7(data.push(byte)) == (((times & 0x7F) ^ over ^ (over << 3)) << 1) | 1
        }),
{
    let reg = remainder7(data);
    lemma_remainder7(data);
    lemma_shift7_byte(reg, byte);
    assert(data.push(byte).drop_last() =~= data);
    let next = shift7_byte(reg, byte);
    let all = checksum7(data);
    let mixed = (byte as u16) ^ ((all & 0xFE) as u16);
    let times = mixed ^ (mixed << 3);
    let over = times >> 7;
    assert((0u8 << 1) | 1 == 1 && ((shift7_byte(reg, byte) << 1) | 1) as u16 == (((times & 0x7F)
        ^ over ^ (over << 3)) << 1) | 1) by (bit_vector)
        requires
            reg < 0x80,
            all == (reg << 1) | 1,
            mixed == (byte as u16) ^ ((all & 0xFE) as u16),
            times == mixed ^ (mixed << 3),
            over == times >> 7,
    ;
}

/// The checksum of a data block, byte by byte: with one more byte it is the remainder of the
/// division of what was there, as a polynomial, by `x^16 + x^12 + x^5 + 1`. So it is the
/// checksum of every block of whatever length.
pub proof fn law_crc16_takes_in_a_byte(data: Seq<u8>, byte: u8)
    ensures
        checksum16(Seq::empty()) == 0,
        ({
            let sum = checksum16(data);
            let over = (sum >> 8) ^ (byte as u16);
            let over = over ^ (over >> 4);
            checksum16(data.push(byte)) == (sum << 8) ^ over ^ (over << 5) ^ (over << 12)
        }),
{
    let sum = checksum16(data);
    let high = (sum >> 8) ^ (byte as u16);
    let over = high ^ (high >> 4);
    assert(data.push(byte).drop_last() =~= data);
    lemma_mix16(sum, byte);
    assert(mix16(sum, byte) == (sum << 8) ^ over ^ (over << 5) ^ (over << 12)) by (bit_vector)
        requires
            high == (sum >> 8) ^ (byte as u16),
            over == high ^ (high >> 4),
    ;
}

} // verus!
