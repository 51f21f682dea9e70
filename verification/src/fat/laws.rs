//! What holds of a table as a whole.

use vstd::prelude::*;

use crate::fat::entry;
use crate::fat::entry::{FatType, FatValue};

verus! {

/// A number that was stored in two bytes is read back from them.
proof fn lemma_store16(bytes: Seq<u8>, at: int, word: int)
    requires
        0 <= at,
        at + 2 <= bytes.len(),
        0 <= word < 0x1_0000,
    ensures
        entry::le16(entry::store16(bytes, at, word), at) == word,
        entry::store16(bytes, at, word).len() == bytes.len(),
{
}

/// A number that was stored in four bytes is read back from them.
proof fn lemma_store32(bytes: Seq<u8>, at: int, word: int)
    requires
        0 <= at,
        at + 4 <= bytes.len(),
        0 <= word < 0x1_0000_0000,
    ensures
        entry::le32(entry::store32(bytes, at, word), at) == word,
        entry::store32(bytes, at, word).len() == bytes.len(),
{
}

/// Both halves of the two bytes that hold an entry of a FAT12 after it was put in
/// place.
proof fn lemma_pack(cluster: int, old_packed: u16, entry: u32)
    ensures
        entry::unpack(
            FatType::Fat12,
            cluster,
            entry::pack(cluster, old_packed, entry) as int,
        ) == entry % 0x1000,
        cluster % 2 == 0 && entry < 0x1000 ==> entry::pack(cluster, old_packed, entry) / 0x1000 == old_packed
            / 0x1000,
        cluster % 2 != 0 ==> entry::pack(cluster, old_packed, entry) % 0x10 == old_packed % 0x10,
{
    assert(((old_packed & 0xF000) | (entry as u16)) % 0x1000 == entry % 0x1000 && (entry < 0x1000
        ==> ((old_packed & 0xF000) | (entry as u16)) / 0x1000 == old_packed / 0x1000) && ((
    old_packed & 0x000F) | ((entry as u16) << 4)) / 0x10 == entry % 0x1000 && ((old_packed
        & 0x000F) | ((entry as u16) << 4)) % 0x10 == old_packed % 0x10) by (bit_vector);
}

/// The number of a FAT32 entry after it was put in place.
proof fn lemma_keep_reserved(old_word: u32, entry: u32)
    requires
        entry < 0x1000_0000,
    ensures
        (entry | (old_word & 0xF000_0000)) % 0x1000_0000 == entry,
        (entry | (old_word & 0xF000_0000)) / 0x1000_0000 == old_word / 0x1000_0000,
{
    assert(entry < 0x1000_0000 ==> (entry | (old_word & 0xF000_0000)) % 0x1000_0000 == entry && (
    entry | (old_word & 0xF000_0000)) / 0x1000_0000 == old_word / 0x1000_0000) by (bit_vector);
}

/// A table keeps its length.
pub proof fn lemma_put_keeps_len(fat_type: FatType, bytes: Seq<u8>, cluster: int, value: FatValue)
    requires
        0 <= cluster,
        entry::fits(fat_type, bytes.len(), cluster),
    ensures
        entry::put(fat_type, bytes, cluster, value).len() == bytes.len(),
{
}

/// What setting the entry of a cluster makes of it as a number.
pub proof fn lemma_put_raw(fat_type: FatType, bytes: Seq<u8>, cluster: int, value: FatValue)
    requires
        0 <= cluster,
        entry::fits(fat_type, bytes.len(), cluster),
        entry::code(fat_type, value) < entry::range(fat_type),
    ensures
        entry::put(fat_type, bytes, cluster, value).len() == bytes.len(),
        entry::raw(fat_type, entry::put(fat_type, bytes, cluster, value), cluster) % entry::range(fat_type) == entry::code(
            fat_type,
            value,
        ),
        entry::raw(fat_type, entry::put(fat_type, bytes, cluster, value), cluster) / entry::range(fat_type) == entry::raw(
            fat_type,
            bytes,
            cluster,
        ) / entry::range(fat_type),
{
    let at = entry::offset(fat_type, cluster);
    let old_word = entry::word(fat_type, bytes, cluster);
    let new = entry::new_word(fat_type, cluster, old_word as u32, value);
    match fat_type {
        FatType::Fat12 => {
            lemma_pack(cluster, old_word as u16, entry::code(fat_type, value));
            lemma_store16(bytes, at, new as int);
        },
        FatType::Fat16 => {
            lemma_store16(bytes, at, new as int);
        },
        FatType::Fat32 => {
            lemma_keep_reserved(old_word as u32, entry::code(fat_type, value));
            lemma_store32(bytes, at, new as int);
        },
    }
}

/// Reading the entry of a cluster gives back what was written to it.
///
/// This holds of every value that an entry can hold. A FAT32 cluster with a
/// special number reads as bad unless the end of a chain was written to it.
pub proof fn law_read_gives_what_was_written(
    fat_type: FatType,
    bytes: Seq<u8>,
    cluster: int,
    written: FatValue,
)
    requires
        0 <= cluster,
        entry::fits(fat_type, bytes.len(), cluster),
        entry::storable(fat_type, written),
        fat_type is Fat32 && entry::special(fat_type, cluster) ==> written is Bad || written is EndOfChain,
    ensures
        entry::value(fat_type, entry::put(fat_type, bytes, cluster, written), cluster) == written,
{
    lemma_put_raw(fat_type, bytes, cluster, written);
}

/// The half bytes of a number that keeps the high or the low four bits.
proof fn lemma_half_bytes(low: int, high: int, new: int)
    requires
        0 <= low < 0x100,
        0 <= high < 0x100,
        0 <= new < 0x1_0000,
    ensures
        new / 0x1000 == (low + 0x100 * high) / 0x1000 ==> (new / 0x100 % 0x100) / 0x10 == high
            / 0x10,
        new % 0x10 == (low + 0x100 * high) % 0x10 ==> (new % 0x100) % 0x10 == low % 0x10,
{
    assert((low + 0x100 * high) / 0x1000 == high / 0x10);
    assert(new / 0x1000 == new / 0x100 / 0x10);
    assert(new / 0x100 < 0x100);
    assert((low + 0x100 * high) % 0x10 == low % 0x10);
    assert((new % 0x100) % 0x10 == new % 0x10);
}

/// The entry in two bytes depends on a half byte and a byte.
proof fn lemma_shared(low: int, high: int)
    requires
        0 <= low < 0x100,
        0 <= high < 0x100,
    ensures
        (low + 0x100 * high) / 0x10 == low / 0x10 + 0x10 * high,
        (low + 0x100 * high) % 0x1000 == low + 0x100 * (high % 0x10),
{
}

/// Two bytes of a FAT12 that keep the neighbour's half byte keep every entry but
/// one.
proof fn lemma_put12_keeps(bytes: Seq<u8>, cluster: int, new: int, other: int)
    requires
        0 <= cluster,
        0 <= other,
        other != cluster,
        entry::fits(FatType::Fat12, bytes.len(), cluster),
        entry::fits(FatType::Fat12, bytes.len(), other),
        0 <= new < 0x1_0000,
        cluster % 2 == 0 ==> new / 0x1000 == entry::word(FatType::Fat12, bytes, cluster) / 0x1000,
        cluster % 2 != 0 ==> new % 0x10 == entry::word(FatType::Fat12, bytes, cluster) % 0x10,
    ensures
        entry::raw(
            FatType::Fat12,
            entry::put_word(FatType::Fat12, bytes, cluster, new),
            other,
        ) == entry::raw(FatType::Fat12, bytes, other),
{
    let at = entry::offset(FatType::Fat12, cluster);
    let there = entry::offset(FatType::Fat12, other);
    let after = entry::put_word(FatType::Fat12, bytes, cluster, new);
    lemma_half_bytes(bytes[at] as int, bytes[at + 1] as int, new);
    assert(after[at] == new % 0x100);
    assert(after[at + 1] == new / 0x100 % 0x100);
    assert(forall|i: int| 0 <= i < bytes.len() && i != at && i != at + 1 ==> after[i] == bytes[i]);
    lemma_shared(bytes[there] as int, bytes[there + 1] as int);
    lemma_shared(after[there] as int, after[there + 1] as int);
    if cluster % 2 == 0 && other == cluster + 1 {
        assert(there == at + 1);
    } else if cluster % 2 != 0 && other == cluster - 1 {
        assert(there == at - 1);
    } else {
        assert(there + 1 < at || at + 1 < there);
    }
}

/// Two bytes of a FAT16 hold one entry.
proof fn lemma_put16_keeps(bytes: Seq<u8>, cluster: int, new: int, other: int)
    requires
        0 <= cluster,
        0 <= other,
        other != cluster,
        entry::fits(FatType::Fat16, bytes.len(), cluster),
        entry::fits(FatType::Fat16, bytes.len(), other),
    ensures
        entry::raw(
            FatType::Fat16,
            entry::put_word(FatType::Fat16, bytes, cluster, new),
            other,
        ) == entry::raw(FatType::Fat16, bytes, other),
{
}

/// Four bytes of a FAT32 hold one entry.
proof fn lemma_put32_keeps(bytes: Seq<u8>, cluster: int, new: int, other: int)
    requires
        0 <= cluster,
        0 <= other,
        other != cluster,
        entry::fits(FatType::Fat32, bytes.len(), cluster),
        entry::fits(FatType::Fat32, bytes.len(), other),
    ensures
        entry::raw(
            FatType::Fat32,
            entry::put_word(FatType::Fat32, bytes, cluster, new),
            other,
        ) == entry::raw(FatType::Fat32, bytes, other),
{
    let there = entry::offset(FatType::Fat32, other);
    let after = entry::put_word(FatType::Fat32, bytes, cluster, new);
    assert(after[there] == bytes[there]);
    assert(after[there + 1] == bytes[there + 1]);
    assert(after[there + 2] == bytes[there + 2]);
    assert(after[there + 3] == bytes[there + 3]);
}

/// Writing the entry of a cluster changes no other entry: not that of a
/// neighbour that shares a byte with it, and the table keeps its length.
///
/// Only a number that is too large for an even entry of a FAT12 spills over into the
/// odd one behind it.
pub proof fn law_write_keeps_the_other_entries(
    fat_type: FatType,
    bytes: Seq<u8>,
    cluster: int,
    written: FatValue,
    other: int,
)
    requires
        0 <= cluster,
        0 <= other,
        other != cluster,
        entry::fits(fat_type, bytes.len(), cluster),
        entry::fits(fat_type, bytes.len(), other),
        fat_type is Fat12 && cluster % 2 == 0 ==> entry::code(fat_type, written) < entry::range(
            fat_type,
        ),
    ensures
        entry::put(fat_type, bytes, cluster, written).len() == bytes.len(),
        entry::raw(fat_type, entry::put(fat_type, bytes, cluster, written), other) == entry::raw(
            fat_type,
            bytes,
            other,
        ),
{
    let new = entry::new_word(
        fat_type,
        cluster,
        entry::word(fat_type, bytes, cluster) as u32,
        written,
    ) as int;
    match fat_type {
        FatType::Fat12 => {
            lemma_pack(
                cluster,
                entry::le16(bytes, entry::offset(fat_type, cluster)) as u16,
                entry::code(fat_type, written),
            );
            lemma_put12_keeps(bytes, cluster, new, other);
        },
        FatType::Fat16 => {
            lemma_put16_keeps(bytes, cluster, new, other);
        },
        FatType::Fat32 => {
            lemma_put32_keeps(bytes, cluster, new, other);
        },
    }
}

/// Writing the entry of a FAT32 cluster keeps the reserved bits of the entry.
pub proof fn law_write_keeps_the_reserved_bits(bytes: Seq<u8>, cluster: int, written: FatValue)
    requires
        0 <= cluster,
        entry::fits(FatType::Fat32, bytes.len(), cluster),
        entry::code(FatType::Fat32, written) < entry::range(FatType::Fat32),
    ensures
        entry::raw(FatType::Fat32, entry::put(FatType::Fat32, bytes, cluster, written), cluster) / 0x1000_0000
            == entry::raw(FatType::Fat32, bytes, cluster) / 0x1000_0000,
{
    lemma_put_raw(FatType::Fat32, bytes, cluster, written);
}

/// A FAT32 cluster with a special number never reads as free or as part of a chain,
/// whatever its entry holds.
pub proof fn law_special_clusters_are_never_used(bytes: Seq<u8>, cluster: int)
    requires
        entry::special(FatType::Fat32, cluster),
    ensures
        !(entry::value(FatType::Fat32, bytes, cluster) is Free),
        !(entry::value(FatType::Fat32, bytes, cluster) is Data),
{
}

/// The entries of a table lie one behind the other without a gap: a table holds as many of
/// them as its bits have room for.
pub proof fn law_a_table_holds_what_it_has_room_for(fat_type: FatType, len: nat, cluster: int)
    requires
        0 <= cluster,
    ensures
        ({
            let bits = match fat_type {
                FatType::Fat12 => 12int,
                FatType::Fat16 => 16int,
                FatType::Fat32 => 32int,
            };
            &&& entry::fits(fat_type, len, cluster) <==> bits * (cluster + 1) <= 8 * len
            &&& entry::offset(fat_type, cluster) == bits * cluster / 8
        }),
{
}

/// Three bytes of a FAT12 are two entries, the bits of the even one first. Where the table
/// ends within the odd one, the even one is still there.
pub proof fn law_three_bytes_are_two_entries(bytes: Seq<u8>, k: int)
    requires
        0 <= k,
        3 * k + 2 <= bytes.len(),
    ensures
        0 <= entry::raw(FatType::Fat12, bytes, 2 * k) < 0x1000,
        entry::raw(FatType::Fat12, bytes, 2 * k) == bytes[3 * k] + 0x100 * (bytes[3 * k + 1]
            % 0x10),
        3 * k + 3 <= bytes.len() ==> {
            &&& 0 <= entry::raw(FatType::Fat12, bytes, 2 * k + 1) < 0x1000
            &&& entry::raw(FatType::Fat12, bytes, 2 * k) + 0x1000 * entry::raw(
                FatType::Fat12,
                bytes,
                2 * k + 1,
            ) == bytes[3 * k] + 0x100 * bytes[3 * k + 1] + 0x1_0000 * bytes[3 * k + 2]
        },
{
    lemma_shared(bytes[3 * k] as int, bytes[3 * k + 1] as int);
    if 3 * k + 3 <= bytes.len() {
        lemma_shared(bytes[3 * k + 1] as int, bytes[3 * k + 2] as int);
    }
}

/// Two bytes of a FAT16, and four of a FAT32, are one entry, the least significant byte
/// first.
pub proof fn law_an_entry_is_its_bytes(bytes: Seq<u8>, cluster: int)
    requires
        0 <= cluster,
    ensures
        2 * cluster + 2 <= bytes.len() ==> entry::raw(FatType::Fat16, bytes, cluster) == bytes[2
            * cluster] + 0x100 * bytes[2 * cluster + 1],
        4 * cluster + 4 <= bytes.len() ==> entry::raw(FatType::Fat32, bytes, cluster) == bytes[4
            * cluster] + 0x100 * bytes[4 * cluster + 1] + 0x1_0000 * bytes[4 * cluster + 2]
            + 0x100_0000 * bytes[4 * cluster + 3],
{
}

/// Every number that an entry can hold has one meaning: zero is free, the nine greatest ones
/// are a bad cluster and eight marks for the end of a chain, and all between them are the
/// next cluster. The reserved bits of a FAT32 mean nothing, and its clusters that are numbered
/// like the nine are bad unless they end a chain.
pub proof fn law_every_number_has_a_meaning(fat_type: FatType, bytes: Seq<u8>, cluster: int)
    requires
        0 <= cluster,
        entry::fits(fat_type, bytes.len(), cluster),
    ensures
        ({
            let top = match fat_type {
                FatType::Fat12 => 0x1000int,
                FatType::Fat16 => 0x1_0000int,
                FatType::Fat32 => 0x1000_0000int,
            };
            let n = entry::raw(fat_type, bytes, cluster) % top;
            let barred = fat_type is Fat32 && 0x0FFF_FFF7 <= cluster <= 0x0FFF_FFFF;
            let says = entry::value(fat_type, bytes, cluster);
            &&& says is EndOfChain <==> top - 8 <= n <= top - 1
            &&& says is Bad <==> n == top - 9 || (barred && n < top - 9)
            &&& says is Free <==> n == 0 && !barred
            &&& says is Data <==> 1 <= n <= top - 10 && !barred
            &&& says matches FatValue::Data(next) ==> next == n
        }),
{
}

/// A cluster is free where its entry is zero, and on a device that erases to ones also where
/// it is all ones. On any other device, the clusters that are free are those that read so,
/// special ones aside.
pub proof fn law_free_is_zero_or_erased(
    fat_type: FatType,
    bytes: Seq<u8>,
    erased_byte: u8,
    cluster: int,
)
    requires
        0 <= cluster,
        entry::fits(fat_type, bytes.len(), cluster),
    ensures
        ({
            let top = match fat_type {
                FatType::Fat12 => 0x1000int,
                FatType::Fat16 => 0x1_0000int,
                FatType::Fat32 => 0x1000_0000int,
            };
            let n = entry::raw(fat_type, bytes, cluster) % top;
            let free = entry::is_free(fat_type, bytes, erased_byte, cluster);
            &&& free <==> n == 0 || (erased_byte == 0xFF && n == top - 1)
            &&& erased_byte != 0xFF && !(fat_type is Fat32 && 0x0FFF_FFF7 <= cluster
                <= 0x0FFF_FFFF) ==> (free <==> entry::value(fat_type, bytes, cluster) is Free)
        }),
{
}

/// Which numbers are special, and which values an entry can hold.
pub proof fn law_the_special_numbers(fat_type: FatType, cluster: int, value: FatValue)
    ensures
        entry::special(fat_type, cluster) <==> match fat_type {
            FatType::Fat12 => 0xFF7 <= cluster <= 0xFFF,
            FatType::Fat16 => 0xFFF7 <= cluster <= 0xFFFF,
            FatType::Fat32 => 0x0FFF_FFF7 <= cluster <= 0x0FFF_FFFF,
        },
        entry::storable(fat_type, value) <==> (value matches FatValue::Data(n) ==> match fat_type {
            FatType::Fat12 => 1 <= n <= 0xFF6,
            FatType::Fat16 => 1 <= n <= 0xFFF6,
            FatType::Fat32 => 1 <= n <= 0x0FFF_FFF6,
        }),
        entry::range(fat_type) == match fat_type {
            FatType::Fat12 => 0x1000int,
            FatType::Fat16 => 0x1_0000int,
            FatType::Fat32 => 0x1000_0000int,
        },
{
}

/// Writing an entry stores the number of the value: a free entry is zero, the end of a chain
/// all ones, a bad one the number eight below that, and a link the number of the cluster, as
/// far as the entry has room for it. No byte changes that is not one of the entry.
pub proof fn law_a_write_stores_the_number(
    fat_type: FatType,
    bytes: Seq<u8>,
    cluster: int,
    written: FatValue,
)
    requires
        0 <= cluster,
        entry::fits(fat_type, bytes.len(), cluster),
    ensures
        ({
            let top = match fat_type {
                FatType::Fat12 => 0x1000int,
                FatType::Fat16 => 0x1_0000int,
                FatType::Fat32 => 0x1000_0000int,
            };
            let number = match written {
                FatValue::Free => 0int,
                FatValue::Bad => top - 9,
                FatValue::EndOfChain => top - 1,
                FatValue::Data(n) => n as int,
            };
            let after = entry::put(fat_type, bytes, cluster, written);
            let (first, last) = match fat_type {
                FatType::Fat12 => (cluster * 3 / 2, cluster * 3 / 2 + 1),
                FatType::Fat16 => (cluster * 2, cluster * 2 + 1),
                FatType::Fat32 => (cluster * 4, cluster * 4 + 3),
            };
            let was = entry::raw(fat_type, bytes, cluster);
            let is = entry::raw(fat_type, after, cluster);
            &&& after.len() == bytes.len()
            &&& forall|i: int|
                0 <= i < bytes.len() && !(first <= i <= last) ==> #[trigger] after[i] == bytes[i]
            &&& number < top ==> is % top == number && is / top == was / top
            &&& fat_type is Fat16 ==> is == number % top
            &&& fat_type is Fat12 && cluster % 2 == 1 ==> is == number % top
            &&& fat_type is Fat12 && cluster % 2 == 0 ==> is % top == (number % top)
            &&& fat_type is Fat12 && cluster % 2 == 1 ==> after[first] % 0x10 == bytes[first]
                % 0x10
            &&& fat_type is Fat12 && cluster % 2 == 0 && number < top ==> after[last] / 0x10
                == bytes[last] / 0x10
            &&& fat_type is Fat12 && cluster % 2 == 0 ==> (after[first] + 0x100 * after[last])
                == (((bytes[first] + 0x100 * bytes[last]) as u16) & 0xF000u16) | ((
            number as u32) as u16)
            &&& fat_type is Fat32 ==> is == (number as u32) | ((was as u32) & 0xF000_0000u32)
        }),
{
    let at = entry::offset(fat_type, cluster);
    let old_word = entry::word(fat_type, bytes, cluster);
    let code = entry::code(fat_type, written);
    let new = entry::new_word(fat_type, cluster, old_word as u32, written);
    match fat_type {
        FatType::Fat12 => {
            lemma_pack(cluster, old_word as u16, code);
            lemma_store16(bytes, at, new as int);
            lemma_half_bytes(bytes[at] as int, bytes[at + 1] as int, new as int);
        },
        FatType::Fat16 => {
            lemma_store16(bytes, at, new as int);
            assert((code as u16) as u32 == code % 0x1_0000) by (bit_vector);
        },
        FatType::Fat32 => {
            if code < 0x1000_0000 {
                lemma_keep_reserved(old_word as u32, code);
            }
            lemma_store32(bytes, at, new as int);
        },
    }
}

/// Clusters are numbered from two on.
pub proof fn law_two_entries_are_reserved()
    ensures
        entry::RESERVED_FAT_ENTRIES == 2,
{
}

} // verus!
