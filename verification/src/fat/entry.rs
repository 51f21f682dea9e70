//! How an entry lies in the table, and what it says.
//!
//! The entry of a cluster is 12, 16 or 32 bits wide. Two neighbours of a FAT12
//! share a byte; the top four bits of a FAT32 entry are reserved and are kept.

use vstd::prelude::*;

verus! {

/// The first entries of a table stand for no cluster.
pub const RESERVED_FAT_ENTRIES: u32 = 2;

/// The three widths of a table.
#[derive(Copy, Clone, Eq, PartialEq, Debug, Structural)]
pub enum FatType {
    Fat12,
    Fat16,
    Fat32,
}

/// What the entry of a cluster says.
#[derive(Copy, Clone, Eq, PartialEq, Debug, Structural)]
pub enum FatValue {
    /// The cluster is not in use.
    Free,
    /// The cluster is in use and the chain goes on with this one.
    Data(u32),
    /// The cluster must not be used.
    Bad,
    /// The cluster is in use and is the last of its chain.
    EndOfChain,
}

/// What the entry of cluster 1 says of the volume.
#[derive(Copy, Clone, Eq, PartialEq, Debug, Structural)]
pub struct FsStatusFlags {
    /// The volume was not unmounted cleanly.
    pub dirty: bool,
    /// Reading or writing the volume failed.
    pub io_error: bool,
}

/// The number of bytes that are read or written to reach an entry.
pub open spec fn width(fat_type: FatType) -> int {
    match fat_type {
        FatType::Fat12 => 2,
        FatType::Fat16 => 2,
        FatType::Fat32 => 4,
    }
}

/// Where the entry of a cluster begins, in bytes from the start of the table.
pub open spec fn offset(fat_type: FatType, cluster: int) -> int {
    match fat_type {
        FatType::Fat12 => cluster + cluster / 2,
        FatType::Fat16 => 2 * cluster,
        FatType::Fat32 => 4 * cluster,
    }
}

/// The entry of a cluster lies in a table of `len` bytes.
pub open spec fn fits(fat_type: FatType, len: nat, cluster: int) -> bool {
    offset(fat_type, cluster) + width(fat_type) <= len
}

/// The little-endian number in the two bytes at `at`.
pub open spec fn le16(bytes: Seq<u8>, at: int) -> int {
    bytes[at] + 0x100 * bytes[at + 1]
}

/// The little-endian number in the four bytes at `at`.
pub open spec fn le32(bytes: Seq<u8>, at: int) -> int {
    bytes[at] + 0x100 * bytes[at + 1] + 0x1_0000 * bytes[at + 2] + 0x100_0000 * bytes[at + 3]
}

/// The number that is read to reach an entry: the entry itself, or for a FAT12
/// the two bytes that hold it.
pub open spec fn word(fat_type: FatType, bytes: Seq<u8>, cluster: int) -> int {
    match fat_type {
        FatType::Fat32 => le32(bytes, offset(fat_type, cluster)),
        _ => le16(bytes, offset(fat_type, cluster)),
    }
}

/// The entry in the number that was read to reach it: of a FAT12, the low twelve
/// bits for an even cluster and the high twelve for an odd one.
pub open spec fn unpack(fat_type: FatType, cluster: int, word: int) -> int {
    match fat_type {
        FatType::Fat12 => if cluster % 2 == 0 {
            word % 0x1000
        } else {
            word / 0x10
        },
        _ => word,
    }
}

/// The entry of a cluster, as a number.
pub open spec fn raw(fat_type: FatType, bytes: Seq<u8>, cluster: int) -> int {
    unpack(fat_type, cluster, word(fat_type, bytes, cluster))
}

/// The number of values that an entry can have, reserved bits left out.
pub open spec fn range(fat_type: FatType) -> int {
    match fat_type {
        FatType::Fat12 => 0x1000,
        FatType::Fat16 => 0x1_0000,
        FatType::Fat32 => 0x1000_0000,
    }
}

/// The cluster numbers that an entry cannot point to, because it would read as
/// bad or as the end of a chain.
pub open spec fn special(fat_type: FatType, cluster: int) -> bool {
    range(fat_type) - 9 <= cluster < range(fat_type)
}

/// What an entry says. Of a FAT32, the entry of a cluster with a special number
/// never reads as free or as part of a chain.
pub open spec fn meaning(fat_type: FatType, cluster: int, raw: int) -> FatValue {
    let n = raw % range(fat_type);
    if n == range(fat_type) - 9 {
        FatValue::Bad
    } else if n > range(fat_type) - 9 {
        FatValue::EndOfChain
    } else if fat_type is Fat32 && special(fat_type, cluster) {
        FatValue::Bad
    } else if n == 0 {
        FatValue::Free
    } else {
        FatValue::Data(n as u32)
    }
}

/// What the table says of a cluster.
pub open spec fn value(fat_type: FatType, bytes: Seq<u8>, cluster: int) -> FatValue {
    meaning(fat_type, cluster, raw(fat_type, bytes, cluster))
}

/// The number that stands for a value.
pub open spec fn code(fat_type: FatType, value: FatValue) -> u32 {
    match value {
        FatValue::Free => 0,
        FatValue::Bad => (range(fat_type) - 9) as u32,
        FatValue::EndOfChain => (range(fat_type) - 1) as u32,
        FatValue::Data(n) => n,
    }
}

/// A free entry: zero, or all ones on a device that erases to 0xFF, where an
/// entry that was never written reads so.
pub open spec fn free_code(fat_type: FatType, raw: int, erased_byte: u8) -> bool {
    let n = raw % range(fat_type);
    n == 0 || (erased_byte == 0xFF && n == range(fat_type) - 1)
}

/// The entry of a cluster is free.
pub open spec fn is_free(fat_type: FatType, bytes: Seq<u8>, erased_byte: u8, cluster: int) -> bool {
    free_code(fat_type, raw(fat_type, bytes, cluster), erased_byte)
}

/// The two bytes that hold an entry of a FAT12, with the entry put in place: the
/// other twelve bits' share of them is kept.
pub open spec fn pack(cluster: int, old_packed: u16, entry: u32) -> u16 {
    if cluster % 2 == 0 {
        (old_packed & 0xF000) | (entry as u16)
    } else {
        (old_packed & 0x000F) | ((entry as u16) << 4)
    }
}

/// The number that is stored to set the entry of a cluster, where `old_word` was
/// read: a FAT12 keeps the neighbour's half byte, a FAT32 the reserved bits.
pub open spec fn new_word(fat_type: FatType, cluster: int, old_word: u32, value: FatValue) -> u32 {
    match fat_type {
        FatType::Fat12 => pack(cluster, old_word as u16, code(fat_type, value)) as u32,
        FatType::Fat16 => (code(fat_type, value) as u16) as u32,
        FatType::Fat32 => code(fat_type, value) | (old_word & 0xF000_0000),
    }
}

/// A number stored in the two bytes at `at`, little-endian.
pub open spec fn store16(bytes: Seq<u8>, at: int, word: int) -> Seq<u8> {
    bytes.update(at, (word % 0x100) as u8).update(at + 1, (word / 0x100 % 0x100) as u8)
}

/// A number stored in the four bytes at `at`, little-endian.
pub open spec fn store32(bytes: Seq<u8>, at: int, word: int) -> Seq<u8> {
    bytes.update(at, (word % 0x100) as u8).update(at + 1, (word / 0x100 % 0x100) as u8).update(
        at + 2,
        (word / 0x1_0000 % 0x100) as u8,
    ).update(at + 3, (word / 0x100_0000 % 0x100) as u8)
}

/// The table with the number that reaches an entry stored.
pub open spec fn put_word(fat_type: FatType, bytes: Seq<u8>, cluster: int, word: int) -> Seq<u8> {
    match fat_type {
        FatType::Fat32 => store32(bytes, offset(fat_type, cluster), word),
        _ => store16(bytes, offset(fat_type, cluster), word),
    }
}

/// The table with the entry of a cluster set.
pub open spec fn put(fat_type: FatType, bytes: Seq<u8>, cluster: int, value: FatValue) -> Seq<u8> {
    put_word(
        fat_type,
        bytes,
        cluster,
        new_word(fat_type, cluster, word(fat_type, bytes, cluster) as u32, value) as int,
    )
}

/// A value that an entry can hold: a cluster number must not read as something
/// else.
pub open spec fn storable(fat_type: FatType, value: FatValue) -> bool {
    value matches FatValue::Data(n) ==> 0 < n < range(fat_type) - 9
}

/// Check if a FAT12 entry value represents a free cluster.
///
/// When `erased_byte` is 0xFF, the all-ones value is also treated as free: these
/// are unwritten entries on a device that erases to 0xFF.
pub fn is_free_fat12(val: u16, erased_byte: u8) -> (free: bool)
    ensures
        free <==> val == 0 || (erased_byte == 0xFF && val == 0x0FFF),
        val < 0x1000 ==> free == free_code(FatType::Fat12, val as int, erased_byte),
{
    val == 0 || (erased_byte == 0xFF && val == 0x0FFF)
}

/// Check if a FAT16 entry value represents a free cluster. See [`is_free_fat12`].
pub fn is_free_fat16(val: u16, erased_byte: u8) -> (free: bool)
    ensures
        free <==> val == 0 || (erased_byte == 0xFF && val == 0xFFFF),
        free == free_code(FatType::Fat16, val as int, erased_byte),
{
    val == 0 || (erased_byte == 0xFF && val == 0xFFFF)
}

/// Check if a FAT32 entry value, reserved bits left out, represents a free
/// cluster. See [`is_free_fat12`].
pub fn is_free_fat32(val: u32, erased_byte: u8) -> (free: bool)
    ensures
        free <==> val == 0 || (erased_byte == 0xFF && val == 0x0FFF_FFFF),
        val < 0x1000_0000 ==> free == free_code(FatType::Fat32, val as int, erased_byte),
{
    val == 0 || (erased_byte == 0xFF && val == 0x0FFF_FFFF)
}

/// Where the entry of a cluster begins.
pub fn entry_offset(fat_type: FatType, cluster: u32) -> (at: u64)
    ensures
        at == offset(fat_type, cluster as int),
{
    let cluster: u64 = cluster as u64;
    match fat_type {
        FatType::Fat12 => cluster + cluster / 2,
        FatType::Fat16 => cluster * 2,
        FatType::Fat32 => cluster * 4,
    }
}

/// The entry in the number that was read to reach it.
pub fn unpack_entry(fat_type: FatType, cluster: u32, packed: u32) -> (entry: u32)
    requires
        fat_type is Fat12 ==> packed <= 0xFFFF,
    ensures
        entry == unpack(fat_type, cluster as int, packed as int),
{
    match fat_type {
        FatType::Fat12 => {
            assert(packed & 0x0FFF == packed % 0x1000) by (bit_vector);
            assert(packed >> 4 == packed / 0x10) by (bit_vector);
            assert(cluster & 1 == cluster % 2) by (bit_vector);
            if cluster & 1 == 0 {
                packed & 0x0FFF
            } else {
                packed >> 4
            }
        },
        _ => packed,
    }
}

/// What an entry says.
pub fn decode_entry(fat_type: FatType, cluster: u32, entry: u32) -> (val: FatValue)
    requires
        fat_type is Fat12 ==> entry < 0x1000,
        fat_type is Fat16 ==> entry < 0x1_0000,
    ensures
        val == meaning(fat_type, cluster as int, entry as int),
{
    match fat_type {
        FatType::Fat12 => match entry {
            0 => FatValue::Free,
            0xFF7 => FatValue::Bad,
            0xFF8..=0xFFF => FatValue::EndOfChain,
            n => FatValue::Data(n),
        },
        FatType::Fat16 => match entry {
            0 => FatValue::Free,
            0xFFF7 => FatValue::Bad,
            0xFFF8..=0xFFFF => FatValue::EndOfChain,
            n => FatValue::Data(n),
        },
        FatType::Fat32 => {
            let is_special: bool = 0x0FFF_FFF7 <= cluster && cluster <= 0x0FFF_FFFF;
            assert(entry & 0x0FFF_FFFF == entry % 0x1000_0000) by (bit_vector);
            match entry & 0x0FFF_FFFF {
                0x0FFF_FFF7 => FatValue::Bad,
                0x0FFF_FFF8..=0x0FFF_FFFF => FatValue::EndOfChain,
                n => if is_special {
                    // never handed out or followed
                    FatValue::Bad
                } else if n == 0 {
                    FatValue::Free
                } else {
                    FatValue::Data(n)
                },
            }
        },
    }
}

/// The number that stands for a value.
pub fn encode_value(fat_type: FatType, val: FatValue) -> (entry: u32)
    ensures
        entry == code(fat_type, val),
{
    match (fat_type, val) {
        (_, FatValue::Free) => 0,
        (_, FatValue::Data(n)) => n,
        (FatType::Fat12, FatValue::Bad) => 0xFF7,
        (FatType::Fat12, FatValue::EndOfChain) => 0xFFF,
        (FatType::Fat16, FatValue::Bad) => 0xFFF7,
        (FatType::Fat16, FatValue::EndOfChain) => 0xFFFF,
        (FatType::Fat32, FatValue::Bad) => 0x0FFF_FFF7,
        (FatType::Fat32, FatValue::EndOfChain) => 0x0FFF_FFFF,
    }
}

/// The number that is stored to set the entry of a cluster.
pub fn pack_entry(fat_type: FatType, cluster: u32, old_word: u32, val: FatValue) -> (new: u32)
    requires
        fat_type is Fat12 ==> old_word <= 0xFFFF,
    ensures
        new == new_word(fat_type, cluster as int, old_word, val),
{
    let entry: u32 = encode_value(fat_type, val);
    match fat_type {
        FatType::Fat12 => {
            let old_packed: u16 = old_word as u16;
            assert(cluster & 1 == cluster % 2) by (bit_vector);
            let new_packed: u16 = if cluster & 1 == 0 {
                (old_packed & 0xF000) | #[verifier::truncate] (entry as u16)
            } else {
                (old_packed & 0x000F) | ((#[verifier::truncate] (entry as u16)) << 4)
            };
            new_packed as u32
        },
        FatType::Fat16 => (#[verifier::truncate] (entry as u16)) as u32,
        FatType::Fat32 => entry | (old_word & 0xF000_0000),
    }
}

} // verus!
