use sdfat::fat::access::{
    get_next_cluster, read_fat, read_fat_flags, write_fat, ReadFat, WriteFat,
};
use sdfat::fat::allocate::{alloc_cluster, Alloc, AllocPhase};
use sdfat::fat::chain::{ClusterIterator, ReleaseChain, ReleasePhase, ReleaseTask, Released};
use sdfat::fat::entry::{decode_entry, entry_offset, FatType, FatValue, FsStatusFlags};
use sdfat::fat::format::format_fat;
use sdfat::fat::scan::{count_free_clusters, find_free_cluster, CountFree};
use sdfat::fat::stream::{FatError, MemStream, Step, StreamMachine, StreamOp, StreamReply};

fn test_fat(fat_type: FatType, mut cur: MemStream) {
    // based on cluster maps from Wikipedia:
    // https://en.wikipedia.org/wiki/Design_of_the_FAT_file_system#Cluster_map
    assert_eq!(read_fat(&mut cur, fat_type, 1).ok(), Some(FatValue::EndOfChain));
    assert_eq!(read_fat(&mut cur, fat_type, 4).ok(), Some(FatValue::Data(5)));
    assert_eq!(read_fat(&mut cur, fat_type, 5).ok(), Some(FatValue::Data(6)));
    assert_eq!(read_fat(&mut cur, fat_type, 8).ok(), Some(FatValue::EndOfChain));
    assert_eq!(read_fat(&mut cur, fat_type, 9).ok(), Some(FatValue::Data(0xA)));
    assert_eq!(read_fat(&mut cur, fat_type, 0xA).ok(), Some(FatValue::Data(0x14)));
    assert_eq!(read_fat(&mut cur, fat_type, 0x12).ok(), Some(FatValue::Free));
    assert_eq!(read_fat(&mut cur, fat_type, 0x17).ok(), Some(FatValue::Bad));
    assert_eq!(read_fat(&mut cur, fat_type, 0x18).ok(), Some(FatValue::Bad));
    assert_eq!(read_fat(&mut cur, fat_type, 0x1B).ok(), Some(FatValue::Free));

    assert_eq!(find_free_cluster(&mut cur, fat_type, 2, 0x20, 0).ok(), Some(0x12));
    assert_eq!(find_free_cluster(&mut cur, fat_type, 0x12, 0x20, 0).ok(), Some(0x12));
    assert_eq!(find_free_cluster(&mut cur, fat_type, 0x13, 0x20, 0).ok(), Some(0x1B));
    assert!(find_free_cluster(&mut cur, fat_type, 0x13, 0x14, 0).is_err());

    assert_eq!(count_free_clusters(&mut cur, fat_type, 0x1E, 0).ok(), Some(5));

    // test allocation
    assert_eq!(alloc_cluster(&mut cur, fat_type, None, Some(0x13), 0x1E, 0).ok(), Some(0x1B));
    assert_eq!(read_fat(&mut cur, fat_type, 0x1B).ok(), Some(FatValue::EndOfChain));
    assert_eq!(alloc_cluster(&mut cur, fat_type, Some(0x1B), None, 0x1E, 0).ok(), Some(0x12));
    assert_eq!(read_fat(&mut cur, fat_type, 0x1B).ok(), Some(FatValue::Data(0x12)));
    assert_eq!(read_fat(&mut cur, fat_type, 0x12).ok(), Some(FatValue::EndOfChain));
    assert_eq!(count_free_clusters(&mut cur, fat_type, 0x1E, 0).ok(), Some(3));
    // test reading from iterator
    let mut iter = ClusterIterator::new(cur, fat_type, 0x9);
    let mut actual_cluster_numbers = Vec::new();
    while let Some(i) = iter.next() {
        actual_cluster_numbers.push(i.ok());
    }
    let expected_cluster_numbers = [0xA_u32, 0x14_u32, 0x15_u32, 0x16_u32, 0x19_u32, 0x1A_u32]
        .iter()
        .cloned()
        .map(Some)
        .collect::<Vec<_>>();
    assert_eq!(actual_cluster_numbers, expected_cluster_numbers);
    // test truncating a chain
    let mut iter = ClusterIterator::new(iter.into_fat(), fat_type, 0x9);
    iter.next();
    iter.next();
    iter.next();
    let value = iter.next().unwrap().ok();
    assert_eq!(value, Some(0x16));
    assert!(iter.truncate().is_ok());
    let mut cur = iter.into_fat();
    assert_eq!(read_fat(&mut cur, fat_type, 0x16).ok(), Some(FatValue::EndOfChain));
    assert_eq!(read_fat(&mut cur, fat_type, 0x19).ok(), Some(FatValue::Free));
    assert_eq!(read_fat(&mut cur, fat_type, 0x1A).ok(), Some(FatValue::Free));
    // test freeing a chain
    let mut iter = ClusterIterator::new(cur, fat_type, 0x9);
    assert!(iter.free().is_ok());
    let mut cur = iter.into_fat();
    assert_eq!(read_fat(&mut cur, fat_type, 0x9).ok(), Some(FatValue::Free));
    assert_eq!(read_fat(&mut cur, fat_type, 0xA).ok(), Some(FatValue::Free));
    assert_eq!(read_fat(&mut cur, fat_type, 0x14).ok(), Some(FatValue::Free));
    assert_eq!(read_fat(&mut cur, fat_type, 0x15).ok(), Some(FatValue::Free));
    assert_eq!(read_fat(&mut cur, fat_type, 0x16).ok(), Some(FatValue::Free));
}

fn fat12_bytes() -> Vec<u8> {
    vec![
        0xF0, 0xFF, 0xFF, 0x03, 0x40, 0x00, 0x05, 0x60, 0x00, 0x07, 0x80, 0x00, 0xFF, 0xAF, 0x00, 0x14, 0xC0, 0x00,
        0x0D, 0xE0, 0x00, 0x0F, 0x00, 0x01, 0x11, 0xF0, 0xFF, 0x00, 0xF0, 0xFF, 0x15, 0x60, 0x01, 0x19, 0x70, 0xFF,
        0xF7, 0xAF, 0x01, 0xFF, 0x0F, 0x00, 0x00, 0x70, 0xFF, 0x00, 0x00, 0x00,
    ]
}

fn fat16_bytes() -> Vec<u8> {
    vec![
        0xF0, 0xFF, 0xFF, 0xFF, 0x03, 0x00, 0x04, 0x00, 0x05, 0x00, 0x06, 0x00, 0x07, 0x00, 0x08, 0x00, 0xFF, 0xFF,
        0x0A, 0x00, 0x14, 0x00, 0x0C, 0x00, 0x0D, 0x00, 0x0E, 0x00, 0x0F, 0x00, 0x10, 0x00, 0x11, 0x00, 0xFF, 0xFF,
        0x00, 0x00, 0xFF, 0xFF, 0x15, 0x00, 0x16, 0x00, 0x19, 0x00, 0xF7, 0xFF, 0xF7, 0xFF, 0x1A, 0x00, 0xFF, 0xFF,
        0x00, 0x00, 0x00, 0x00, 0xF7, 0xFF, 0x00, 0x00, 0x00, 0x00,
    ]
}

fn fat32_bytes() -> Vec<u8> {
    vec![
        0xF0, 0xFF, 0xFF, 0x0F, 0xFF, 0xFF, 0xFF, 0x0F, 0xFF, 0xFF, 0xFF, 0x0F, 0x04, 0x00, 0x00, 0x00, 0x05, 0x00,
        0x00, 0x00, 0x06, 0x00, 0x00, 0x00, 0x07, 0x00, 0x00, 0x00, 0x08, 0x00, 0x00, 0x00, 0xFF, 0xFF, 0xFF, 0x0F,
        0x0A, 0x00, 0x00, 0x00, 0x14, 0x00, 0x00, 0x00, 0x0C, 0x00, 0x00, 0x00, 0x0D, 0x00, 0x00, 0x00, 0x0E, 0x00,
        0x00, 0x00, 0x0F, 0x00, 0x00, 0x00, 0x10, 0x00, 0x00, 0x00, 0x11, 0x00, 0x00, 0x00, 0xFF, 0xFF, 0xFF, 0x0F,
        0x00, 0x00, 0x00, 0x00, 0xFF, 0xFF, 0xFF, 0x0F, 0x15, 0x00, 0x00, 0x00, 0x16, 0x00, 0x00, 0x00, 0x19, 0x00,
        0x00, 0x00, 0xF7, 0xFF, 0xFF, 0x0F, 0xF7, 0xFF, 0xFF, 0x0F, 0x1A, 0x00, 0x00, 0x00, 0xFF, 0xFF, 0xFF, 0x0F,
        0x00, 0x00, 0x00, 0x00, 0x00, 0x00, 0x00, 0x00, 0xF7, 0xFF, 0xFF, 0x0F, 0x00, 0x00, 0x00, 0x00, 0x00, 0x00,
        0x00, 0x00,
    ]
}

#[test]
fn test_fat12() {
    test_fat(FatType::Fat12, MemStream::new(fat12_bytes()));
}

#[test]
fn test_fat16() {
    test_fat(FatType::Fat16, MemStream::new(fat16_bytes()));
}

#[test]
fn test_fat32() {
    test_fat(FatType::Fat32, MemStream::new(fat32_bytes()));
}

const TYPES: [FatType; 3] = [FatType::Fat12, FatType::Fat16, FatType::Fat32];

fn table_of(fat_type: FatType) -> MemStream {
    MemStream::new(match fat_type {
        FatType::Fat12 => fat12_bytes(),
        FatType::Fat16 => fat16_bytes(),
        FatType::Fat32 => fat32_bytes(),
    })
}

#[test]
fn what_is_written_is_read_back_and_nothing_else_changes() {
    for fat_type in TYPES {
        for cluster in 2..0x1E {
            for value in [FatValue::Free, FatValue::Bad, FatValue::EndOfChain, FatValue::Data(0x123)] {
                let mut cur = table_of(fat_type);
                assert_eq!(write_fat(&mut cur, fat_type, cluster, value), Ok(()));
                assert_eq!(read_fat(&mut cur, fat_type, cluster), Ok(value));
                let mut before = table_of(fat_type);
                for other in 0..0x1E {
                    if other != cluster {
                        assert_eq!(
                            read_fat(&mut cur, fat_type, other),
                            read_fat(&mut before, fat_type, other)
                        );
                    }
                }
                assert_eq!(cur.bytes().len(), before.bytes().len());
            }
        }
    }
}

#[test]
fn a_fat32_entry_keeps_its_reserved_bits() {
    let mut cur = MemStream::new(vec![0, 0, 0, 0, 0, 0, 0, 0, 0x78, 0x56, 0x34, 0xA2]);
    assert_eq!(read_fat(&mut cur, FatType::Fat32, 2), Ok(FatValue::Data(0x0234_5678)));
    assert_eq!(write_fat(&mut cur, FatType::Fat32, 2, FatValue::EndOfChain), Ok(()));
    assert_eq!(&cur.bytes()[8..12], &[0xFF, 0xFF, 0xFF, 0xAF][..]);
    assert_eq!(write_fat(&mut cur, FatType::Fat32, 2, FatValue::Data(0x0123_4567)), Ok(()));
    assert_eq!(&cur.bytes()[8..12], &[0x67, 0x45, 0x23, 0xA1][..]);
}

#[test]
fn a_special_fat32_cluster_never_reads_as_free_or_as_data() {
    assert_eq!(decode_entry(FatType::Fat32, 0x0FFF_FFF7, 0), FatValue::Bad);
    assert_eq!(decode_entry(FatType::Fat32, 0x0FFF_FFFF, 0xF000_0000), FatValue::Bad);
    assert_eq!(decode_entry(FatType::Fat32, 0x0FFF_FFF8, 5), FatValue::Bad);
    assert_eq!(decode_entry(FatType::Fat32, 0x0FFF_FFF8, 0x0FFF_FFF9), FatValue::EndOfChain);
    assert_eq!(decode_entry(FatType::Fat32, 0x0FFF_FFF6, 0), FatValue::Free);
    assert_eq!(decode_entry(FatType::Fat12, 0xFF7, 0), FatValue::Free);
}

#[test]
fn an_entry_outside_the_table_is_an_error() {
    for fat_type in TYPES {
        let mut cur = table_of(fat_type);
        assert_eq!(read_fat(&mut cur, fat_type, 0x40), Err(FatError::UnexpectedEof));
        assert_eq!(write_fat(&mut cur, fat_type, 0x40, FatValue::Bad), Err(FatError::UnexpectedEof));
        assert_eq!(get_next_cluster(&mut cur, fat_type, 0x40), Err(FatError::UnexpectedEof));
        assert_eq!(count_free_clusters(&mut cur, fat_type, 0x40, 0), Err(FatError::UnexpectedEof));
        assert_eq!(find_free_cluster(&mut cur, fat_type, 0x40, 0x41, 0), Err(FatError::UnexpectedEof));
    }
}

#[test]
fn a_chain_goes_on_ends_or_is_corrupt() {
    for fat_type in TYPES {
        let mut cur = table_of(fat_type);
        assert_eq!(get_next_cluster(&mut cur, fat_type, 9), Ok(Some(0xA)));
        assert_eq!(get_next_cluster(&mut cur, fat_type, 8), Ok(None));
        assert_eq!(get_next_cluster(&mut cur, fat_type, 0x12), Ok(None));
        assert_eq!(get_next_cluster(&mut cur, fat_type, 0x17), Ok(None));
        assert_eq!(write_fat(&mut cur, fat_type, 9, FatValue::Data(1)), Ok(()));
        assert_eq!(get_next_cluster(&mut cur, fat_type, 9), Err(FatError::CorruptedFileSystem));
        let mut iter = ClusterIterator::new(cur, fat_type, 9);
        assert_eq!(iter.next(), Some(Err(FatError::CorruptedFileSystem)));
        assert_eq!(iter.next(), None);
        assert!(iter.err);
    }
}

#[test]
fn the_flags_of_a_volume() {
    let clean = FsStatusFlags { dirty: false, io_error: false };
    let mut cur = MemStream::new(Vec::new());
    assert_eq!(read_fat_flags(&mut cur, FatType::Fat12), Ok(clean));
    assert_eq!(read_fat_flags(&mut cur, FatType::Fat16), Err(FatError::UnexpectedEof));
    for (high, dirty, io_error) in [(0xFF, false, false), (0x7F, true, false), (0xBF, false, true), (0x3F, true, true)] {
        let mut cur = MemStream::new(vec![0xF8, 0xFF, 0xFF, high]);
        assert_eq!(read_fat_flags(&mut cur, FatType::Fat16), Ok(FsStatusFlags { dirty, io_error }));
    }
    for (high, dirty, io_error) in [(0x0F, false, false), (0x07, true, false), (0x0B, false, true), (0x03, true, true)] {
        let mut cur = MemStream::new(vec![0xF8, 0xFF, 0xFF, 0x0F, 0xFF, 0xFF, 0xFF, high]);
        assert_eq!(read_fat_flags(&mut cur, FatType::Fat32), Ok(FsStatusFlags { dirty, io_error }));
    }
}

#[test]
fn all_ones_are_free_where_a_device_erases_to_ones() {
    for (fat_type, len) in [(FatType::Fat12, 12), (FatType::Fat16, 16), (FatType::Fat32, 32)] {
        let mut cur = MemStream::new(vec![0xFF; len]);
        assert_eq!(count_free_clusters(&mut cur, fat_type, 6, 0xFF), Ok(6));
        assert_eq!(count_free_clusters(&mut cur, fat_type, 6, 0x00), Ok(0));
        assert_eq!(find_free_cluster(&mut cur, fat_type, 3, 8, 0xFF), Ok(3));
        assert_eq!(find_free_cluster(&mut cur, fat_type, 3, 8, 0x00), Err(FatError::NotEnoughSpace));
        assert_eq!(count_free_clusters(&mut cur, fat_type, 0, 0xFF), Ok(0));
    }
}

#[test]
fn the_least_free_cluster_of_a_range_is_found() {
    for fat_type in TYPES {
        let mut cur = table_of(fat_type);
        assert_eq!(find_free_cluster(&mut cur, fat_type, 0x13, 0x1B, 0), Err(FatError::NotEnoughSpace));
        assert_eq!(find_free_cluster(&mut cur, fat_type, 0x13, 0x1C, 0), Ok(0x1B));
        assert_eq!(find_free_cluster(&mut cur, fat_type, 0x1C, 0x20, 0), Ok(0x1C));
    }
    // Where the range is empty, a FAT12 is looked at all the same.
    let mut cur = table_of(FatType::Fat16);
    assert_eq!(find_free_cluster(&mut cur, FatType::Fat16, 5, 5, 0), Err(FatError::NotEnoughSpace));
    let mut cur = table_of(FatType::Fat12);
    assert_eq!(find_free_cluster(&mut cur, FatType::Fat12, 5, 5, 0), Ok(0x12));
}

#[test]
fn an_allocation_looks_below_its_hint_too() {
    for fat_type in TYPES {
        let mut cur = table_of(fat_type);
        // 0x1D is bad, so that nothing is free from there to 0x1E.
        assert_eq!(alloc_cluster(&mut cur, fat_type, None, Some(0x1D), 0x1C, 0), Ok(0x12));
        assert_eq!(alloc_cluster(&mut cur, fat_type, None, Some(0x100), 0x1C, 0), Ok(0x1B));
        assert_eq!(alloc_cluster(&mut cur, fat_type, None, None, 0x1C, 0), Ok(0x1C));
        assert_eq!(
            alloc_cluster(&mut cur, fat_type, None, Some(0x10), 0x1C, 0),
            Err(FatError::NotEnoughSpace)
        );
    }
}

#[test]
fn an_allocation_behind_a_cluster_outside_the_table_fails() {
    for fat_type in TYPES {
        let mut cur = table_of(fat_type);
        assert_eq!(
            alloc_cluster(&mut cur, fat_type, Some(0x80), None, 0x1E, 0),
            Err(FatError::UnexpectedEof)
        );
        assert_eq!(read_fat(&mut cur, fat_type, 0x12), Ok(FatValue::EndOfChain));
    }
}

#[test]
fn the_clusters_of_a_chain_are_counted_when_they_are_freed() {
    for fat_type in TYPES {
        let mut cur = table_of(fat_type);
        let free = count_free_clusters(&mut cur, fat_type, 0x1E, 0).unwrap();
        let mut iter = ClusterIterator::new(cur, fat_type, 0x9);
        assert_eq!(iter.free(), Ok(7));
        assert_eq!(iter.cluster, None);
        assert_eq!(iter.next(), None);
        assert_eq!(iter.free(), Ok(0));
        assert_eq!(iter.truncate(), Ok(0));
        let mut cur = iter.into_fat();
        assert_eq!(count_free_clusters(&mut cur, fat_type, 0x1E, 0), Ok(free + 7));
        let mut iter = ClusterIterator::new(cur, fat_type, 0x4);
        assert_eq!(iter.truncate(), Ok(4));
        let mut cur = iter.into_fat();
        assert_eq!(read_fat(&mut cur, fat_type, 4), Ok(FatValue::EndOfChain));
        assert_eq!(read_fat(&mut cur, fat_type, 5), Ok(FatValue::Free));
        assert_eq!(read_fat(&mut cur, fat_type, 8), Ok(FatValue::Free));
        assert_eq!(read_fat(&mut cur, fat_type, 3), Ok(FatValue::Data(4)));
    }
}

#[test]
fn a_chain_that_runs_in_a_circle_is_freed() {
    for fat_type in TYPES {
        let mut cur = table_of(fat_type);
        assert_eq!(write_fat(&mut cur, fat_type, 8, FatValue::Data(7)), Ok(()));
        let mut iter = ClusterIterator::new(cur, fat_type, 6);
        // 6, 7 and 8, and 7 once more.
        assert_eq!(iter.free(), Ok(4));
        let mut cur = iter.into_fat();
        for cluster in 6..9 {
            assert_eq!(read_fat(&mut cur, fat_type, cluster), Ok(FatValue::Free));
        }
    }
}

#[test]
fn a_chain_that_leaves_the_table_is_an_error() {
    for fat_type in TYPES {
        let mut cur = table_of(fat_type);
        assert_eq!(write_fat(&mut cur, fat_type, 8, FatValue::Data(0x70)), Ok(()));
        let mut iter = ClusterIterator::new(cur, fat_type, 7);
        assert_eq!(iter.free(), Err(FatError::UnexpectedEof));
        assert_eq!(iter.cluster, Some(0x70));
        assert!(iter.err);
        assert_eq!(iter.next(), None);
        assert_eq!(iter.free(), Err(FatError::UnexpectedEof));
        let mut cur = iter.into_fat();
        assert_eq!(read_fat(&mut cur, fat_type, 7), Ok(FatValue::Free));
        assert_eq!(read_fat(&mut cur, fat_type, 8), Ok(FatValue::Free));
    }
}

#[test]
fn a_new_table_is_empty_and_clean() {
    for (fat_type, head, clusters) in [
        (FatType::Fat12, vec![0xF8, 0xFF, 0xFF, 0x00], 6800),
        (FatType::Fat16, vec![0xF8, 0xFF, 0xFF, 0xFF, 0x00], 5100),
        (FatType::Fat32, vec![0xF8, 0xFF, 0xFF, 0x0F, 0xFF, 0xFF, 0xFF, 0x0F, 0x00], 2500),
    ] {
        let mut cur = MemStream::new(vec![0xAA; 20 * 512 + 1]);
        assert_eq!(format_fat(&mut cur, fat_type, 0xF8, 20 * 512, clusters, false), Ok(()));
        assert_eq!(&cur.bytes()[..head.len()], &head[..]);
        assert!(cur.bytes()[head.len()..20 * 512].iter().all(|&b| b == 0));
        assert_eq!(cur.bytes()[20 * 512], 0xAA);
        assert_eq!(cur.position(), 20 * 512);
        assert_eq!(cur.reports(), &vec![(0, 9728), (8192, 9728), (9728, 9728)]);
        assert_eq!(read_fat(&mut cur, fat_type, 1), Ok(FatValue::EndOfChain));
        assert_eq!(count_free_clusters(&mut cur, fat_type, clusters, 0xFF), Ok(clusters));
        assert_eq!(
            read_fat_flags(&mut cur, fat_type),
            Ok(FsStatusFlags { dirty: false, io_error: false })
        );
    }
}

#[test]
fn an_erased_table_is_not_filled() {
    let mut cur = MemStream::new(vec![0xAA; 4096]);
    assert_eq!(format_fat(&mut cur, FatType::Fat16, 0xF0, 2048, 0, true), Ok(()));
    assert_eq!(&cur.bytes()[..5], &[0xF0, 0xFF, 0xFF, 0xFF, 0x00][..]);
    assert!(cur.bytes()[512..].iter().all(|&b| b == 0xAA));
    assert_eq!(cur.position(), 2048);
    assert_eq!(cur.reports(), &vec![(1536, 1536)]);
}

#[test]
fn a_table_that_does_not_fit_is_an_error() {
    let mut cur = MemStream::new(vec![0xAA; 511]);
    assert_eq!(
        format_fat(&mut cur, FatType::Fat32, 0xF8, 512, 0, false),
        Err(FatError::UnexpectedEof)
    );
    assert!(cur.bytes().iter().all(|&b| b == 0xAA));
    let mut cur = MemStream::new(vec![0xAA; 512 + 8192 + 8191]);
    assert_eq!(
        format_fat(&mut cur, FatType::Fat32, 0xF8, 512 + 3 * 8192, 0, false),
        Err(FatError::UnexpectedEof)
    );
    assert_eq!(cur.reports(), &vec![(0, 24576), (8192, 24576)]);
    assert_eq!(cur.position(), 512 + 8192);
    assert_eq!(cur.bytes()[512 + 8191], 0);
    assert_eq!(cur.bytes()[512 + 8192], 0xAA);
    // A table of one block has nothing to fill.
    let mut cur = MemStream::new(vec![0xAA; 512]);
    assert_eq!(format_fat(&mut cur, FatType::Fat12, 0xF8, 512, 0, false), Ok(()));
    assert_eq!(cur.reports(), &vec![(0, 0)]);
}

#[test]
fn an_erased_table_is_free() {
    for erased_byte in [0x00, 0xFF] {
        for (fat_type, clusters) in [(FatType::Fat16, 1022), (FatType::Fat32, 510)] {
            let mut cur = MemStream::new(vec![erased_byte; 2048]);
            assert_eq!(format_fat(&mut cur, fat_type, 0xF8, 2048, clusters, true), Ok(()));
            assert_eq!(count_free_clusters(&mut cur, fat_type, clusters, erased_byte), Ok(clusters));
        }
    }
    // The entry of a FAT12 across the end of the first block is half zeros, half ones.
    let mut cur = MemStream::new(vec![0xFF; 2048]);
    assert_eq!(format_fat(&mut cur, FatType::Fat12, 0xF8, 2048, 1000, true), Ok(()));
    assert_eq!(count_free_clusters(&mut cur, FatType::Fat12, 1000, 0xFF), Ok(999));
    assert_eq!(read_fat(&mut cur, FatType::Fat12, 341), Ok(FatValue::Data(0xFF0)));
}

#[test]
fn taking_a_cluster_leaves_one_free_cluster_less() {
    for fat_type in TYPES {
        let mut cur = table_of(fat_type);
        for left in (0..5).rev() {
            let taken = alloc_cluster(&mut cur, fat_type, None, None, 0x1E, 0).unwrap();
            assert_eq!(read_fat(&mut cur, fat_type, taken), Ok(FatValue::EndOfChain));
            assert_eq!(count_free_clusters(&mut cur, fat_type, 0x1E, 0), Ok(left));
        }
        assert_eq!(alloc_cluster(&mut cur, fat_type, None, None, 0x1E, 0), Err(FatError::NotEnoughSpace));
    }
}

/// A stream that fails at one of its operations.
fn fails_at<M: StreamMachine<u8>>(first: Step<M, M::Out>, bytes: Vec<u8>, number: usize) -> M::Out {
    let mut stream = MemStream::new(bytes);
    let mut step = first;
    let mut n = 0;
    loop {
        match step {
            Step::Done(out) => return out,
            Step::Do(machine, op) => {
                let reply = if n == number {
                    StreamReply::Failed(FatError::Io(7))
                } else {
                    stream.perform(op)
                };
                n += 1;
                step = machine.step(reply);
            }
        }
    }
}

#[test]
fn a_failure_of_the_stream_is_handed_on() {
    let fat_type = FatType::Fat12;
    for number in 0..2 {
        assert_eq!(
            fails_at(ReadFat::start(fat_type, 4), fat12_bytes(), number),
            Err(FatError::Io(7))
        );
    }
    for number in 0..4 {
        assert_eq!(
            fails_at(WriteFat::start(fat_type, 4, FatValue::Bad), fat12_bytes(), number),
            Err(FatError::Io(7))
        );
    }
    assert_eq!(fails_at(CountFree::start(fat_type, 0x20, 0), fat12_bytes(), 9), Err(FatError::Io(7)));
    // An allocation that cannot look behind its hint looks below it.
    assert_eq!(
        fails_at(Alloc::start(fat_type, None, Some(0x1B), 0x1E, 0), fat12_bytes(), 1),
        Ok(0x12)
    );
    assert_eq!(
        fails_at(Alloc::start(fat_type, None, None, 0x1E, 0), fat12_bytes(), 1),
        Err(FatError::Io(7))
    );
}

#[test]
fn a_search_that_fails_leaves_the_one_below_the_hint() {
    for fat_type in TYPES {
        let first = Alloc::start::<u8>(fat_type, None, Some(0x1B), 0x1E, 0);
        let Step::Do(machine, _) = first else { panic!() };
        match machine.step(StreamReply::Failed(FatError::Io(7))) {
            Step::Do(machine, op) => {
                assert!(matches!(op, StreamOp::SeekTo(pos) if pos == entry_offset(fat_type, 2)));
                match machine.phase {
                    AllocPhase::Second(find) => {
                        assert_eq!((find.start, find.end, find.cluster), (2, 0x1B, 2));
                    }
                    _ => panic!("the second search was not begun"),
                }
            }
            Step::Done(_) => panic!("the second search was not begun"),
        }
    }
}

#[test]
fn an_entry_that_cannot_be_read_is_written_all_the_same() {
    for fat_type in TYPES {
        let task = ReleaseTask { fat_type, from: 9, keep: false, err: false };
        let Step::Do(machine, _) = ReleaseChain::start::<u8>(task) else { panic!() };
        match StreamMachine::<u8>::step(machine, StreamReply::Failed(FatError::Io(7))) {
            Step::Do(machine, op) => {
                assert!(matches!(op, StreamOp::SeekTo(pos) if pos == entry_offset(fat_type, 9)));
                assert_eq!((machine.state.cluster, machine.state.next), (9, Some(9)));
                assert!(machine.state.err);
                assert_eq!(machine.state.num_free, 0);
                assert!(matches!(machine.phase, ReleasePhase::Write(_)));
            }
            Step::Done(_) => panic!("the release was given up"),
        }
    }
}

#[test]
fn a_cluster_that_is_never_set_free_ends_a_release() {
    let task = ReleaseTask { fat_type: FatType::Fat32, from: 0x0FFF_FFF8, keep: false, err: false };
    // The chain ends there, and the entry is read once more before it would be written.
    let mut step = ReleaseChain::start::<()>(task);
    loop {
        match step {
            Step::Done(Released::Forbidden(cluster)) => {
                assert_eq!(cluster, 0x0FFF_FFF8);
                return;
            }
            Step::Done(Released::Ended { .. }) => panic!("the cluster was set free"),
            Step::Do(machine, op) => {
                let reply = match op {
                    StreamOp::SeekTo(pos) => {
                        assert_eq!(pos, 4 * 0x0FFF_FFF8);
                        StreamReply::Done
                    }
                    StreamOp::ReadU32 => StreamReply::U32(0x0FFF_FFFF),
                    other => panic!("unexpected {other:?}"),
                };
                step = machine.step(reply);
            }
        }
    }
}
