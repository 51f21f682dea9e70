use sdfat::block::{blocks_to_slice, blocks_to_slice_mut, slice_to_blocks, slice_to_blocks_mut, Erase};

#[test]
fn test_conversion_round_trip() {
    let blocks = &mut [[0u8; 512], [0u8; 512]];
    let slice = blocks_to_slice_mut::<4, 512>(blocks);
    assert!(slice.len() == 1024);
    let blocks: &mut [[u8; 512]] = slice_to_blocks_mut::<4, 512>(slice);
    assert!(blocks.len() == 2);
}

#[test]
fn blocks_are_joined_in_order() {
    let blocks = [[1u8, 2, 3, 4], [5, 6, 7, 8]];
    assert_eq!(blocks_to_slice::<4, 4>(&blocks), &[1u8, 2, 3, 4, 5, 6, 7, 8][..]);
    let bytes = [9u8, 8, 7, 6, 5, 4, 3, 2];
    assert_eq!(slice_to_blocks::<4, 4>(&bytes), &[[9u8, 8, 7, 6], [5, 4, 3, 2]][..]);
    assert_eq!(slice_to_blocks::<4, 8>(&bytes), &[[9u8, 8, 7, 6, 5, 4, 3, 2]][..]);
}

#[test]
fn no_bytes_are_no_blocks() {
    let bytes: [u8; 0] = [];
    assert_eq!(slice_to_blocks::<4, 512>(&bytes).len(), 0);
    let blocks: [[u8; 512]; 0] = [];
    assert_eq!(blocks_to_slice::<4, 512>(&blocks).len(), 0);
}

#[test]
fn writing_to_blocks_writes_to_the_bytes() {
    let mut bytes = [0u8; 8];
    slice_to_blocks_mut::<4, 4>(&mut bytes)[1][2] = 7;
    assert_eq!(bytes, [0, 0, 0, 0, 0, 0, 7, 0]);
    let mut blocks = [[0u8; 4]; 2];
    blocks_to_slice_mut::<4, 4>(&mut blocks)[5] = 3;
    assert_eq!(blocks, [[0, 0, 0, 0], [0, 3, 0, 0]]);
}

struct Eraser {
    erased: Vec<(u32, u32)>,
}

impl Erase for Eraser {
    type Error = ();

    fn erase_blocks(&mut self, start_block: u32, end_block: u32) -> Result<(), ()> {
        self.erased.push((start_block, end_block));
        Ok(())
    }
}

#[test]
fn a_device_can_offer_erasing() {
    let mut device = Eraser { erased: Vec::new() };
    assert_eq!(device.erase_blocks(3, 9), Ok(()));
    assert_eq!(device.erased, vec![(3, 9)]);
}
