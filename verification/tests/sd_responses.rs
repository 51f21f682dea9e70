use sdfat::sd::card::{Card, CardCapacity};
use sdfat::sd::crc::{crc16, crc7};
use sdfat::sd::driver::wall;
use sdfat::sd::response::{
    DataErrorToken, DataResponse, Error, R1Status, DATA_RES_ACCEPTED, DATA_START_BLOCK,
};

// ---- R1 ---------------------------------------------------------------

#[test]
fn r1_ready_and_idle_are_not_errors() {
    assert!(R1Status(0x00).ready());
    assert_eq!(R1Status(0x00).to_error(), None);
    assert!(R1Status(0x01).idle());
    assert!(!R1Status(0x01).ready());
    assert_eq!(R1Status(0x01).to_error(), None, "idle alone is a state, not a fault");
}

#[test]
fn r1_with_bit7_set_is_not_a_response_at_all() {
    assert!(!R1Status(0xFF).is_valid());
    assert_eq!(R1Status(0xFF).to_error(), Some(Error::NoResponse));
    assert!(!R1Status(0x80).is_valid());
}

#[test]
fn every_r1_error_bit_decodes_to_its_own_error() {
    let cases = [
        (R1Status::ERASE_RESET, Error::EraseReset),
        (R1Status::ILLEGAL_COMMAND, Error::IllegalCommand),
        (R1Status::COM_CRC_ERROR, Error::CommandCrcError),
        (R1Status::ERASE_SEQUENCE_ERROR, Error::EraseSequenceError),
        (R1Status::ADDRESS_ERROR, Error::AddressError),
        (R1Status::PARAMETER_ERROR, Error::ParameterError),
    ];
    for (bit, want) in cases {
        assert_eq!(R1Status(bit).to_error(), Some(want), "bit {bit:#04x}");
        // Also set alongside IDLE, which is how a card reports during init.
        assert_eq!(R1Status(bit | R1Status::IDLE).to_error(), Some(want), "bit {bit:#04x} with IDLE");
    }
}

#[test]
fn no_error_bit_is_silently_ignored() {
    // Every settable bit except IDLE must produce SOME error. A bit that
    // decodes to None is a fault the driver would swallow.
    for bit in 1..7 {
        let raw = 1u8 << bit;
        assert!(R1Status(raw).to_error().is_some(), "R1 bit {bit} ({raw:#04x}) decodes to no error");
    }
}

#[test]
fn r1_reports_crc_ahead_of_its_consequences() {
    // A bad CRC means the command never ran, so it outranks ADDRESS_ERROR.
    let both = R1Status(R1Status::COM_CRC_ERROR | R1Status::ADDRESS_ERROR);
    assert_eq!(both.to_error(), Some(Error::CommandCrcError));
}

#[test]
fn illegal_command_is_an_answer_not_a_hard_error() {
    // CMD8 identifies a v1 card BY being refused, and some cards refuse
    // CMD59. A command must pass these through so the caller can interpret
    // them.
    let r = R1Status(R1Status::ILLEGAL_COMMAND | R1Status::IDLE);
    assert_eq!(r.to_hard_error(), None);
    assert_eq!(r.to_error(), Some(Error::IllegalCommand), "still decodable on demand");
    assert_eq!(R1Status(R1Status::ERASE_RESET).to_hard_error(), None);
}

#[test]
fn unconditional_faults_are_always_rejected() {
    for (bit, want) in [
        (R1Status::COM_CRC_ERROR, Error::CommandCrcError),
        (R1Status::PARAMETER_ERROR, Error::ParameterError),
        (R1Status::ADDRESS_ERROR, Error::AddressError),
        (R1Status::ERASE_SEQUENCE_ERROR, Error::EraseSequenceError),
    ] {
        assert_eq!(R1Status(bit).to_hard_error(), Some(want), "bit {bit:#04x}");
        assert_eq!(R1Status(bit | R1Status::IDLE).to_hard_error(), Some(want));
    }
    assert_eq!(R1Status(0x00).to_hard_error(), None);
    assert_eq!(R1Status(R1Status::IDLE).to_hard_error(), None);
    assert_eq!(R1Status(0xFF).to_hard_error(), Some(Error::NoResponse));
}

#[test]
fn an_answer_does_not_hide_an_unconditional_fault() {
    assert_eq!(R1Status(0x24).to_hard_error(), Some(Error::AddressError));
    assert_eq!(R1Status(0x24).to_error(), Some(Error::IllegalCommand));
    assert_eq!(R1Status(0x44).to_hard_error(), Some(Error::ParameterError));
    assert_eq!(R1Status(0x12).to_hard_error(), Some(Error::EraseSequenceError));
    assert_eq!(R1Status(0x7E).to_hard_error(), Some(Error::CommandCrcError));
    assert_eq!(R1Status(0x76).to_hard_error(), Some(Error::ParameterError));
    for status in 0..=0xFF_u8 {
        let answers = R1Status::IDLE | R1Status::ERASE_RESET | R1Status::ILLEGAL_COMMAND;
        assert_eq!(
            R1Status(status).to_hard_error(),
            R1Status(status & !answers).to_error(),
            "status {status:#04x}"
        );
    }
}

#[test]
fn r1_errors_mask_excludes_idle() {
    assert_eq!(R1Status(0x01).errors(), 0);
    assert_eq!(R1Status(0x09).errors(), R1Status::COM_CRC_ERROR);
}

// ---- data response token (write) --------------------------------------

#[test]
fn data_response_accepted() {
    // Only bits 3..1 are fixed; the surrounding bits are undefined.
    for pad in [0x00u8, 0xE0, 0x20] {
        let t = DataResponse(pad | DATA_RES_ACCEPTED);
        assert!(t.accepted(), "pad {pad:#04x}");
        assert_eq!(t.to_error(), None);
    }
}

#[test]
fn data_response_crc_and_write_errors_decode() {
    assert_eq!(DataResponse(0x0B).to_error(), Some(Error::DataCrcError));
    assert_eq!(DataResponse(0x0D).to_error(), Some(Error::DataWriteError));
    assert!(!DataResponse(0x0B).accepted());
    assert!(!DataResponse(0x0D).accepted());
}

#[test]
fn undefined_data_response_is_reported_not_swallowed() {
    match DataResponse(0x07).to_error() {
        Some(Error::UnknownDataResponse(0x07)) => {}
        other => panic!("undefined token must surface, got {other:?}"),
    }
}

#[test]
fn only_the_low_bits_of_a_data_response_count() {
    assert_eq!(DataResponse(0xE5).status(), 0x05);
    assert_eq!(DataResponse(0xF5).status(), 0x15);
    assert_eq!(DataResponse(0xF5).to_error(), Some(Error::UnknownDataResponse(0x15)));
}

// ---- CRC7 (command integrity) -----------------------------------------

fn cmd_bytes(cmd: u8, arg: u32) -> [u8; 5] {
    [0x40 | cmd, (arg >> 24) as u8, (arg >> 16) as u8, (arg >> 8) as u8, arg as u8]
}

#[test]
fn crc7_matches_the_spec_reference_vectors() {
    // Universally published reference frames; the trailing bit is the always-1 stop bit.
    assert_eq!(crc7(&cmd_bytes(0, 0x0000_0000)), 0x95, "CMD0");
    assert_eq!(crc7(&cmd_bytes(8, 0x0000_01AA)), 0x87, "CMD8");
    assert_eq!(crc7(&cmd_bytes(55, 0x0000_0000)), 0x65, "CMD55");
    assert_eq!(crc7(&cmd_bytes(41, 0x4000_0000)), 0x77, "ACMD41 HCS=1");
    assert_eq!(crc7(&cmd_bytes(58, 0x0000_0000)), 0xFD, "CMD58");
}

#[test]
fn crc7_always_sets_the_stop_bit() {
    for cmd in 0..=63u8 {
        assert_eq!(crc7(&cmd_bytes(cmd, 0)) & 1, 1, "CMD{cmd} stop bit");
    }
}

#[test]
fn crc7_changes_with_the_argument() {
    assert_ne!(crc7(&cmd_bytes(17, 0)), crc7(&cmd_bytes(17, 1)));
}

#[test]
fn crc7_changes_with_every_bit() {
    let frame = cmd_bytes(24, 0x1234_5678);
    for byte in 0..5 {
        for bit in 0..8 {
            let mut other = frame;
            other[byte] ^= 1 << bit;
            assert_ne!(crc7(&frame), crc7(&other), "byte {byte} bit {bit}");
        }
    }
}

#[test]
fn crc16_of_known_blocks() {
    assert_eq!(crc16(&[]), 0);
    assert_eq!(crc16(b"123456789"), 0x31C3);
    assert_eq!(crc16(&[0xFF; 512]), 0x7FA1);
    assert_eq!(crc16(&[0x00; 512]), 0);
}

#[test]
fn crc16_changes_with_every_byte() {
    let block = [0x5A; 16];
    for i in 0..16 {
        let mut other = block;
        other[i] = 0xA5;
        assert_ne!(crc16(&block), crc16(&other), "byte {i}");
    }
}

#[test]
fn checksums_are_linear() {
    let (a, b) = (cmd_bytes(17, 0x0102_0304), cmd_bytes(24, 0xFFEE_0011));
    let mut both = a;
    for (x, y) in both.iter_mut().zip(b) {
        *x ^= y;
    }
    assert_eq!(crc7(&both), (crc7(&a) ^ crc7(&b)) | 1);
    assert_eq!(crc16(&both), crc16(&a) ^ crc16(&b));
}

#[test]
fn a_block_and_its_checksum_cancel_out() {
    for block in [&b"123456789"[..], &[0xFF; 512], &[], &[0x80]] {
        let mut all = block.to_vec();
        all.extend(crc16(block).to_be_bytes());
        assert_eq!(crc16(&all), 0);
    }
}

// ---- data error token (read) ------------------------------------------

#[test]
fn data_error_token_bits_decode() {
    assert_eq!(DataErrorToken(0x01).to_error(), Some(Error::ReadError));
    assert_eq!(DataErrorToken(0x02).to_error(), Some(Error::CardControllerError));
    assert_eq!(DataErrorToken(0x04).to_error(), Some(Error::CardEccFailed));
    assert_eq!(DataErrorToken(0x08).to_error(), Some(Error::OutOfRange));
}

#[test]
fn data_error_token_reports_the_most_specific_cause() {
    // Bit 0 is set alongside the specific cause on real cards; the specific
    // one must win, or every read failure looks identical.
    assert_eq!(DataErrorToken(0x09).to_error(), Some(Error::OutOfRange));
    assert_eq!(DataErrorToken(0x05).to_error(), Some(Error::CardEccFailed));
    assert_eq!(DataErrorToken(0x03).to_error(), Some(Error::CardControllerError));
}

#[test]
fn data_start_token_is_not_mistaken_for_an_error_token() {
    // 0xFE starts a data block and 0xFF is idle -- neither has a clear high
    // nibble, so neither may decode as an error.
    assert!(!DataErrorToken(DATA_START_BLOCK).is_error_token());
    assert_eq!(DataErrorToken(DATA_START_BLOCK).to_error(), None);
    assert!(!DataErrorToken(0xFF).is_error_token());
    assert_eq!(DataErrorToken(0xFF).to_error(), None);
    assert!(!DataErrorToken(0x00).is_error_token(), "all-zero is not a token");
}

#[test]
fn no_data_error_bit_is_silently_ignored() {
    for bit in 0..4 {
        let raw = 1u8 << bit;
        assert!(
            DataErrorToken(raw).to_error().is_some(),
            "data error bit {bit} ({raw:#04x}) decodes to no error"
        );
    }
}

// ---- the card -----------------------------------------------------------

#[test]
fn a_blank_card() {
    let card = Card::default();
    assert_eq!(card.card_type, CardCapacity::StandardCapacity);
    assert_eq!((card.ocr, card.rca, card.cid, card.csd), (0, 0, 0, 0));
}

fn card_with(csd: u128) -> Card {
    Card { csd, ..Card::default() }
}

#[test]
fn the_size_of_a_card_by_the_version_of_its_csd() {
    // Version 0: (size + 1) * 2^(exponent + 2) blocks.
    assert_eq!(card_with(0).size(), 4 * 512);
    assert_eq!(card_with((0xFFF << 62) | (7 << 47)).size(), 0x1000 * 512 * 512);
    assert_eq!(card_with((99 << 62) | (3 << 47)).size(), 100 * 32 * 512);
    // Version 1: (size + 1) * 1024 blocks.
    assert_eq!(card_with((1 << 126) | (0x3B37 << 48)).size(), 0x3B38 * 1024 * 512);
    assert_eq!(card_with((1 << 126) | (0x3F_FFFF << 48)).size(), 1 << 41);
    assert_eq!(card_with((1 << 126) | (0x7F_FFFF << 48)).size(), 1 << 41);
    // Version 2: the same, with a larger size.
    assert_eq!(card_with((2 << 126) | (0xFFF_FFFF << 48)).size(), 1 << 47);
    // There is no version 3.
    assert_eq!(card_with(u128::MAX).size(), 0);
}

#[test]
fn a_bound_is_stretched_for_a_slow_program() {
    assert_eq!(wall(10_000, false), 10_000);
    assert_eq!(wall(10_000, true), 1_000_000);
    assert_eq!(wall(u32::MAX, true), u32::MAX);
    assert_eq!(wall(0x028F_5C28, true), 0xFFFF_FFA0);
    assert_eq!(wall(0x028F_5C29, true), u32::MAX);
}
