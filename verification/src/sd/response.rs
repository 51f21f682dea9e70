//! What a card answers: the status of a command, and the tokens around a data block.

use vstd::prelude::*;

verus! {

/// Status for card in the ready state
pub const R1_READY_STATE: u8 = 0x00;

/// Status for card in the idle state
pub const R1_IDLE_STATE: u8 = 0x01;

/// Status bit for illegal command
pub const R1_ILLEGAL_COMMAND: u8 = 0x04;

/// Start data token for read or write single block
pub const DATA_START_BLOCK: u8 = 0xFE;

/// Stop token for write multiple blocks
pub const STOP_TRAN_TOKEN: u8 = 0xFD;

/// Start data token for write multiple blocks
pub const WRITE_MULTIPLE_TOKEN: u8 = 0xFC;

/// Mask for data response tokens after a write block operation
pub const DATA_RES_MASK: u8 = 0x1F;

/// Write data accepted token
pub const DATA_RES_ACCEPTED: u8 = 0x05;

/// Why an operation on a card failed.
#[derive(Copy, Clone, Debug, PartialEq, Eq)]
#[non_exhaustive]
pub enum Error {
    /// No R1 arrived inside the NCR window and the fallback poll. Carries the command
    /// index: CMD0 silent means no card, ACMD41 silent means that the card stopped
    /// answering partway through init.
    NoResponseTo(u8),
    /// An R1 was read but bit 7 was set, so it was not an R1 at all.
    NoResponse,
    /// R1: the command's CRC was wrong, so the card ignored it.
    CommandCrcError,
    /// R1: command not legal for the current card state.
    IllegalCommand,
    /// R1: argument out of the allowed range.
    ParameterError,
    /// R1: misaligned address for the block length.
    AddressError,
    /// R1: erase sequence broken (e.g. CMD32/33/38 out of order).
    EraseSequenceError,
    /// R1: an erase sequence was cleared before it ran.
    EraseReset,
    /// Write rejected: the card saw a CRC error in the data block.
    DataCrcError,
    /// Write rejected: an internal write error.
    DataWriteError,
    /// Data response token outside the values that are defined.
    UnknownDataResponse(u8),
    /// Read failed: generic error token.
    ReadError,
    /// Read failed: internal card controller error.
    CardControllerError,
    /// Read failed: ECC could not correct the data.
    CardEccFailed,
    /// Read failed: address out of range.
    OutOfRange,
    /// The arbiter would not hand over the bus. The command fails rather than running
    /// unlocked.
    BusUnavailable,
    /// The chip-select could not be driven.
    ChipSelect,
    /// The bus failed.
    SpiError,
    /// An operation ran too long.
    Timeout,
    /// The card is older than the ones that are supported.
    UnsupportedCard,
    /// The operation conditions could not be read.
    Cmd58Error,
    /// The card would not check checksums.
    Cmd59Error,
    /// A register could not be read, or an unexpected token came in place of data.
    RegisterError(u8),
    /// The checksum of a data block, and the one that its bytes have.
    CrcMismatch(u16, u16),
    /// There is no card yet.
    NotInitialized,
    /// No data response came after a data block.
    WriteError,
    /// The card refused to erase.
    EraseError,
}

/// The first fault that a status reports, most severe first. A CRC error means that
/// the command never took effect, so it comes ahead of its consequences.
pub open spec fn fault(status: u8) -> Option<Error> {
    if status >= 0x80 {
        Some(Error::NoResponse)
    } else if status & R1Status::COM_CRC_ERROR != 0 {
        Some(Error::CommandCrcError)
    } else if status & R1Status::ILLEGAL_COMMAND != 0 {
        Some(Error::IllegalCommand)
    } else if status & R1Status::PARAMETER_ERROR != 0 {
        Some(Error::ParameterError)
    } else if status & R1Status::ADDRESS_ERROR != 0 {
        Some(Error::AddressError)
    } else if status & R1Status::ERASE_SEQUENCE_ERROR != 0 {
        Some(Error::EraseSequenceError)
    } else if status & R1Status::ERASE_RESET != 0 {
        Some(Error::EraseReset)
    } else {
        None
    }
}

/// The first fault that a status reports among those that are wrong in every card
/// state, most severe first. An illegal command and an erase reset are answers: they
/// are never such a fault, whatever else the status reports.
pub open spec fn hard_fault(status: u8) -> Option<Error> {
    if status >= 0x80 {
        Some(Error::NoResponse)
    } else if status & R1Status::COM_CRC_ERROR != 0 {
        Some(Error::CommandCrcError)
    } else if status & R1Status::PARAMETER_ERROR != 0 {
        Some(Error::ParameterError)
    } else if status & R1Status::ADDRESS_ERROR != 0 {
        Some(Error::AddressError)
    } else if status & R1Status::ERASE_SEQUENCE_ERROR != 0 {
        Some(Error::EraseSequenceError)
    } else {
        None
    }
}

/// The bit of a status that reports a fault.
pub open spec fn fault_bit(e: Error) -> u8 {
    match e {
        Error::CommandCrcError => R1Status::COM_CRC_ERROR,
        Error::IllegalCommand => R1Status::ILLEGAL_COMMAND,
        Error::ParameterError => R1Status::PARAMETER_ERROR,
        Error::AddressError => R1Status::ADDRESS_ERROR,
        Error::EraseSequenceError => R1Status::ERASE_SEQUENCE_ERROR,
        Error::EraseReset => R1Status::ERASE_RESET,
        _ => 0,
    }
}

/// R1 status byte, decoded.
///
/// Bit 7 is always 0 on a valid R1; the rest are sticky error flags that the card
/// clears on the next command.
#[derive(Copy, Clone, Debug, PartialEq, Eq)]
pub struct R1Status(pub u8);

impl R1Status {
    pub const IDLE: u8 = 0x01;

    pub const ERASE_RESET: u8 = 0x02;

    pub const ILLEGAL_COMMAND: u8 = 0x04;

    pub const COM_CRC_ERROR: u8 = 0x08;

    pub const ERASE_SEQUENCE_ERROR: u8 = 0x10;

    pub const ADDRESS_ERROR: u8 = 0x20;

    pub const PARAMETER_ERROR: u8 = 0x40;

    /// Every bit that reports a fault (i.e. all but `IDLE`).
    pub const ERROR_MASK: u8 = 0x7E;

    /// Faults that are wrong in EVERY card state, so that a command can reject them
    /// without knowing what the caller was probing for.
    ///
    /// `ILLEGAL_COMMAND` and `ERASE_RESET` are deliberately excluded: they are
    /// legitimate answers, not failures. CMD8 identifies a v1 card *by* being
    /// refused, and some cards refuse CMD59.
    pub const ALWAYS_FAULT_MASK: u8 = 0x78;

    /// The byte is a status at all.
    pub fn is_valid(self) -> (b: bool)
        ensures
            b == (self.0 < 0x80),
    {
        let byte: u8 = self.0;
        assert((byte & 0x80 == 0) == (byte < 0x80)) by (bit_vector);
        self.0 & 0x80 == 0
    }

    /// The card is in the idle state.
    pub fn idle(self) -> (b: bool)
        ensures
            b == (self.0 & Self::IDLE != 0),
    {
        self.0 & Self::IDLE != 0
    }

    /// The card is ready and reports nothing.
    pub fn ready(self) -> (b: bool)
        ensures
            b == (self.0 == 0),
    {
        self.0 == 0
    }

    /// The faults that the status reports, as bits.
    pub fn errors(self) -> (bits: u8)
        ensures
            bits == self.0 & Self::ERROR_MASK,
    {
        self.0 & Self::ERROR_MASK
    }

    /// The unconditional fault this R1 reports, if any: the first one of
    /// [`R1Status::ALWAYS_FAULT_MASK`], most severe first.
    pub fn to_hard_error(self) -> (e: Option<Error>)
        ensures
            e == hard_fault(self.0),
    {
        if !self.is_valid() {
            return Some(Error::NoResponse);
        }
        if self.0 & Self::COM_CRC_ERROR != 0 {
            return Some(Error::CommandCrcError);
        }
        if self.0 & Self::PARAMETER_ERROR != 0 {
            return Some(Error::ParameterError);
        }
        if self.0 & Self::ADDRESS_ERROR != 0 {
            return Some(Error::AddressError);
        }
        if self.0 & Self::ERASE_SEQUENCE_ERROR != 0 {
            return Some(Error::EraseSequenceError);
        }
        None
    }

    /// The first fault the card reports, most severe first, or `None`.
    pub fn to_error(self) -> (e: Option<Error>)
        ensures
            e == fault(self.0),
    {
        if !self.is_valid() {
            return Some(Error::NoResponse);
        }
        if self.0 & Self::COM_CRC_ERROR != 0 {
            return Some(Error::CommandCrcError);
        }
        if self.0 & Self::ILLEGAL_COMMAND != 0 {
            return Some(Error::IllegalCommand);
        }
        if self.0 & Self::PARAMETER_ERROR != 0 {
            return Some(Error::ParameterError);
        }
        if self.0 & Self::ADDRESS_ERROR != 0 {
            return Some(Error::AddressError);
        }
        if self.0 & Self::ERASE_SEQUENCE_ERROR != 0 {
            return Some(Error::EraseSequenceError);
        }
        if self.0 & Self::ERASE_RESET != 0 {
            return Some(Error::EraseReset);
        }
        None
    }
}

/// What a card makes of a data block that was sent to it.
pub open spec fn rejection(token: u8) -> Option<Error> {
    let status = token & DATA_RES_MASK;
    if status == DATA_RES_ACCEPTED {
        None
    } else if status == 0x0B {
        Some(Error::DataCrcError)
    } else if status == 0x0D {
        Some(Error::DataWriteError)
    } else {
        Some(Error::UnknownDataResponse(status))
    }
}

/// Data-response token returned after a write block. Format `xxx0sss1`; only the
/// three `sss` bits carry meaning.
#[derive(Copy, Clone, Debug, PartialEq, Eq)]
pub struct DataResponse(pub u8);

impl DataResponse {
    /// The bits that carry meaning, and the fixed ones around them.
    pub fn status(self) -> (bits: u8)
        ensures
            bits == self.0 & DATA_RES_MASK,
    {
        self.0 & DATA_RES_MASK
    }

    /// The card has taken the block.
    pub fn accepted(self) -> (b: bool)
        ensures
            b == (rejection(self.0) is None),
    {
        self.status() == DATA_RES_ACCEPTED
    }

    /// Why the card has not taken the block, or `None` if it has.
    pub fn to_error(self) -> (e: Option<Error>)
        ensures
            e == rejection(self.0),
    {
        match self.status() {
            DATA_RES_ACCEPTED => None,
            0x0B => Some(Error::DataCrcError),
            0x0D => Some(Error::DataWriteError),
            other => Some(Error::UnknownDataResponse(other)),
        }
    }
}

/// Why a card cannot deliver a block, most specific cause first. Only a token whose
/// high nibble is clear says so.
pub open spec fn refusal(token: u8) -> Option<Error> {
    if !(0 < token < 0x10) {
        None
    } else if token & 0x08 != 0 {
        Some(Error::OutOfRange)
    } else if token & 0x04 != 0 {
        Some(Error::CardEccFailed)
    } else if token & 0x02 != 0 {
        Some(Error::CardControllerError)
    } else {
        Some(Error::ReadError)
    }
}

/// Data-error token, sent instead of a data-start token when the card cannot deliver
/// a block. High nibble is zero; low bits are flags.
#[derive(Copy, Clone, Debug, PartialEq, Eq)]
pub struct DataErrorToken(pub u8);

impl DataErrorToken {
    /// A token is an error token only if the top four bits are clear.
    pub fn is_error_token(self) -> (b: bool)
        ensures
            b == (0 < self.0 < 0x10),
    {
        let byte: u8 = self.0;
        assert((byte & 0xF0 == 0) == (byte < 0x10)) by (bit_vector);
        self.0 & 0xF0 == 0 && self.0 != 0
    }

    /// Why the card cannot deliver a block, or `None` if this is no error token.
    pub fn to_error(self) -> (e: Option<Error>)
        ensures
            e == refusal(self.0),
    {
        if !self.is_error_token() {
            return None;
        }
        if self.0 & 0x08 != 0 {
            return Some(Error::OutOfRange);
        }
        if self.0 & 0x04 != 0 {
            return Some(Error::CardEccFailed);
        }
        if self.0 & 0x02 != 0 {
            return Some(Error::CardControllerError);
        }
        Some(Error::ReadError)
    }
}

/// No fault goes unreported: a valid status without an error is that of a card that is
/// ready or idle, and says nothing else.
pub proof fn law_no_status_bit_is_ignored(status: u8)
    ensures
        fault(status) is None <==> status == R1_READY_STATE || status == R1_IDLE_STATE,
        fault(status) is None <==> status < 0x80 && status & R1Status::ERROR_MASK == 0,
{
    assert((status < 0x80 && status & 0x08 == 0 && status & 0x04 == 0 && status & 0x40 == 0 && status
        & 0x20 == 0 && status & 0x10 == 0 && status & 0x02 == 0) == (status == 0 || status == 1)
        && (status < 0x80 && status & 0x7E == 0) == (status == 0 || status == 1)) by (bit_vector);
}

/// A command rejects a status exactly where it reports a CRC, parameter, address or
/// erase sequence error, or is no status, and it names a fault that the status reports
/// and that is wrong in every card state. The idle, erase reset and illegal command
/// bits are answers: they reject nothing, and are never named.
pub proof fn law_answers_are_not_hard_faults(status: u8)
    ensures
        hard_fault(status) is None <==> status < 0x80 && status & R1Status::ALWAYS_FAULT_MASK == 0,
        hard_fault(status) is None <==> status < 0x08,
        fault(status) is None ==> hard_fault(status) is None,
        status >= 0x80 ==> hard_fault(status) == Some(Error::NoResponse),
        status < 0x80 ==> (hard_fault(status) matches Some(e) ==> {
            &&& status & fault_bit(e) != 0
            &&& R1Status::ALWAYS_FAULT_MASK & fault_bit(e) != 0
        }),
        hard_fault(status) != Some(Error::IllegalCommand),
        hard_fault(status) != Some(Error::EraseReset),
{
    assert((status < 0x80 && status & 0x78 == 0) == (status < 0x08) && (status < 0x80 && status
        & 0x08 == 0 && status & 0x40 == 0 && status & 0x20 == 0 && status & 0x10 == 0) == (status
        < 0x08) && 0x78u8 & 0x08 != 0 && 0x78u8 & 0x40 != 0 && 0x78u8 & 0x20 != 0 && 0x78u8 & 0x10
        != 0) by (bit_vector);
}

/// A CRC error comes ahead of every other fault of a valid status.
pub proof fn law_a_crc_error_comes_first(status: u8)
    requires
        status < 0x80,
        status & R1Status::COM_CRC_ERROR != 0,
    ensures
        fault(status) == Some(Error::CommandCrcError),
        hard_fault(status) == Some(Error::CommandCrcError),
{
}

/// A token that starts a data block, or an idle line, is never taken for an error
/// token, and every error token reports an error.
pub proof fn law_error_tokens_are_told_apart(token: u8)
    ensures
        refusal(token) is Some <==> 0 < token < 0x10,
        refusal(DATA_START_BLOCK) is None,
        refusal(0xFF) is None,
{
}

/// Every status is read the same way, bit by bit: one with the topmost bit is none. Of the
/// others, a CRC error is named first, then an illegal command, a parameter, an address and an
/// erase sequence error, and an erase reset last. A hard fault is the first of these that is no
/// answer.
pub proof fn law_faults_are_named_by_their_bits(status: u8)
    ensures
        ({
            let bit = |k: int| status as int / k % 2 == 1;
            &&& fault(status) == if bit(128) {
                Some(Error::NoResponse)
            } else if bit(8) {
                Some(Error::CommandCrcError)
            } else if bit(4) {
                Some(Error::IllegalCommand)
            } else if bit(64) {
                Some(Error::ParameterError)
            } else if bit(32) {
                Some(Error::AddressError)
            } else if bit(16) {
                Some(Error::EraseSequenceError)
            } else if bit(2) {
                Some(Error::EraseReset)
            } else {
                None
            }
            &&& hard_fault(status) == if bit(128) {
                Some(Error::NoResponse)
            } else if bit(8) {
                Some(Error::CommandCrcError)
            } else if bit(64) {
                Some(Error::ParameterError)
            } else if bit(32) {
                Some(Error::AddressError)
            } else if bit(16) {
                Some(Error::EraseSequenceError)
            } else {
                None
            }
        }),
{
    assert((status >= 0x80) == (status / 128 % 2 == 1) && (status & 0x08 != 0) == (status / 8 % 2
        == 1) && (status & 0x04 != 0) == (status / 4 % 2 == 1) && (status & 0x40 != 0) == (status
        / 64 % 2 == 1) && (status & 0x20 != 0) == (status / 32 % 2 == 1) && (status & 0x10 != 0)
        == (status / 16 % 2 == 1) && (status & 0x02 != 0) == (status / 2 % 2 == 1))
        by (bit_vector);
}

/// The status of a card that is well, and the numbers of the bits and tokens.
pub proof fn law_the_numbers_of_the_protocol()
    ensures
        R1_READY_STATE == 0 && R1_IDLE_STATE == 1 && R1_ILLEGAL_COMMAND == 4,
        DATA_START_BLOCK == 254 && STOP_TRAN_TOKEN == 253 && WRITE_MULTIPLE_TOKEN == 252,
        DATA_RES_MASK == 31 && DATA_RES_ACCEPTED == 5,
        R1Status::IDLE == 1 && R1Status::ERASE_RESET == 2 && R1Status::ILLEGAL_COMMAND == 4,
        R1Status::COM_CRC_ERROR == 8 && R1Status::ERASE_SEQUENCE_ERROR == 16,
        R1Status::ADDRESS_ERROR == 32 && R1Status::PARAMETER_ERROR == 64,
        R1Status::ERROR_MASK == 126 && R1Status::ALWAYS_FAULT_MASK == 120,
{
}

/// What a card makes of a block is in the low five bits of its response: 5 is taken, 11 a CRC
/// error, 13 a write error, and every other number is handed on.
pub proof fn law_a_block_is_taken_or_rejected(token: u8)
    ensures
        ({
            let low = token % 32;
            &&& rejection(token) is None <==> low == 5
            &&& rejection(token) == Some(Error::DataCrcError) <==> low == 11
            &&& rejection(token) == Some(Error::DataWriteError) <==> low == 13
            &&& low != 5 && low != 11 && low != 13 ==> rejection(token) == Some(
                Error::UnknownDataResponse(low),
            )
        }),
{
    assert(token & 0x1F == token % 32) by (bit_vector);
}

/// Why a card cannot deliver a block is the highest bit of an error token that is set.
pub proof fn law_the_highest_bit_of_an_error_token_counts(token: u8)
    ensures
        8 <= token <= 15 <==> refusal(token) == Some(Error::OutOfRange),
        4 <= token <= 7 <==> refusal(token) == Some(Error::CardEccFailed),
        2 <= token <= 3 <==> refusal(token) == Some(Error::CardControllerError),
        token == 1 <==> refusal(token) == Some(Error::ReadError),
        token == 0 || token >= 16 <==> refusal(token) is None,
{
    assert(token < 16 ==> (token & 0x08 != 0) == (token >= 8) && (token < 8 ==> (token & 0x04 != 0)
        == (token >= 4)) && (token < 4 ==> (token & 0x02 != 0) == (token >= 2))) by (bit_vector);
}

} // verus!
