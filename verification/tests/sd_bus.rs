use std::collections::VecDeque;

use sdfat::sd::bus::{BusMachine, BusOp, BusReply, BusStep};
use sdfat::sd::card::Command;
use sdfat::sd::command::{command_frame, SendCommand, NCR_GRACE_MS};
use sdfat::sd::crc::crc16;
use sdfat::sd::data::{ReceiveBlock, SendBlock};
use sdfat::sd::driver::sd_init;
use sdfat::sd::idle::WaitIdle;
use sdfat::sd::init::STEP_MS;
use sdfat::sd::response::{Error, DATA_START_BLOCK};

/// A bus on which these bytes come in, and idle ones behind them.
struct Line {
    incoming: VecDeque<u8>,
    sent: Vec<u8>,
    ops: Vec<BusOp>,
    /// The operation of this number does not succeed.
    trouble: Option<(usize, BusReply)>,
}

impl Line {
    fn new(incoming: &[u8]) -> Line {
        Line { incoming: incoming.iter().copied().collect(), sent: Vec::new(), ops: Vec::new(), trouble: None }
    }

    fn clock(&mut self, out: u8) -> u8 {
        self.sent.push(out);
        self.incoming.pop_front().unwrap_or(0xFF)
    }

    fn perform(&mut self, op: BusOp) -> BusReply {
        let number = self.ops.len();
        let reply = match &op {
            BusOp::Write(bytes) => {
                for &b in bytes {
                    self.clock(b);
                }
                BusReply::Done
            }
            BusOp::Transfer(n) => BusReply::Bytes((0..*n).map(|_| self.clock(0xFF)).collect()),
            _ => BusReply::Done,
        };
        self.ops.push(op);
        match &self.trouble {
            Some((n, BusReply::Failed)) if *n == number => BusReply::Failed,
            Some((n, BusReply::Expired)) if *n == number => BusReply::Expired,
            _ => reply,
        }
    }

    fn run<M: BusMachine>(&mut self, first: (M, BusOp)) -> Result<M::Value, Error> {
        let (mut machine, mut op) = first;
        loop {
            let reply = self.perform(op);
            match machine.step(reply) {
                BusStep::Do(next, next_op) => {
                    machine = next;
                    op = next_op;
                }
                BusStep::Done(out) => return out,
            }
        }
    }
}

fn command_on(index: u8, arg: u32, incoming: &[u8]) -> (Result<u8, Error>, Line) {
    let mut line = Line::new(incoming);
    let out = line.run(SendCommand::begin(Command { index, arg }));
    (out, line)
}

/// What is clocked in while the gap and the command go out.
const LEAD: [u8; 10] = [0xFF; 10];

fn behind_lead(bytes: &[u8]) -> Vec<u8> {
    [&LEAD[..], bytes].concat()
}

#[test]
fn a_command_goes_out_as_a_frame_with_its_checksum() {
    assert_eq!(command_frame(Command { index: 0, arg: 0 }), vec![0x40, 0, 0, 0, 0, 0x95]);
    assert_eq!(command_frame(Command { index: 8, arg: 0x1AA }), vec![0x48, 0, 0, 1, 0xAA, 0x87]);
    assert_eq!(
        command_frame(Command { index: 17, arg: 0x1234_5678 })[..5],
        [0x51, 0x12, 0x34, 0x56, 0x78]
    );
    let (out, line) = command_on(0, 0, &behind_lead(&[0x01]));
    assert_eq!(out, Ok(0x01));
    let mut sent = vec![0xFF; 4];
    sent.extend([0x40, 0, 0, 0, 0, 0x95]);
    sent.extend([0xFF; 8]);
    assert_eq!(line.sent, sent);
}

#[test]
fn the_status_is_the_first_byte_of_the_window_with_a_clear_top_bit() {
    for lead in 0..8 {
        let mut response = vec![0xFF; lead];
        response.extend([0x05, 0x00]);
        let (out, line) = command_on(59, 1, &behind_lead(&response));
        assert_eq!(out, Ok(0x05));
        assert_eq!(line.sent.len(), 18);
    }
}

#[test]
fn what_follows_a_status_stays_in_the_card() {
    for index in [8, 9, 10, 13, 17, 18, 58] {
        let (out, line) = command_on(index, 0, &behind_lead(&[0x00, 0xAB]));
        assert_eq!(out, Ok(0));
        assert_eq!(line.incoming, [0xAB]);
    }
}

#[test]
fn a_stop_is_answered_behind_a_stuff_byte() {
    let (out, line) = command_on(12, 0, &behind_lead(&[0x00, 0x02, 0x77]));
    assert_eq!(out, Ok(0x02));
    assert_eq!(line.incoming, [0x77]);
}

#[test]
fn a_late_card_is_polled() {
    let mut response = vec![0xFF; 8 + 3];
    response.push(0x01);
    let (out, line) = command_on(0, 0, &behind_lead(&response));
    assert_eq!(out, Ok(0x01));
    assert_eq!(line.ops[3], BusOp::Enter(200));
    assert_eq!(line.ops.iter().filter(|op| **op == BusOp::DelayMs(1)).count(), 3);
    assert_eq!(*line.ops.last().unwrap(), BusOp::Leave);
}

#[test]
fn a_silent_card_is_named_by_the_command() {
    let mut line = Line::new(&[]);
    line.trouble = Some((9, BusReply::Expired));
    assert_eq!(
        line.run(SendCommand::begin(Command { index: 41, arg: 0 })),
        Err(Error::NoResponseTo(41))
    );
}

#[test]
fn a_command_rejects_what_is_always_a_fault() {
    for (status, want) in [
        (0x08, Error::CommandCrcError),
        (0x40, Error::ParameterError),
        (0x20, Error::AddressError),
        (0x10, Error::EraseSequenceError),
        (0x28, Error::CommandCrcError),
        (0x44, Error::ParameterError),
        (0x24, Error::AddressError),
        (0x14, Error::EraseSequenceError),
        (0x12, Error::EraseSequenceError),
        (0x0C, Error::CommandCrcError),
    ] {
        assert_eq!(command_on(24, 0, &behind_lead(&[status])).0, Err(want));
        // A late card is no exception.
        let mut late = vec![0xFF; 9];
        late.push(status);
        assert_eq!(command_on(24, 0, &behind_lead(&late)).0, Err(want));
    }
    assert_eq!(command_on(24, 0, &behind_lead(&[0x06])).0, Ok(0x06));
}

#[test]
fn a_bus_that_fails_ends_a_command() {
    for number in [0, 1, 2] {
        let mut line = Line::new(&[]);
        line.trouble = Some((number, BusReply::Failed));
        assert_eq!(
            line.run(SendCommand::begin(Command { index: 0, arg: 0 })),
            Err(Error::SpiError)
        );
    }
}

fn frame_of(payload: &[u8]) -> Vec<u8> {
    let mut frame = vec![DATA_START_BLOCK];
    frame.extend(payload);
    frame.extend(crc16(payload).to_be_bytes());
    frame
}

#[test]
fn a_block_is_received_wherever_its_token_is() {
    let payload: Vec<u8> = (0..=255).cycle().take(512).collect();
    for lead in 0..20 {
        let mut incoming = vec![0xFF; lead];
        incoming.extend(frame_of(&payload));
        incoming.push(0x42);
        let mut line = Line::new(&incoming);
        assert_eq!(line.run(ReceiveBlock::begin(512)), Ok(payload.clone()));
        assert_eq!(line.incoming, [0x42]);
        assert_eq!(line.sent, vec![0xFF; lead + 515]);
        assert_eq!(line.ops[0], BusOp::Enter(1000));
        assert_eq!(
            line.ops.iter().filter(|op| **op == BusOp::DelayUs(100)).count(),
            lead / 8
        );
    }
}

#[test]
fn a_block_that_was_sent_is_received() {
    let payload: Vec<u8> = (0..16).collect();
    let mut out = Line::new(&[]);
    let _ = out.run(SendBlock::begin(DATA_START_BLOCK, payload.clone()));
    let frame = out.sent[..19].to_vec();
    assert_eq!(frame, frame_of(&payload));
    assert_eq!(Line::new(&frame).run(ReceiveBlock::begin(16)), Ok(payload));
}

#[test]
fn a_changed_block_is_rejected() {
    let payload = [7u8; 16];
    for i in 0..16 {
        let mut frame = frame_of(&payload);
        frame[1 + i] = 8;
        let mut other = payload;
        other[i] = 8;
        assert_eq!(
            Line::new(&frame).run(ReceiveBlock::begin(16)),
            Err(Error::CrcMismatch(crc16(&payload), crc16(&other)))
        );
    }
}

#[test]
fn a_token_that_starts_no_block_is_an_error() {
    for (token, want) in [
        (0x01, Error::ReadError),
        (0x02, Error::CardControllerError),
        (0x04, Error::CardEccFailed),
        (0x09, Error::OutOfRange),
        (0xFC, Error::RegisterError(0xFC)),
        (0x00, Error::RegisterError(0x00)),
        (0x10, Error::RegisterError(0x10)),
    ] {
        assert_eq!(Line::new(&[0xFF, token]).run(ReceiveBlock::begin(512)), Err(want));
    }
}

#[test]
fn a_block_that_does_not_start_is_given_up() {
    let mut line = Line::new(&[]);
    line.trouble = Some((6, BusReply::Expired));
    assert_eq!(line.run(ReceiveBlock::begin(512)), Err(Error::Timeout));
    let mut line = Line::new(&[]);
    line.trouble = Some((1, BusReply::Failed));
    assert_eq!(line.run(ReceiveBlock::begin(512)), Err(Error::SpiError));
}

#[test]
fn the_checksum_of_a_very_short_block_is_read_behind_the_window() {
    let payload = [1u8, 2];
    let sum = crc16(&payload).to_be_bytes();
    // The window holds the whole block, and the checksum of it is lost there.
    let mut line = Line::new(&[0xFE, 1, 2, 0, 0, 0, 0, 0, sum[0], sum[1]]);
    assert_eq!(line.run(ReceiveBlock::begin(2)), Ok(payload.to_vec()));
}

#[test]
fn the_response_to_a_block_is_its_first_byte_that_is_not_idle() {
    let payload = vec![0xA5; 512];
    for (response, want) in [
        (vec![0xE5], Ok(())),
        (vec![0xFF, 0xFF, 0x05], Ok(())),
        (vec![0xFF, 0xFF, 0xFF, 0xFF, 0xFF, 0xFF, 0xFF, 0x0B, 0x05], Err(Error::DataCrcError)),
        (vec![0xFF, 0xED], Err(Error::DataWriteError)),
        (vec![0x07], Err(Error::UnknownDataResponse(7))),
        (vec![], Err(Error::WriteError)),
        (vec![0xFF, 0xFF, 0xFF, 0xFF, 0xFF, 0xFF, 0xFF, 0xFF, 0x05], Err(Error::WriteError)),
    ] {
        let mut incoming = vec![0xFF; 515];
        incoming.extend(response);
        let mut line = Line::new(&incoming);
        assert_eq!(line.run(SendBlock::begin(DATA_START_BLOCK, payload.clone())), want);
        assert_eq!(line.sent[..515], frame_of(&payload)[..]);
        assert_eq!(line.sent[515..], [0xFF; 8]);
    }
    let mut line = Line::new(&[]);
    line.trouble = Some((1, BusReply::Failed));
    assert_eq!(line.run(SendBlock::begin(DATA_START_BLOCK, vec![0; 16])), Err(Error::SpiError));
}

#[test]
fn a_wait_ends_with_the_first_idle_probe() {
    let mut line = Line::new(&[0; 20]);
    assert_eq!(line.run(WaitIdle::begin(10_000, 1)), Ok(()));
    // Two probes are busy, and so is the third, for half of its bytes.
    assert_eq!(line.sent.len(), 32);
    assert_eq!(line.ops[0], BusOp::Enter(10_000));
    assert_eq!(
        line.ops[1..6],
        [BusOp::Acquire, BusOp::SelectLow, BusOp::Transfer(8), BusOp::Release, BusOp::DelayMs(1)]
    );
    assert_eq!(line.ops[line.ops.len() - 2..], [BusOp::Release, BusOp::Leave]);
}

#[test]
fn a_sustained_wait_starts_anew_with_every_busy_byte() {
    // Idle twice, then busy for one byte.
    let mut incoming = vec![0xFF; 16];
    incoming.extend([0xFF, 0xFF, 0x7F, 0xFF]);
    let mut line = Line::new(&incoming);
    assert_eq!(line.run(WaitIdle::begin(60_000, 3)), Ok(()));
    assert_eq!(line.sent.len(), 8 * 6);
    // No probe in a row is as good as one.
    let mut line = Line::new(&[]);
    assert_eq!(line.run(WaitIdle::begin(60_000, 0)), Ok(()));
    assert_eq!(line.sent.len(), 8);
}

#[test]
fn a_wait_fails_with_the_bus() {
    for (number, reply, want) in [
        (1, BusReply::Failed, Error::BusUnavailable),
        (2, BusReply::Failed, Error::ChipSelect),
        (3, BusReply::Failed, Error::SpiError),
        (5, BusReply::Expired, Error::Timeout),
        (1, BusReply::Expired, Error::Timeout),
    ] {
        let mut line = Line::new(&[0; 64]);
        line.trouble = Some((number, reply));
        assert_eq!(line.run(WaitIdle::begin(10_000, 1)), Err(want));
    }
}

#[test]
fn a_card_is_clocked_deselected_behind_power_up() {
    let mut line = Line::new(&[]);
    assert_eq!(line.run(sd_init()), Ok(()));
    assert_eq!(line.ops, vec![BusOp::SelectHigh, BusOp::Write(vec![0xFF; 256])]);
    for (number, want) in [(0, Error::ChipSelect), (1, Error::SpiError)] {
        let mut line = Line::new(&[]);
        line.trouble = Some((number, BusReply::Failed));
        assert_eq!(line.run(sd_init()), Err(want));
    }
}

#[test]
fn the_time_of_a_command_is_well_below_that_of_its_callers() {
    assert!(4 * NCR_GRACE_MS < STEP_MS);
}
