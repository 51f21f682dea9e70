use std::collections::VecDeque;

use sdfat::sd::bus::{BusOp, BusReply};
use sdfat::sd::card::Card;
use sdfat::sd::crc::{crc16, crc7};
use sdfat::sd::driver::SdSpi;
use sdfat::sd::exchange::CardMachine;
use sdfat::sd::response::Error;
use sdfat::sd::session::{Session, SessionStep};

const CSD: u128 = 0x400E_0032_5B59_0000_3B37_7F80_0A40_4001;
const CID: u128 = 0x0353_4453_4331_3647_8011_2233_4401_4B01;

/// A card that answers commands.
struct FakeCard {
    incoming: VecDeque<u8>,
    blocks: Vec<[u8; 512]>,
    log: Vec<(u8, u32)>,
    held: bool,
    selected: bool,
    /// Where a data block goes that is coming in.
    target: Option<u32>,
    data: Vec<u8>,
    /// Busy bytes behind a write or an erase.
    busy: usize,
    /// The answers to a command, in order; the last one stays.
    statuses: Vec<(u8, Vec<u8>)>,
    echo: u8,
    /// The times that the OCR says that the card is busy.
    ocr_busy: usize,
    spoil_data: bool,
    error_token: Option<u8>,
    rejects: Option<u8>,
    running: Vec<u32>,
    /// The operation of this number does not succeed.
    trouble: Option<(usize, BusReply)>,
    ops: usize,
}

impl FakeCard {
    fn new() -> FakeCard {
        FakeCard {
            incoming: VecDeque::new(),
            blocks: (0..8).map(|i| [i as u8; 512]).collect(),
            log: Vec::new(),
            held: false,
            selected: false,
            target: None,
            data: Vec::new(),
            busy: 0,
            statuses: Vec::new(),
            echo: 0xAA,
            ocr_busy: 0,
            spoil_data: false,
            error_token: None,
            rejects: None,
            running: Vec::new(),
            trouble: None,
            ops: 0,
        }
    }

    fn status(&mut self, index: u8, usual: u8) -> u8 {
        for (i, answers) in self.statuses.iter_mut() {
            if *i == index {
                return if answers.len() > 1 { answers.remove(0) } else { answers[0] };
            }
        }
        usual
    }

    fn send_block(&mut self, payload: &[u8]) {
        if let Some(token) = self.error_token {
            self.incoming.extend([0xFF, token]);
            return;
        }
        self.incoming.extend([0xFF, 0xFF, 0xFE]);
        let mut payload = payload.to_vec();
        let sum = crc16(&payload);
        if self.spoil_data {
            payload[3] ^= 0x10;
        }
        self.incoming.extend(payload);
        self.incoming.extend(sum.to_be_bytes());
    }

    fn command(&mut self, frame: &[u8]) {
        assert_eq!(crc7(&frame[..5]), frame[5]);
        let index = frame[0] & 0x3F;
        let arg = u32::from_be_bytes([frame[1], frame[2], frame[3], frame[4]]);
        self.log.push((index, arg));
        self.incoming.clear();
        let usual = match index {
            0 | 59 | 8 | 55 => 0x01,
            _ => 0x00,
        };
        let status = self.status(index, usual);
        self.incoming.push_back(status);
        if status & 0x7E != 0 {
            return;
        }
        match index {
            8 => {
                let echo = self.echo;
                self.incoming.extend([0, 0, 1, echo]);
            }
            58 => {
                let first = if self.ocr_busy > 0 {
                    self.ocr_busy -= 1;
                    0x40
                } else {
                    0xC0
                };
                self.incoming.extend([first, 0xFF, 0x80, 0x00]);
            }
            9 => self.send_block(&CSD.to_be_bytes()),
            10 => self.send_block(&CID.to_be_bytes()),
            17 => {
                let block = self.blocks[arg as usize];
                self.send_block(&block);
            }
            24 => self.target = Some(arg),
            38 => self.busy = 20,
            _ => {}
        }
    }

    fn written(&mut self, bytes: &[u8]) {
        if self.target.is_none() {
            self.command(bytes);
            return;
        }
        self.data.extend(bytes);
        if self.data.len() == 515 {
            let at = self.target.take().unwrap() as usize;
            let data = std::mem::take(&mut self.data);
            assert_eq!(data[0], 0xFE);
            assert_eq!(crc16(&data[1..513]).to_be_bytes(), data[513..515]);
            self.incoming.clear();
            match self.rejects {
                Some(token) => self.incoming.push_back(token),
                None => {
                    self.blocks[at].copy_from_slice(&data[1..513]);
                    self.incoming.push_back(0xE5);
                    self.busy = 9;
                }
            }
        }
    }

    fn perform(&mut self, op: BusOp) -> BusReply {
        let number = self.ops;
        self.ops += 1;
        match &self.trouble {
            Some((n, BusReply::Failed)) if *n == number => return BusReply::Failed,
            Some((n, BusReply::Expired)) if *n == number => return BusReply::Expired,
            _ => {}
        }
        match op {
            BusOp::Acquire => {
                assert!(!self.held);
                self.held = true;
            }
            BusOp::SelectLow => {
                assert!(self.held);
                self.selected = true;
            }
            BusOp::SelectHigh => self.selected = false,
            BusOp::Release => {
                self.held = false;
                self.selected = false;
            }
            BusOp::Write(bytes) => {
                assert!(self.held && self.selected);
                self.written(&bytes);
            }
            BusOp::Transfer(n) => {
                assert!(self.held && self.selected);
                let bytes = (0..n)
                    .map(|_| match self.incoming.pop_front() {
                        Some(b) => b,
                        None if self.busy > 0 => {
                            self.busy -= 1;
                            0x00
                        }
                        None => 0xFF,
                    })
                    .collect();
                return BusReply::Bytes(bytes);
            }
            BusOp::Enter(ms) => self.running.push(ms),
            BusOp::Leave => {
                self.running.pop();
            }
            BusOp::DelayMs(_) | BusOp::DelayUs(_) => {}
        }
        BusReply::Done
    }

    fn run<M: CardMachine>(&mut self, first: (Session<M>, BusOp)) -> (Result<M::Value, Error>, Vec<Vec<u8>>) {
        let (mut session, mut op) = first;
        loop {
            let reply = self.perform(op);
            match session.step(reply) {
                SessionStep::Do(next, next_op) => {
                    session = next;
                    op = next_op;
                }
                SessionStep::Done(out, blocks) => return (out, blocks),
            }
        }
    }
}

fn init(card: &mut FakeCard) -> (Result<(), Error>, SdSpi<(), ()>) {
    let mut driver = SdSpi::new((), ());
    let first = driver.init();
    let (out, _) = card.run(first);
    let done = driver.finish_init(out);
    (done, driver)
}

#[test]
fn a_card_is_brought_up() {
    let mut card = FakeCard::new();
    let (done, mut driver) = init(&mut card);
    assert_eq!(done, Ok(()));
    assert_eq!(
        card.log,
        vec![
            (0, 0),
            (59, 1),
            (8, 0x1AA),
            (55, 0),
            (41, 0x4110_0000),
            (58, 0),
            (9, 0),
            (10, 0),
        ]
    );
    assert_eq!(
        driver.card(),
        Some(Card { ocr: 0xC0FF_8000, csd: CSD, cid: CID, ..Card::default() })
    );
    assert_eq!(driver.size(), Ok(0x3B38 * 1024 * 512));
    assert!(!card.held && !card.selected);
    assert!(card.running.is_empty());
}

#[test]
fn the_steps_of_bringing_up_are_repeated_until_the_card_is_ready() {
    let mut card = FakeCard::new();
    card.statuses = vec![(0, vec![0x00, 0x05, 0x01]), (41, vec![0x01, 0x01, 0x00])];
    card.ocr_busy = 2;
    let (done, driver) = init(&mut card);
    assert_eq!(done, Ok(()));
    let indices: Vec<u8> = card.log.iter().map(|c| c.0).collect();
    assert_eq!(indices, vec![0, 0, 0, 59, 8, 55, 41, 55, 41, 55, 41, 58, 58, 58, 9, 10]);
    assert_eq!(driver.card().unwrap().ocr, 0xC0FF_8000);
}

#[test]
fn every_step_of_bringing_up_has_its_error() {
    for (index, status, want) in [
        (59, 0x00, Error::Cmd59Error),
        (59, 0x05, Error::Cmd59Error),
        (8, 0x05, Error::UnsupportedCard),
        (58, 0x01, Error::Cmd58Error),
        (9, 0x01, Error::RegisterError(0x01)),
        (10, 0x04, Error::RegisterError(0x04)),
        (0, 0x09, Error::CommandCrcError),
    ] {
        let mut card = FakeCard::new();
        card.statuses = vec![(index, vec![status])];
        let (done, mut driver) = init(&mut card);
        assert_eq!(done, Err(want), "command {index} status {status}");
        assert_eq!(driver.card(), None);
        assert_eq!(driver.size(), Err(Error::NotInitialized));
    }
    let mut card = FakeCard::new();
    card.spoil_data = true;
    assert!(matches!(init(&mut card).0, Err(Error::CrcMismatch(_, _))));
    let mut card = FakeCard::new();
    card.error_token = Some(0x08);
    assert_eq!(init(&mut card).0, Err(Error::OutOfRange));
}

#[test]
fn a_card_that_does_not_get_ready_is_given_up() {
    let mut card = FakeCard::new();
    card.statuses = vec![(0, vec![0x00])];
    card.trouble = Some((60, BusReply::Expired));
    assert_eq!(init(&mut card).0, Err(Error::Timeout));
    let mut card = FakeCard::new();
    card.echo = 0x55;
    card.trouble = Some((100, BusReply::Expired));
    assert_eq!(init(&mut card).0, Err(Error::Timeout));
}

#[test]
fn a_silent_card_is_not_a_slow_one() {
    // Nothing answers the first command: its own time passes before that of the step.
    let mut card = FakeCard::new();
    card.statuses = vec![(0, vec![0xFF])];
    let mut driver = SdSpi::new((), ());
    let (mut session, mut op) = driver.init();
    loop {
        let late = card.running.len() == 2;
        let reply = if late { BusReply::Expired } else { card.perform(op) };
        match session.step(reply) {
            SessionStep::Do(next, next_op) => {
                session = next;
                op = next_op;
            }
            SessionStep::Done(out, _) => {
                assert!(late);
                assert_eq!(out, Err(Error::NoResponseTo(0)));
                return;
            }
        }
    }
}

#[test]
fn the_time_of_a_step_passes_while_that_of_a_command_runs() {
    let mut card = FakeCard::new();
    card.statuses = vec![(0, vec![0xFF])];
    let mut driver = SdSpi::new((), ());
    let (mut session, mut op) = driver.init();
    while card.running.len() < 2 {
        let reply = card.perform(op);
        match session.step(reply) {
            SessionStep::Do(next, next_op) => {
                session = next;
                op = next_op;
            }
            SessionStep::Done(_, _) => unreachable!(),
        }
    }
    assert_eq!(card.running, vec![1000, 200]);
    assert_eq!(session.overrun().0, Err(Error::Timeout));
}

#[test]
fn blocks_are_read_one_at_a_time() {
    let mut card = FakeCard::new();
    let mut driver = SdSpi::new((), ());
    let (out, blocks) = card.run(driver.read(3, 3, 512));
    assert_eq!(out, Ok(()));
    assert_eq!(card.log, vec![(17, 3), (17, 4), (17, 5)]);
    assert_eq!(blocks, vec![vec![3; 512], vec![4; 512], vec![5; 512]]);
    assert!(!card.held);
    let (out, blocks) = card.run(driver.read(0, 0, 512));
    assert_eq!((out, blocks.len()), (Ok(()), 0));
}

#[test]
fn a_read_stops_where_it_fails() {
    let mut driver = SdSpi::new((), ());
    let mut card = FakeCard::new();
    card.spoil_data = true;
    let (out, blocks) = card.run(driver.read(1, 2, 512));
    // What came in is in the block, though it is not what was sent.
    let mut spoiled = vec![1; 512];
    spoiled[3] ^= 0x10;
    assert_eq!(out, Err(Error::CrcMismatch(crc16(&[1; 512]), crc16(&spoiled))));
    assert_eq!(blocks, vec![spoiled, vec![]]);
    assert_eq!(card.log, vec![(17, 1)]);
    let mut card = FakeCard::new();
    card.error_token = Some(0x08);
    let (out, blocks) = card.run(driver.read(1, 2, 512));
    assert_eq!((out, blocks), (Err(Error::OutOfRange), vec![vec![], vec![]]));
    let mut card = FakeCard::new();
    card.statuses = vec![(17, vec![0x00, 0x20])];
    let (out, blocks) = card.run(driver.read(1, 2, 512));
    assert_eq!(out, Err(Error::AddressError));
    assert_eq!(blocks[0], vec![1; 512]);
    for (number, reply, want) in [
        (1, BusReply::Failed, Error::BusUnavailable),
        (6, BusReply::Failed, Error::BusUnavailable),
        (7, BusReply::Failed, Error::ChipSelect),
        (8, BusReply::Failed, Error::SpiError),
        (3, BusReply::Expired, Error::Timeout),
    ] {
        let mut card = FakeCard::new();
        card.trouble = Some((number, reply));
        assert_eq!(card.run(driver.read(1, 1, 512)).0, Err(want), "operation {number}");
    }
}

#[test]
fn a_read_that_breaks_off_keeps_what_it_has_received() {
    let mut driver = SdSpi::new((), ());
    let mut whole = FakeCard::new();
    assert_eq!(whole.run(driver.read(1, 3, 512)).0, Ok(()));
    for number in 0..whole.ops {
        for reply in [BusReply::Failed, BusReply::Expired] {
            let mut card = FakeCard::new();
            card.trouble = Some((number, reply));
            let (mut session, mut op) = driver.read(1, 3, 512);
            let mut received = 0;
            let mut part: Vec<u8>;
            let blocks = loop {
                let value = 1 + received as u8;
                let last = matches!(op, BusOp::Transfer(2));
                part = match op {
                    // The five bytes that came with the token are there already.
                    BusOp::Transfer(507) => [vec![value; 5], vec![0xFF; 507]].concat(),
                    // Only the checksum is missing.
                    BusOp::Transfer(2) => vec![value; 512],
                    _ => vec![],
                };
                // Only these can fail; a wait can only be given up.
                let fails = matches!(
                    op,
                    BusOp::Acquire | BusOp::SelectLow | BusOp::Write(_) | BusOp::Transfer(_)
                );
                if !fails && matches!(card.trouble, Some((_, BusReply::Failed))) {
                    card.trouble = card.trouble.map(|(n, _)| (n, BusReply::Expired));
                }
                let reply = card.perform(op);
                match session.step(reply) {
                    SessionStep::Do(next, next_op) => {
                        received += usize::from(last);
                        session = next;
                        op = next_op;
                    }
                    SessionStep::Done(out, blocks) => {
                        assert!(out.is_err());
                        break blocks;
                    }
                }
            };
            assert_eq!(blocks.len(), 3);
            for (j, block) in blocks.iter().enumerate() {
                let want = if j < received {
                    vec![1 + j as u8; 512]
                } else if j == received {
                    part.clone()
                } else {
                    vec![]
                };
                assert_eq!(*block, want, "operation {number}, block {j}");
            }
            // No command has gone out for a block behind the one that failed.
            assert!(received <= card.log.len() && card.log.len() <= received + 1);
        }
    }
}

#[test]
fn blocks_that_were_written_are_read_back() {
    let mut card = FakeCard::new();
    let mut driver = SdSpi::new((), ());
    let data: Vec<Vec<u8>> = vec![(0..=255).cycle().take(512).collect(), vec![0x99; 512]];
    let (out, blocks) = card.run(driver.write(5, data.clone()));
    assert_eq!(out, Ok(()));
    assert_eq!(blocks, data);
    assert_eq!(card.log, vec![(24, 5), (24, 6)]);
    assert_eq!(card.busy, 0);
    let (out, blocks) = card.run(driver.read(5, 2, 512));
    assert_eq!(out, Ok(()));
    assert_eq!(blocks, data);
    assert_eq!(card.blocks[4], [4; 512]);
    assert_eq!(card.blocks[7], [7; 512]);
}

#[test]
fn a_write_that_the_card_rejects_fails() {
    let mut driver = SdSpi::new((), ());
    for (token, want) in [(0x0B, Error::DataCrcError), (0x0D, Error::DataWriteError), (0xFF, Error::WriteError)] {
        let mut card = FakeCard::new();
        card.rejects = Some(token);
        let (out, _) = card.run(driver.write(0, vec![vec![0; 512]]));
        assert_eq!(out, Err(want));
    }
}

#[test]
fn a_write_stops_where_it_fails() {
    let mut driver = SdSpi::new((), ());
    let mut card = FakeCard::new();
    card.statuses = vec![(24, vec![0x00, 0x20])];
    let data = vec![vec![0xA0; 512], vec![0xA1; 512], vec![0xA2; 512]];
    let (out, blocks) = card.run(driver.write(2, data.clone()));
    assert_eq!(out, Err(Error::AddressError));
    assert_eq!(blocks, data);
    assert_eq!(card.log, vec![(24, 2), (24, 3)]);
    assert_eq!(card.blocks[2], [0xA0; 512]);
    assert_eq!(card.blocks[3], [3; 512]);
    assert_eq!(card.blocks[4], [4; 512]);
}

#[test]
fn no_more_than_two_times_run() {
    let mut card = FakeCard::new();
    let mut driver = SdSpi::new((), ());
    let (mut session, mut op) = driver.init();
    loop {
        let reply = card.perform(op);
        assert!(card.running.len() <= 2);
        match session.step(reply) {
            SessionStep::Do(next, next_op) => {
                session = next;
                op = next_op;
            }
            SessionStep::Done(out, _) => {
                assert!(out.is_ok());
                break;
            }
        }
    }
    assert_eq!(card.running, vec![]);
    let (mut session, mut op) = driver.read(0, 2, 512);
    loop {
        let reply = card.perform(op);
        assert!(card.running.len() <= 1);
        match session.step(reply) {
            SessionStep::Do(next, next_op) => {
                session = next;
                op = next_op;
            }
            SessionStep::Done(_, _) => break,
        }
    }
    assert_eq!(card.running, vec![]);
}

#[test]
fn an_erase_needs_a_card() {
    let mut driver: SdSpi<(), ()> = SdSpi::new((), ());
    match driver.erase(0, 5) {
        SessionStep::Done(out, _) => assert_eq!(out, Err(Error::NotInitialized)),
        SessionStep::Do(_, _) => panic!("there is no card"),
    }
}

#[test]
fn an_erase_is_three_commands_and_a_long_wait() {
    let mut card = FakeCard::new();
    let (done, mut driver) = init(&mut card);
    assert_eq!(done, Ok(()));
    card.log.clear();
    let first = match driver.erase(2, 6) {
        SessionStep::Do(session, op) => (session, op),
        SessionStep::Done(_, _) => panic!("there is a card"),
    };
    let before = card.ops;
    assert_eq!(card.run(first).0, Ok(()));
    assert_eq!(card.log, vec![(32, 2), (33, 6), (38, 0)]);
    assert!(card.ops - before > 5 * 2_000);
    for index in [32, 33, 38] {
        card.statuses = vec![(index, vec![0x01])];
        let first = match driver.erase(2, 6) {
            SessionStep::Do(session, op) => (session, op),
            SessionStep::Done(_, _) => panic!("there is a card"),
        };
        assert_eq!(card.run(first).0, Err(Error::EraseError));
        card.held = false;
        card.selected = false;
    }
}

#[test]
fn the_driver_hands_out_its_arbiter() {
    let driver = SdSpi::new(7u8, "timer");
    assert_eq!(*driver.bus(), 7);
    assert_eq!(*driver.delay(), "timer");
    assert_eq!(driver.card(), None);
}
