//! Bringing a card up.

use vstd::prelude::*;

use crate::sd::card;
use crate::sd::card::{
    app_cmd, command, idle, ocr_is_busy, sd_send_op_cond, send_cid, send_csd, send_if_cond, Card,
    CardCapacity, Command,
};
use crate::sd::errand;
use crate::sd::errand::SETTLE_MS;
use crate::sd::exchange;
use crate::sd::exchange::{mishap_of, CardMachine, CardOp, CardReply, CardStep};
use crate::sd::response::{Error, R1Status, R1_IDLE_STATE, R1_READY_STATE};

verus! {

/// The time that a card has for each step of coming up, in milliseconds.
pub const STEP_MS: u32 = 1000;

/// The supply voltage that a card is told: 2.7 to 3.6 V.
pub const SUPPLY: u8 = 0x1;

/// The pattern that a card has to echo.
pub const ECHO: u8 = 0xAA;

/// The voltage window that a card is told.
pub const VOLTAGE_WINDOW: u16 = 0x20;

/// Where bringing a card up stands.
#[derive(Copy, Clone, Debug, PartialEq, Eq)]
pub enum InitStage {
    /// Letting the card go idle.
    Settle,
    /// Taking the bus.
    Acquire,
    /// Selecting the card.
    Select,
    /// CMD0, until the card is in the idle state.
    IdleEnter,
    Idle,
    IdleWait,
    IdleLeave,
    /// CMD59: let the card check checksums.
    CrcOn,
    /// CMD8, until the card echoes the pattern.
    ProbeEnter,
    Probe,
    Echo,
    ProbeWait,
    ProbeLeave,
    /// CMD55 and ACMD41, until the card is ready.
    PowerEnter,
    AppCommand,
    PowerUp,
    PowerWait,
    PowerLeave,
    /// CMD58, until the card says that it is not busy.
    OcrEnter,
    Ocr,
    OcrBytes,
    OcrWait,
    OcrLeave,
    /// CMD9 and the CSD register.
    Csd,
    CsdBlock,
    /// CMD10 and the CID register.
    Cid,
    CidBlock,
    /// Giving the bus back.
    Release,
}

/// CMD59: check checksums.
pub open spec fn crc_on() -> Command {
    Command { index: 59, arg: 1 }
}

/// CMD8, as a card is sent it.
pub open spec fn probe() -> Command {
    card::interface_condition(SUPPLY, ECHO)
}

/// ACMD41, as a card is sent it.
pub open spec fn power_up() -> Command {
    card::operating_condition(true, false, true, VOLTAGE_WINDOW)
}

/// CMD58: send the operation conditions.
pub open spec fn read_ocr() -> Command {
    Command { index: 58, arg: 0 }
}

/// What a stage waits for. `rca` is the address of the card that was there before, and
/// `fresh` that of the card that is brought up.
pub open spec fn operation(stage: InitStage, rca: u16, fresh: u16) -> CardOp {
    match stage {
        InitStage::Settle => errand::settle(),
        InitStage::Acquire => CardOp::Acquire,
        InitStage::Select => CardOp::SelectLow,
        InitStage::IdleEnter | InitStage::ProbeEnter | InitStage::PowerEnter
        | InitStage::OcrEnter => CardOp::Enter(STEP_MS),
        InitStage::Idle => CardOp::Command(card::go_idle()),
        InitStage::IdleWait | InitStage::ProbeWait | InitStage::PowerWait
        | InitStage::OcrWait => CardOp::DelayMs(1),
        InitStage::IdleLeave | InitStage::ProbeLeave | InitStage::PowerLeave
        | InitStage::OcrLeave => CardOp::Leave,
        InitStage::CrcOn => CardOp::Command(crc_on()),
        InitStage::Probe => CardOp::Command(probe()),
        InitStage::Echo => CardOp::Transfer(4),
        InitStage::AppCommand => CardOp::Command(card::addressed(55, rca)),
        InitStage::PowerUp => CardOp::Command(power_up()),
        InitStage::Ocr => CardOp::Command(read_ocr()),
        InitStage::OcrBytes => CardOp::Transfer(4),
        InitStage::Csd => CardOp::Command(card::addressed(9, fresh)),
        InitStage::CsdBlock => CardOp::Receive(16),
        InitStage::Cid => CardOp::Command(card::addressed(10, fresh)),
        InitStage::CidBlock => CardOp::Receive(16),
        InitStage::Release => CardOp::Release,
    }
}

/// A big-endian number.
pub open spec fn be(bytes: Seq<u8>) -> nat
    decreases bytes.len(),
{
    if bytes.len() == 0 {
        0
    } else {
        be(bytes.drop_last()) * 0x100 + bytes.last() as nat
    }
}

/// `256^n`
pub open spec fn pow256(n: nat) -> nat
    decreases n,
{
    if n == 0 {
        1
    } else {
        pow256((n - 1) as nat) * 0x100
    }
}

/// What follows a stage.
pub enum Turn {
    Go(InitStage, Card),
    Fail(Error),
    Finish(Card),
}

/// What follows where a command is answered with a status.
pub open spec fn answered(stage: InitStage, card: Card, status: u8) -> Turn {
    match stage {
        InitStage::Idle => if status == R1_IDLE_STATE {
            Turn::Go(InitStage::IdleLeave, card)
        } else {
            Turn::Go(InitStage::IdleWait, card)
        },
        InitStage::CrcOn => if status == R1_IDLE_STATE {
            Turn::Go(InitStage::ProbeEnter, card)
        } else {
            Turn::Fail(Error::Cmd59Error)
        },
        // A card that refuses CMD8 is an old one: that identifies it.
        InitStage::Probe => if status & R1Status::ILLEGAL_COMMAND != 0 {
            Turn::Fail(Error::UnsupportedCard)
        } else {
            Turn::Go(InitStage::Echo, card)
        },
        InitStage::AppCommand => Turn::Go(InitStage::PowerUp, card),
        InitStage::PowerUp => if status == R1_READY_STATE {
            Turn::Go(InitStage::PowerLeave, card)
        } else {
            Turn::Go(InitStage::PowerWait, card)
        },
        InitStage::Ocr => if status == R1_READY_STATE {
            Turn::Go(InitStage::OcrBytes, card)
        } else {
            Turn::Fail(Error::Cmd58Error)
        },
        InitStage::Csd => if status == R1_READY_STATE {
            Turn::Go(InitStage::CsdBlock, card)
        } else {
            Turn::Fail(Error::RegisterError(status))
        },
        _ => if status == R1_READY_STATE {
            Turn::Go(InitStage::CidBlock, card)
        } else {
            Turn::Fail(Error::RegisterError(status))
        },
    }
}

/// What follows where bytes came in.
pub open spec fn received(stage: InitStage, card: Card, bytes: Seq<u8>) -> Turn {
    match stage {
        InitStage::Echo => if bytes[3] == ECHO {
            Turn::Go(InitStage::ProbeLeave, card)
        } else {
            Turn::Go(InitStage::ProbeWait, card)
        },
        // The card is busy while the topmost bit is clear.
        InitStage::OcrBytes => if be(bytes) >= 0x8000_0000 {
            Turn::Go(InitStage::OcrLeave, Card { ocr: be(bytes) as u32, ..card })
        } else {
            Turn::Go(InitStage::OcrWait, card)
        },
        InitStage::CsdBlock => Turn::Go(InitStage::Cid, Card { csd: be(bytes) as u128, ..card }),
        _ => Turn::Go(InitStage::Release, Card { cid: be(bytes) as u128, ..card }),
    }
}

/// What follows where there is nothing to hand back.
pub open spec fn done(stage: InitStage, card: Card) -> Turn {
    match stage {
        InitStage::Settle => Turn::Go(InitStage::Acquire, card),
        InitStage::Acquire => Turn::Go(InitStage::Select, card),
        InitStage::Select => Turn::Go(InitStage::IdleEnter, card),
        InitStage::IdleEnter => Turn::Go(InitStage::Idle, card),
        InitStage::IdleWait => Turn::Go(InitStage::Idle, card),
        InitStage::IdleLeave => Turn::Go(InitStage::CrcOn, card),
        InitStage::ProbeEnter => Turn::Go(InitStage::Probe, card),
        InitStage::ProbeWait => Turn::Go(InitStage::Probe, card),
        InitStage::ProbeLeave => Turn::Go(InitStage::PowerEnter, card),
        InitStage::PowerEnter => Turn::Go(InitStage::AppCommand, card),
        InitStage::PowerWait => Turn::Go(InitStage::AppCommand, card),
        InitStage::PowerLeave => Turn::Go(InitStage::OcrEnter, card),
        InitStage::OcrEnter => Turn::Go(InitStage::Ocr, card),
        InitStage::OcrWait => Turn::Go(InitStage::Ocr, card),
        InitStage::OcrLeave => Turn::Go(InitStage::Csd, card),
        _ => Turn::Finish(card),
    }
}

/// What follows a stage, by the reply to what it waited for.
pub open spec fn turn(stage: InitStage, card: Card, op: CardOp, reply: CardReply) -> Turn {
    match exchange::mishap(op, reply) {
        Some(e) => Turn::Fail(e),
        None => match reply {
            CardReply::Status(status) => answered(stage, card, status),
            CardReply::Bytes(bytes) => received(stage, card, bytes@),
            _ => done(stage, card),
        },
    }
}

/// Brings a card up.
pub struct InitRun {
    /// The address of the card that was there before.
    pub rca: u16,
    pub stage: InitStage,
    /// What is known of the card.
    pub card: Card,
}

/// A number of so many bytes.
proof fn lemma_be(bytes: Seq<u8>)
    ensures
        be(bytes) < pow256(bytes.len()),
    decreases bytes.len(),
{
    if bytes.len() > 0 {
        lemma_be(bytes.drop_last());
    }
}

/// Numbers that fit.
proof fn lemma_pow256()
    ensures
        pow256(4) == 0x1_0000_0000,
        pow256(16) == 0x1_0000_0000_0000_0000_0000_0000_0000_0000int,
        forall|n: nat| n <= 16 ==> #[trigger] pow256(n) <= pow256(16),
{
    assert(pow256(4) == 0x1_0000_0000 && pow256(16)
        == 0x1_0000_0000_0000_0000_0000_0000_0000_0000int) by {
        reveal_with_fuel(pow256, 17);
    }
    assert forall|n: nat| n <= 16 implies #[trigger] pow256(n) <= pow256(16) by {
        lemma_pow256_grows(n, 16);
    }
}

proof fn lemma_pow256_grows(a: nat, b: nat)
    requires
        a <= b,
    ensures
        pow256(a) <= pow256(b),
    decreases b,
{
    if a < b {
        lemma_pow256_grows(a, (b - 1) as nat);
    }
}

/// A big-endian number of up to sixteen bytes.
fn number(bytes: &Vec<u8>) -> (n: u128)
    requires
        bytes@.len() <= 16,
    ensures
        n == be(bytes@),
{
    let mut n: u128 = 0;
    let mut i: usize = 0;
    while i < bytes.len()
        invariant
            i <= bytes@.len() <= 16,
            n == be(bytes@.take(i as int)),
        decreases bytes@.len() - i,
    {
        proof {
            let more = bytes@.take(i + 1);
            assert(more.drop_last() =~= bytes@.take(i as int));
            lemma_be(more);
            lemma_pow256();
        }
        n = n * 0x100 + bytes[i] as u128;
        i = i + 1;
    }
    assert(bytes@.take(i as int) =~= bytes@);
    n
}

impl InitRun {
    /// Begin: let the card go idle.
    pub fn begin(rca: u16) -> (m: InitRun)
        ensures
            m == (InitRun { rca, stage: InitStage::Settle, card: card::blank_card() }),
            m.holds() == (false, false),
    {
        InitRun { rca, stage: InitStage::Settle, card: Card::default() }
    }

    /// Go on with a stage.
    fn go(self, stage: InitStage) -> (next: CardStep<InitRun, Card>)
        ensures
            next matches CardStep::Do(m) && m == (InitRun { stage, ..self }),
    {
        CardStep::Do(InitRun { stage, ..self })
    }

    /// A command was answered with a status.
    fn take_status(self, status: u8) -> (next: CardStep<InitRun, Card>)
        requires
            self.pending() is Command,
        ensures
            self.turns(answered(self.stage, self.card, status), next),
    {
        match self.stage {
            InitStage::Idle => {
                if status == R1_IDLE_STATE {
                    return self.go(InitStage::IdleLeave);
                }
                self.go(InitStage::IdleWait)
            },
            InitStage::CrcOn => {
                if status != R1_IDLE_STATE {
                    return CardStep::Done(Err(Error::Cmd59Error));
                }
                self.go(InitStage::ProbeEnter)
            },
            InitStage::Probe => {
                if R1Status(status).0 & R1Status::ILLEGAL_COMMAND != 0 {
                    return CardStep::Done(Err(Error::UnsupportedCard));
                }
                self.go(InitStage::Echo)
            },
            InitStage::AppCommand => self.go(InitStage::PowerUp),
            InitStage::PowerUp => {
                if status == R1_READY_STATE {
                    return self.go(InitStage::PowerLeave);
                }
                self.go(InitStage::PowerWait)
            },
            InitStage::Ocr => {
                if status != R1_READY_STATE {
                    return CardStep::Done(Err(Error::Cmd58Error));
                }
                self.go(InitStage::OcrBytes)
            },
            InitStage::Csd => {
                if status != R1_READY_STATE {
                    return CardStep::Done(Err(Error::RegisterError(status)));
                }
                self.go(InitStage::CsdBlock)
            },
            _ => {
                if status != R1_READY_STATE {
                    return CardStep::Done(Err(Error::RegisterError(status)));
                }
                self.go(InitStage::CidBlock)
            },
        }
    }

    /// Bytes came in.
    fn take_bytes(self, bytes: &Vec<u8>) -> (next: CardStep<InitRun, Card>)
        requires
            match self.pending() {
                CardOp::Transfer(n) => bytes@.len() == n,
                CardOp::Receive(n) => bytes@.len() == n,
                _ => false,
            },
        ensures
            self.turns(received(self.stage, self.card, bytes@), next),
    {
        match self.stage {
            InitStage::Echo => {
                if bytes[3] == ECHO {
                    return self.go(InitStage::ProbeLeave);
                }
                self.go(InitStage::ProbeWait)
            },
            InitStage::OcrBytes => {
                proof {
                    lemma_be(bytes@);
                    lemma_pow256();
                }
                let ocr: u32 = number(bytes) as u32;
                if !ocr_is_busy(ocr) {
                    return InitRun { card: Card { ocr, ..self.card }, ..self }.go(
                        InitStage::OcrLeave,
                    );
                }
                self.go(InitStage::OcrWait)
            },
            InitStage::CsdBlock => {
                let csd: u128 = number(bytes);
                InitRun { card: Card { csd, ..self.card }, ..self }.go(InitStage::Cid)
            },
            _ => {
                let cid: u128 = number(bytes);
                InitRun { card: Card { cid, ..self.card }, ..self }.go(InitStage::Release)
            },
        }
    }

    /// What was pending is done.
    fn take_done(self) -> (next: CardStep<InitRun, Card>)
        ensures
            self.turns(done(self.stage, self.card), next),
    {
        match self.stage {
            InitStage::Settle => self.go(InitStage::Acquire),
            InitStage::Acquire => self.go(InitStage::Select),
            InitStage::Select => self.go(InitStage::IdleEnter),
            InitStage::IdleEnter | InitStage::IdleWait => self.go(InitStage::Idle),
            InitStage::IdleLeave => self.go(InitStage::CrcOn),
            InitStage::ProbeEnter | InitStage::ProbeWait => self.go(InitStage::Probe),
            InitStage::ProbeLeave => self.go(InitStage::PowerEnter),
            InitStage::PowerEnter | InitStage::PowerWait => self.go(InitStage::AppCommand),
            InitStage::PowerLeave => self.go(InitStage::OcrEnter),
            InitStage::OcrEnter | InitStage::OcrWait => self.go(InitStage::Ocr),
            InitStage::OcrLeave => self.go(InitStage::Csd),
            _ => CardStep::Done(Ok(self.card)),
        }
    }

    /// A step is what follows.
    pub open spec fn turns(self, turn: Turn, next: CardStep<InitRun, Card>) -> bool {
        match turn {
            Turn::Go(stage, card) => next matches CardStep::Do(m) && m == (InitRun {
                rca: self.rca,
                stage,
                card,
            }),
            Turn::Fail(e) => next matches CardStep::Done(Err(given)) && given == e,
            Turn::Finish(card) => next matches CardStep::Done(Ok(given)) && given == card,
        }
    }
}

impl CardMachine for InitRun {
    type Value = Card;

    open spec fn wf(self) -> bool {
        true
    }

    open spec fn pending(self) -> CardOp {
        operation(self.stage, self.rca, self.card.rca as u16)
    }

    open spec fn holds(self) -> (bool, bool) {
        match self.stage {
            InitStage::Settle => (false, false),
            InitStage::Acquire => (false, false),
            InitStage::Select => (true, false),
            _ => (true, true),
        }
    }

    open spec fn blocks(self) -> int {
        0
    }

    open spec fn follows(self, reply: CardReply, next: CardStep<InitRun, Card>) -> bool {
        self.turns(turn(self.stage, self.card, self.pending(), reply), next)
    }

    proof fn lemma_allowed(self) {
    }

    fn operation(&self) -> (op: CardOp) {
        let fresh: u16 = #[verifier::truncate] (self.card.rca as u16);
        match self.stage {
            InitStage::Settle => CardOp::WaitIdle { timeout_ms: SETTLE_MS, sustained: 1 },
            InitStage::Acquire => CardOp::Acquire,
            InitStage::Select => CardOp::SelectLow,
            InitStage::IdleEnter | InitStage::ProbeEnter | InitStage::PowerEnter
            | InitStage::OcrEnter => CardOp::Enter(STEP_MS),
            InitStage::Idle => CardOp::Command(idle()),
            InitStage::IdleWait | InitStage::ProbeWait | InitStage::PowerWait
            | InitStage::OcrWait => CardOp::DelayMs(1),
            InitStage::IdleLeave | InitStage::ProbeLeave | InitStage::PowerLeave
            | InitStage::OcrLeave => CardOp::Leave,
            InitStage::CrcOn => CardOp::Command(command(0x3B, 1)),
            InitStage::Probe => CardOp::Command(send_if_cond(SUPPLY, ECHO)),
            InitStage::Echo => CardOp::Transfer(4),
            InitStage::AppCommand => CardOp::Command(app_cmd(self.rca)),
            InitStage::PowerUp => CardOp::Command(
                sd_send_op_cond(true, false, true, VOLTAGE_WINDOW),
            ),
            InitStage::Ocr => CardOp::Command(command(0x3A, 0)),
            InitStage::OcrBytes => CardOp::Transfer(4),
            InitStage::Csd => CardOp::Command(send_csd(fresh)),
            InitStage::CsdBlock => CardOp::Receive(16),
            InitStage::Cid => CardOp::Command(send_cid(fresh)),
            InitStage::CidBlock => CardOp::Receive(16),
            InitStage::Release => CardOp::Release,
        }
    }

    fn step(self, reply: CardReply) -> (next: CardStep<InitRun, Card>) {
        let op: CardOp = self.operation();
        if let Some(e) = mishap_of(op, &reply) {
            return CardStep::Done(Err(e));
        }
        match reply {
            CardReply::Status(status) => self.take_status(status),
            CardReply::Bytes(bytes) => self.take_bytes(&bytes),
            _ => self.take_done(),
        }
    }
}

/// One exchange with a card.
pub struct Exchange {
    pub op: CardOp,
    pub reply: CardReply,
}

/// Where bringing a card up stands after these exchanges, each with the operation that
/// was pending. There is no result where it is over.
pub open spec fn ran(rca: u16, log: Seq<Exchange>) -> Option<(InitStage, Card)>
    decreases log.len(),
{
    if log.len() == 0 {
        Some((InitStage::Settle, card::blank_card()))
    } else {
        match ran(rca, log.drop_last()) {
            None => None,
            Some((stage, card)) => {
                let last = log.last();
                let op = operation(stage, rca, card.rca as u16);
                if last.op != op || !exchange::fits(op, last.reply) {
                    None
                } else {
                    match turn(stage, card, op, last.reply) {
                        Turn::Go(next, then) => Some((next, then)),
                        _ => None,
                    }
                }
            },
        }
    }
}

/// A command was answered with this status.
pub open spec fn says(e: Exchange, c: Command, status: u8) -> bool {
    e.op == CardOp::Command(c) && e.reply == CardReply::Status(status)
}

/// A command was answered with some status.
pub open spec fn replies(e: Exchange, c: Command) -> bool {
    e.op == CardOp::Command(c) && e.reply is Status
}

/// These bytes came in.
pub open spec fn gives(e: Exchange, op: CardOp, n: nat) -> bool {
    &&& e.op == op
    &&& e.reply matches CardReply::Bytes(bytes)
    &&& be(bytes@) == n
}

/// Milestone `n` of bringing a card up is met at exchange `i`: the card is idle, it
/// checks checksums, it echoes the pattern, it is powered up, it is not busy, and its two
/// registers are read.
pub open spec fn met(rca: u16, card: Card, log: Seq<Exchange>, i: int, n: nat) -> bool {
    if n == 1 {
        says(log[i], card::go_idle(), R1_IDLE_STATE)
    } else if n == 2 {
        says(log[i], crc_on(), R1_IDLE_STATE)
    } else if n == 3 {
        &&& 1 <= i
        &&& replies(log[i - 1], probe())
        &&& log[i - 1].reply->Status_0 & R1Status::ILLEGAL_COMMAND == 0
        &&& log[i].op == CardOp::Transfer(4)
        &&& log[i].reply matches CardReply::Bytes(bytes)
        &&& bytes@[3] == ECHO
    } else if n == 4 {
        &&& 1 <= i
        &&& replies(log[i - 1], card::addressed(55, rca))
        &&& says(log[i], power_up(), R1_READY_STATE)
    } else if n == 5 {
        &&& 1 <= i
        &&& says(log[i - 1], read_ocr(), R1_READY_STATE)
        &&& gives(log[i], CardOp::Transfer(4), card.ocr as nat)
        &&& card.ocr >= 0x8000_0000
    } else if n == 6 {
        &&& 1 <= i
        &&& says(log[i - 1], card::addressed(9, 0), R1_READY_STATE)
        &&& gives(log[i], CardOp::Receive(16), card.csd as nat)
    } else {
        &&& 1 <= i
        &&& says(log[i - 1], card::addressed(10, 0), R1_READY_STATE)
        &&& gives(log[i], CardOp::Receive(16), card.cid as nat)
    }
}

/// Where the exchange, or the two exchanges, that meet a milestone begin.
pub open spec fn first_of(i: int, n: nat) -> int {
    if n <= 2 {
        i
    } else {
        i - 1
    }
}

/// The first `n` milestones are met, one after the other.
pub open spec fn passed(rca: u16, card: Card, log: Seq<Exchange>, n: nat) -> bool
    decreases n,
{
    n == 0 || exists|i: int|
        0 <= i < log.len() && #[trigger] met(rca, card, log, i, n) && passed(
            rca,
            card,
            log.take(first_of(i, n)),
            (n - 1) as nat,
        )
}

/// What was passed stays passed.
proof fn lemma_passed_on(rca: u16, card: Card, log: Seq<Exchange>, e: Exchange, n: nat)
    requires
        passed(rca, card, log, n),
    ensures
        passed(rca, card, log.push(e), n),
{
    if n > 0 {
        let i = choose|i: int|
            0 <= i < log.len() && #[trigger] met(rca, card, log, i, n) && passed(
                rca,
                card,
                log.take(first_of(i, n)),
                (n - 1) as nat,
            );
        assert(log.push(e)[i] == log[i]);
        assert(1 <= i ==> log.push(e)[i - 1] == log[i - 1]);
        assert(met(rca, card, log.push(e), i, n));
        assert(first_of(i, n) >= 0);
        assert(log.push(e).take(first_of(i, n)) =~= log.take(first_of(i, n)));
    }
}

/// A milestone says nothing of what comes to be known later.
proof fn lemma_passed_same(rca: u16, a: Card, b: Card, log: Seq<Exchange>, n: nat)
    requires
        passed(rca, a, log, n),
        n < 5 || a.ocr == b.ocr,
        n < 6 || a.csd == b.csd,
        n < 7 || a.cid == b.cid,
    ensures
        passed(rca, b, log, n),
    decreases n,
{
    if n > 0 {
        let i = choose|i: int|
            0 <= i < log.len() && #[trigger] met(rca, a, log, i, n) && passed(
                rca,
                a,
                log.take(first_of(i, n)),
                (n - 1) as nat,
            );
        lemma_passed_same(rca, a, b, log.take(first_of(i, n)), (n - 1) as nat);
        assert(met(rca, b, log, i, n));
    }
}

/// The milestones that are met where a stage is reached.
spec fn milestones(stage: InitStage) -> nat {
    match stage {
        InitStage::Settle | InitStage::Acquire | InitStage::Select | InitStage::IdleEnter
        | InitStage::Idle | InitStage::IdleWait => 0,
        InitStage::IdleLeave | InitStage::CrcOn => 1,
        InitStage::ProbeEnter | InitStage::Probe | InitStage::Echo | InitStage::ProbeWait => 2,
        InitStage::ProbeLeave | InitStage::PowerEnter | InitStage::AppCommand
        | InitStage::PowerUp | InitStage::PowerWait => 3,
        InitStage::PowerLeave | InitStage::OcrEnter | InitStage::Ocr | InitStage::OcrBytes
        | InitStage::OcrWait => 4,
        InitStage::OcrLeave | InitStage::Csd | InitStage::CsdBlock => 5,
        InitStage::Cid | InitStage::CidBlock => 6,
        InitStage::Release => 7,
    }
}

/// The exchange that a stage comes right behind.
spec fn behind(stage: InitStage, rca: u16, last: Exchange) -> bool {
    match stage {
        InitStage::Echo => replies(last, probe()) && last.reply->Status_0
            & R1Status::ILLEGAL_COMMAND == 0,
        InitStage::PowerUp => replies(last, card::addressed(55, rca)),
        InitStage::OcrBytes => says(last, read_ocr(), R1_READY_STATE),
        InitStage::CsdBlock => says(last, card::addressed(9, 0), R1_READY_STATE),
        InitStage::CidBlock => says(last, card::addressed(10, 0), R1_READY_STATE),
        _ => true,
    }
}

/// A stage that waits for the rest of a response.
spec fn second_half(stage: InitStage) -> bool {
    stage == InitStage::Echo || stage == InitStage::PowerUp || stage == InitStage::OcrBytes || stage
        == InitStage::CsdBlock || stage == InitStage::CidBlock
}

/// A stage is reached only behind its milestones.
spec fn on_course(rca: u16, log: Seq<Exchange>, stage: InitStage, card: Card) -> bool {
    &&& card == (Card { ocr: card.ocr, csd: card.csd, cid: card.cid, ..card::blank_card() })
    &&& if second_half(stage) {
        &&& log.len() > 0
        &&& behind(stage, rca, log.last())
        &&& passed(rca, card, log.drop_last(), milestones(stage))
    } else {
        passed(rca, card, log, milestones(stage))
    }
}

/// One more exchange.
proof fn lemma_on_course(
    rca: u16,
    log: Seq<Exchange>,
    stage: InitStage,
    card: Card,
    e: Exchange,
    next: InitStage,
    then: Card,
)
    requires
        on_course(rca, log, stage, card),
        e.op == operation(stage, rca, card.rca as u16),
        exchange::fits(e.op, e.reply),
        turn(stage, card, e.op, e.reply) == Turn::Go(next, then),
    ensures
        on_course(rca, log.push(e), next, then),
{
    let more = log.push(e);
    let n = milestones(stage);
    assert(more.drop_last() =~= log);
    assert(more.last() == e);
    if second_half(stage) {
        let before = log.drop_last();
        let m = n + 1;
        assert(before.push(log.last()) =~= log);
        lemma_passed_on(rca, card, before, log.last(), n);
        lemma_passed_on(rca, card, log, e, n);
        if milestones(next) == m {
            if let CardReply::Bytes(bytes) = e.reply {
                lemma_be(bytes@);
                lemma_pow256();
            }
            let i = log.len() as int;
            assert(more[i] == e);
            assert(more[i - 1] == log.last());
            assert(more.take(i - 1) =~= before);
            lemma_passed_same(rca, card, then, before, n);
            assert(met(rca, then, more, i, m));
            assert(first_of(i, m) == i - 1);
        } else {
            lemma_passed_same(rca, card, then, more, n);
        }
    } else {
        lemma_passed_on(rca, card, log, e, n);
        if milestones(next) == n + 1 {
            let i = log.len() as int;
            assert(more[i] == e);
            assert(more.take(i) =~= log);
            assert(met(rca, then, more, i, n + 1));
        }
    }
}

/// Every stage is reached only behind its milestones.
proof fn lemma_ran(rca: u16, log: Seq<Exchange>)
    ensures
        ran(rca, log) matches Some((stage, card)) ==> on_course(rca, log, stage, card),
    decreases log.len(),
{
    if log.len() > 0 {
        lemma_ran(rca, log.drop_last());
        if let Some((stage, card)) = ran(rca, log.drop_last()) {
            if let Some((next, then)) = ran(rca, log) {
                lemma_on_course(rca, log.drop_last(), stage, card, log.last(), next, then);
                assert(log.drop_last().push(log.last()) =~= log);
            }
        }
    }
}

/// A card is brought up only behind all milestones in their order: it was idle, it checks
/// checksums, it has echoed the pattern, it was powered up, it said that it is not busy,
/// and it has sent both of its registers. What is known of it is what it has sent.
pub proof fn law_a_card_is_brought_up_step_by_step(
    rca: u16,
    log: Seq<Exchange>,
    card: Card,
    reply: CardReply,
)
    requires
        ran(rca, log) matches Some((stage, known)) && turn(
            stage,
            known,
            operation(stage, rca, known.rca as u16),
            reply,
        ) == Turn::Finish(card) && exchange::fits(
            operation(stage, rca, known.rca as u16),
            reply,
        ),
    ensures
        passed(rca, card, log, 7),
        card == (Card { ocr: card.ocr, csd: card.csd, cid: card.cid, ..card::blank_card() }),
{
    lemma_ran(rca, log);
}

/// The operations of some exchanges.
pub open spec fn operations(log: Seq<Exchange>) -> Seq<CardOp> {
    Seq::new(log.len(), |i: int| log[i].op)
}

/// The number of times that run after these operations.
pub open spec fn running(ops: Seq<CardOp>) -> int
    decreases ops.len(),
{
    if ops.len() == 0 {
        0
    } else {
        let before = running(ops.drop_last());
        match ops.last() {
            CardOp::Enter(_) => before + 1,
            CardOp::Leave => before - 1,
            _ => before,
        }
    }
}

/// A stage that is repeated until the card is ready for the next one.
pub open spec fn repeats(stage: InitStage) -> bool {
    match stage {
        InitStage::Idle | InitStage::IdleWait | InitStage::Probe | InitStage::Echo
        | InitStage::ProbeWait | InitStage::AppCommand | InitStage::PowerUp
        | InitStage::PowerWait | InitStage::Ocr | InitStage::OcrBytes | InitStage::OcrWait => true,
        _ => false,
    }
}

/// A stage in which the time of a step runs: it is repeated, or its time is about to be
/// taken back.
pub open spec fn timed(stage: InitStage) -> bool {
    repeats(stage) || stage is IdleLeave || stage is ProbeLeave || stage is PowerLeave || stage
        is OcrLeave
}

/// Whatever is repeated to bring a card up is repeated for a limited time: one time runs
/// then, and none runs otherwise.
pub proof fn law_bringing_up_is_limited_in_time(rca: u16, log: Seq<Exchange>)
    ensures
        ran(rca, log) matches Some((stage, card)) ==> running(operations(log)) == if timed(stage) {
            1int
        } else {
            0int
        },
    decreases log.len(),
{
    if log.len() > 0 {
        law_bringing_up_is_limited_in_time(rca, log.drop_last());
        assert(operations(log).drop_last() =~= operations(log.drop_last()));
        assert(operations(log).last() == log.last().op);
    } else {
        assert(operations(log).len() == 0);
    }
}

/// What each step of bringing a card up does, command by command.
pub proof fn law_the_commands_of_bringing_up(stage: InitStage, rca: u16)
    ensures
        operation(stage, rca, 0) == match stage {
            InitStage::Settle => CardOp::WaitIdle { timeout_ms: 10_000, sustained: 1 },
            InitStage::Acquire => CardOp::Acquire,
            InitStage::Select => CardOp::SelectLow,
            InitStage::IdleEnter => CardOp::Enter(1000),
            InitStage::Idle => CardOp::Command(Command { index: 0, arg: 0 }),
            InitStage::IdleLeave => CardOp::Leave,
            InitStage::CrcOn => CardOp::Command(Command { index: 59, arg: 1 }),
            InitStage::ProbeEnter => CardOp::Enter(1000),
            InitStage::Probe => CardOp::Command(Command { index: 8, arg: 0x1AA }),
            InitStage::Echo => CardOp::Transfer(4),
            InitStage::ProbeLeave => CardOp::Leave,
            InitStage::PowerEnter => CardOp::Enter(1000),
            InitStage::AppCommand => CardOp::Command(Command { index: 55, arg: (rca * 0x1_0000) as u32 }),
            InitStage::PowerUp => CardOp::Command(Command { index: 41, arg: 0x4110_0000 }),
            InitStage::PowerLeave => CardOp::Leave,
            InitStage::OcrEnter => CardOp::Enter(1000),
            InitStage::Ocr => CardOp::Command(Command { index: 58, arg: 0 }),
            InitStage::OcrBytes => CardOp::Transfer(4),
            InitStage::OcrLeave => CardOp::Leave,
            InitStage::Csd => CardOp::Command(Command { index: 9, arg: 0 }),
            InitStage::CsdBlock => CardOp::Receive(16),
            InitStage::Cid => CardOp::Command(Command { index: 10, arg: 0 }),
            InitStage::CidBlock => CardOp::Receive(16),
            InitStage::Release => CardOp::Release,
            InitStage::IdleWait | InitStage::ProbeWait | InitStage::PowerWait
            | InitStage::OcrWait => CardOp::DelayMs(1),
        },
{
}

/// A big-endian number takes in one byte after the other.
pub proof fn law_a_number_is_its_bytes(bytes: Seq<u8>, byte: u8)
    ensures
        be(Seq::empty()) == 0,
        be(bytes.push(byte)) == 256 * be(bytes) + byte,
        bytes.len() == 4 ==> be(bytes) == bytes[0] * 0x100_0000 + bytes[1] * 0x1_0000 + bytes[2]
            * 0x100 + bytes[3],
{
    assert(bytes.push(byte).drop_last() =~= bytes);
    if bytes.len() == 4 {
        let b3 = bytes.drop_last();
        let b2 = b3.drop_last();
        let b1 = b2.drop_last();
        assert(b1.drop_last() =~= Seq::empty());
        assert(be(b1.drop_last()) == 0);
        assert(be(b1) == bytes[0]);
        assert(be(b2) == bytes[0] * 0x100 + bytes[1]);
        assert(be(b3) == bytes[0] * 0x1_0000 + bytes[1] * 0x100 + bytes[2]);
    }
}

/// One more exchange of a log.
proof fn lemma_ran_on(
    rca: u16,
    log: Seq<Exchange>,
    k: int,
    stage: InitStage,
    card: Card,
    next: InitStage,
    then: Card,
)
    requires
        0 <= k < log.len(),
        ran(rca, log.take(k)) == Some((stage, card)),
        log[k].op == operation(stage, rca, card.rca as u16),
        exchange::fits(log[k].op, log[k].reply),
        turn(stage, card, log[k].op, log[k].reply) == Turn::Go(next, then),
    ensures
        ran(rca, log.take(k + 1)) == Some((next, then)),
{
    assert(log.take(k + 1).drop_last() =~= log.take(k));
    assert(log.take(k + 1).last() == log[k]);
}

/// A card that answers every command as a healthy one does is brought up: it is idle, it checks
/// checksums, it does not refuse the probe and echoes the pattern, it powers up, it says in the
/// topmost bit of its conditions that it is not busy, whatever the other bits are, and it sends
/// its two registers. What is known of it then is what it has sent.
pub proof fn law_a_healthy_card_is_brought_up(rca: u16, log: Seq<Exchange>)
    requires
        log.len() == 23,
        log[0].op == (CardOp::WaitIdle { timeout_ms: 10_000, sustained: 1 }),
        log[0].reply is Done,
        log[1].op == CardOp::Acquire,
        log[1].reply is Done,
        log[2].op == CardOp::SelectLow,
        log[2].reply is Done,
        log[3].op == CardOp::Enter(1000),
        log[3].reply is Done,
        log[4].op == CardOp::Command(Command { index: 0, arg: 0 }),
        log[4].reply == CardReply::Status(1),
        log[5].op == CardOp::Leave,
        log[5].reply is Done,
        log[6].op == CardOp::Command(Command { index: 59, arg: 1 }),
        log[6].reply == CardReply::Status(1),
        log[7].op == CardOp::Enter(1000),
        log[7].reply is Done,
        log[8].op == CardOp::Command(Command { index: 8, arg: 0x1AA }),
        log[8].reply matches CardReply::Status(s) && s / 4 % 2 == 0,
        log[9].op == CardOp::Transfer(4),
        log[9].reply matches CardReply::Bytes(b) && b@.len() == 4 && b@[3] == 0xAA,
        log[10].op == CardOp::Leave,
        log[10].reply is Done,
        log[11].op == CardOp::Enter(1000),
        log[11].reply is Done,
        log[12].op == CardOp::Command(Command { index: 55, arg: (rca * 0x1_0000) as u32 }),
        log[12].reply is Status,
        log[13].op == CardOp::Command(Command { index: 41, arg: 0x4110_0000 }),
        log[13].reply == CardReply::Status(0),
        log[14].op == CardOp::Leave,
        log[14].reply is Done,
        log[15].op == CardOp::Enter(1000),
        log[15].reply is Done,
        log[16].op == CardOp::Command(Command { index: 58, arg: 0 }),
        log[16].reply == CardReply::Status(0),
        log[17].op == CardOp::Transfer(4),
        log[17].reply matches CardReply::Bytes(b) && b@.len() == 4 && b@[0] >= 0x80,
        log[18].op == CardOp::Leave,
        log[18].reply is Done,
        log[19].op == CardOp::Command(Command { index: 9, arg: 0 }),
        log[19].reply == CardReply::Status(0),
        log[20].op == CardOp::Receive(16),
        log[20].reply matches CardReply::Bytes(b) && b@.len() == 16,
        log[21].op == CardOp::Command(Command { index: 10, arg: 0 }),
        log[21].reply == CardReply::Status(0),
        log[22].op == CardOp::Receive(16),
        log[22].reply matches CardReply::Bytes(b) && b@.len() == 16,
    ensures
        ran(rca, log) matches Some((stage, card)) && {
            &&& stage is Release
            &&& turn(stage, card, CardOp::Release, CardReply::Done) == Turn::Finish(card)
            &&& card.ocr == be(log[17].reply->Bytes_0@)
            &&& card.csd == be(log[20].reply->Bytes_0@)
            &&& card.cid == be(log[22].reply->Bytes_0@)
            &&& card.rca == 0 && card.card_type == CardCapacity::StandardCapacity
        },
{
    let ocr = log[17].reply->Bytes_0@;
    let csd = log[20].reply->Bytes_0@;
    let cid = log[22].reply->Bytes_0@;
    let c0 = card::blank_card();
    let c1 = Card { ocr: be(ocr) as u32, ..c0 };
    let c2 = Card { csd: be(csd) as u128, ..c1 };
    let c3 = Card { cid: be(cid) as u128, ..c2 };
    lemma_pow256();
    lemma_be(ocr);
    lemma_be(csd);
    lemma_be(cid);
    law_a_number_is_its_bytes(ocr, 0);
    let status = log[8].reply->Status_0;
    assert(status / 4 % 2 == 0 ==> status & 0x04 == 0) by (bit_vector);
    assert(log.take(0).len() == 0);
    lemma_ran_on(rca, log, 0, InitStage::Settle, c0, InitStage::Acquire, c0);
    lemma_ran_on(rca, log, 1, InitStage::Acquire, c0, InitStage::Select, c0);
    lemma_ran_on(rca, log, 2, InitStage::Select, c0, InitStage::IdleEnter, c0);
    lemma_ran_on(rca, log, 3, InitStage::IdleEnter, c0, InitStage::Idle, c0);
    lemma_ran_on(rca, log, 4, InitStage::Idle, c0, InitStage::IdleLeave, c0);
    lemma_ran_on(rca, log, 5, InitStage::IdleLeave, c0, InitStage::CrcOn, c0);
    lemma_ran_on(rca, log, 6, InitStage::CrcOn, c0, InitStage::ProbeEnter, c0);
    lemma_ran_on(rca, log, 7, InitStage::ProbeEnter, c0, InitStage::Probe, c0);
    lemma_ran_on(rca, log, 8, InitStage::Probe, c0, InitStage::Echo, c0);
    lemma_ran_on(rca, log, 9, InitStage::Echo, c0, InitStage::ProbeLeave, c0);
    lemma_ran_on(rca, log, 10, InitStage::ProbeLeave, c0, InitStage::PowerEnter, c0);
    lemma_ran_on(rca, log, 11, InitStage::PowerEnter, c0, InitStage::AppCommand, c0);
    lemma_ran_on(rca, log, 12, InitStage::AppCommand, c0, InitStage::PowerUp, c0);
    lemma_ran_on(rca, log, 13, InitStage::PowerUp, c0, InitStage::PowerLeave, c0);
    lemma_ran_on(rca, log, 14, InitStage::PowerLeave, c0, InitStage::OcrEnter, c0);
    lemma_ran_on(rca, log, 15, InitStage::OcrEnter, c0, InitStage::Ocr, c0);
    lemma_ran_on(rca, log, 16, InitStage::Ocr, c0, InitStage::OcrBytes, c0);
    lemma_ran_on(rca, log, 17, InitStage::OcrBytes, c0, InitStage::OcrLeave, c1);
    lemma_ran_on(rca, log, 18, InitStage::OcrLeave, c1, InitStage::Csd, c1);
    lemma_ran_on(rca, log, 19, InitStage::Csd, c1, InitStage::CsdBlock, c1);
    lemma_ran_on(rca, log, 20, InitStage::CsdBlock, c1, InitStage::Cid, c2);
    lemma_ran_on(rca, log, 21, InitStage::Cid, c2, InitStage::CidBlock, c2);
    lemma_ran_on(rca, log, 22, InitStage::CidBlock, c2, InitStage::Release, c3);
    assert(log.take(23) =~= log);
}

/// A step that a card is not ready for is taken again a millisecond later: it is not idle, it
/// does not echo the pattern, it has not powered up, or the topmost bit of its conditions is
/// clear. Nothing that was known of it changes.
pub proof fn law_a_step_is_repeated_until_the_card_is_ready(
    rca: u16,
    card: Card,
    status: u8,
    bytes: Vec<u8>,
)
    requires
        bytes@.len() == 4,
    ensures
        turn(
            InitStage::Idle,
            card,
            operation(InitStage::Idle, rca, 0),
            CardReply::Status(status),
        ) == if status == 1 {
            Turn::Go(InitStage::IdleLeave, card)
        } else {
            Turn::Go(InitStage::IdleWait, card)
        },
        turn(
            InitStage::Echo,
            card,
            operation(InitStage::Echo, rca, 0),
            CardReply::Bytes(bytes),
        ) == if bytes@[3] == 170 {
            Turn::Go(InitStage::ProbeLeave, card)
        } else {
            Turn::Go(InitStage::ProbeWait, card)
        },
        turn(
            InitStage::PowerUp,
            card,
            operation(InitStage::PowerUp, rca, 0),
            CardReply::Status(status),
        ) == if status == 0 {
            Turn::Go(InitStage::PowerLeave, card)
        } else {
            Turn::Go(InitStage::PowerWait, card)
        },
        bytes@[0] >= 128 ==> turn(
            InitStage::OcrBytes,
            card,
            operation(InitStage::OcrBytes, rca, 0),
            CardReply::Bytes(bytes),
        ) == Turn::Go(InitStage::OcrLeave, Card { ocr: be(bytes@) as u32, ..card }),
        bytes@[0] < 128 ==> turn(
            InitStage::OcrBytes,
            card,
            operation(InitStage::OcrBytes, rca, 0),
            CardReply::Bytes(bytes),
        ) == Turn::Go(InitStage::OcrWait, card),
        turn(InitStage::IdleWait, card, CardOp::DelayMs(1), CardReply::Done) == Turn::Go(
            InitStage::Idle,
            card,
        ),
        turn(InitStage::ProbeWait, card, CardOp::DelayMs(1), CardReply::Done) == Turn::Go(
            InitStage::Probe,
            card,
        ),
        turn(InitStage::PowerWait, card, CardOp::DelayMs(1), CardReply::Done) == Turn::Go(
            InitStage::AppCommand,
            card,
        ),
        turn(InitStage::OcrWait, card, CardOp::DelayMs(1), CardReply::Done) == Turn::Go(
            InitStage::Ocr,
            card,
        ),
{
    law_a_number_is_its_bytes(bytes@, 0);
}

/// A card that answers a command in a way that it must not is given up at once, with an error
/// that says which: it does not check checksums, it refuses the probe, it does not tell its
/// conditions, or it does not send a register. Whatever goes wrong on the bus, or takes too
/// long, is handed on at every step.
pub proof fn law_a_card_that_answers_wrongly_is_given_up(
    stage: InitStage,
    rca: u16,
    card: Card,
    status: u8,
    reply: CardReply,
)
    ensures
        turn(
            InitStage::CrcOn,
            card,
            operation(InitStage::CrcOn, rca, 0),
            CardReply::Status(status),
        ) == if status == 1 {
            Turn::Go(InitStage::ProbeEnter, card)
        } else {
            Turn::Fail(Error::Cmd59Error)
        },
        turn(
            InitStage::Probe,
            card,
            operation(InitStage::Probe, rca, 0),
            CardReply::Status(status),
        ) == if status / 4 % 2 == 1 {
            Turn::Fail(Error::UnsupportedCard)
        } else {
            Turn::Go(InitStage::Echo, card)
        },
        turn(
            InitStage::AppCommand,
            card,
            operation(InitStage::AppCommand, rca, 0),
            CardReply::Status(status),
        ) == Turn::Go(InitStage::PowerUp, card),
        turn(
            InitStage::Ocr,
            card,
            operation(InitStage::Ocr, rca, 0),
            CardReply::Status(status),
        ) == if status == 0 {
            Turn::Go(InitStage::OcrBytes, card)
        } else {
            Turn::Fail(Error::Cmd58Error)
        },
        turn(
            InitStage::Csd,
            card,
            operation(InitStage::Csd, rca, 0),
            CardReply::Status(status),
        ) == if status == 0 {
            Turn::Go(InitStage::CsdBlock, card)
        } else {
            Turn::Fail(Error::RegisterError(status))
        },
        turn(
            InitStage::Cid,
            card,
            operation(InitStage::Cid, rca, 0),
            CardReply::Status(status),
        ) == if status == 0 {
            Turn::Go(InitStage::CidBlock, card)
        } else {
            Turn::Fail(Error::RegisterError(status))
        },
        exchange::mishap(operation(stage, rca, 0), reply) matches Some(e) ==> turn(
            stage,
            card,
            operation(stage, rca, 0),
            reply,
        ) == Turn::Fail(e),
{
    assert((status & 0x04 != 0) == (status / 4 % 2 == 1)) by (bit_vector);
}

/// The registers of a card are kept as they were sent.
pub proof fn law_a_register_is_kept_as_it_was_sent(card: Card, bytes: Vec<u8>)
    requires
        bytes@.len() == 16,
    ensures
        turn(
            InitStage::CsdBlock,
            card,
            CardOp::Receive(16),
            CardReply::Bytes(bytes),
        ) matches Turn::Go(stage, then) && stage is Cid && then.csd == be(bytes@) && then == (Card {
            csd: then.csd,
            ..card
        }),
        turn(
            InitStage::CidBlock,
            card,
            CardOp::Receive(16),
            CardReply::Bytes(bytes),
        ) matches Turn::Go(stage, then) && stage is Release && then.cid == be(bytes@) && then == (
        Card { cid: then.cid, ..card }),
{
    lemma_pow256();
    lemma_be(bytes@);
}

/// A step begins and ends where its turn comes, and the card is brought up once the bus is given
/// back.
pub proof fn law_the_steps_follow_each_other(card: Card)
    ensures
        done(InitStage::Settle, card) == Turn::Go(InitStage::Acquire, card),
        done(InitStage::Acquire, card) == Turn::Go(InitStage::Select, card),
        done(InitStage::Select, card) == Turn::Go(InitStage::IdleEnter, card),
        done(InitStage::IdleEnter, card) == Turn::Go(InitStage::Idle, card),
        done(InitStage::IdleLeave, card) == Turn::Go(InitStage::CrcOn, card),
        done(InitStage::ProbeEnter, card) == Turn::Go(InitStage::Probe, card),
        done(InitStage::ProbeLeave, card) == Turn::Go(InitStage::PowerEnter, card),
        done(InitStage::PowerEnter, card) == Turn::Go(InitStage::AppCommand, card),
        done(InitStage::PowerLeave, card) == Turn::Go(InitStage::OcrEnter, card),
        done(InitStage::OcrEnter, card) == Turn::Go(InitStage::Ocr, card),
        done(InitStage::OcrLeave, card) == Turn::Go(InitStage::Csd, card),
        done(InitStage::Release, card) == Turn::Finish(card),
{
}

/// Bringing a card up takes each turn as it is laid down: it goes on, fails or finishes with it,
/// and nothing of what is known is lost.
pub proof fn law_bringing_up_takes_its_turns(
    m: InitRun,
    reply: CardReply,
    next: CardStep<InitRun, Card>,
)
    requires
        m.follows(reply, next),
    ensures
        m.pending() == operation(m.stage, m.rca, m.card.rca as u16),
        match turn(m.stage, m.card, m.pending(), reply) {
            Turn::Go(stage, card) => next == CardStep::<InitRun, Card>::Do(
                InitRun { rca: m.rca, stage, card },
            ),
            Turn::Fail(e) => next == CardStep::<InitRun, Card>::Done(Err(e)),
            Turn::Finish(card) => next == CardStep::<InitRun, Card>::Done(Ok(card)),
        },
{
}

} // verus!
