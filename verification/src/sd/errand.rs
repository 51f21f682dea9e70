//! Reading, writing and erasing blocks.
//!
//! The bus is taken for one block at a time: a card that is slow to answer must not
//! keep others from the bus for longer than that. Only the three commands of an erase
//! go out under one hold, as nothing may come between them.

use vstd::prelude::*;

use crate::sd::card::{command, read_single_block, write_single_block, Command};
use crate::sd::exchange;
use crate::sd::exchange::{mishap_of, CardMachine, CardOp, CardReply, CardStep};
use crate::sd::response::{Error, R1_READY_STATE};

verus! {

/// The time that a card has to go idle, in milliseconds.
pub const SETTLE_MS: u32 = 10_000;

/// The time that a card has to erase, in milliseconds.
pub const ERASE_MS: u32 = 60_000;

/// The idle probes in a row that show that an erase is over: a card can look idle for a
/// moment while it is still busy.
pub const ERASE_SUSTAINED: u32 = 2_000;

/// What to do with the blocks of a card.
#[derive(Copy, Clone, Debug, PartialEq, Eq)]
pub enum Errand {
    /// Read `count` blocks, from `address` on.
    Read { address: u32, count: usize },
    /// Write `count` blocks, from `address` on.
    Write { address: u32, count: usize },
    /// Erase the blocks from `first` to `last`, both included.
    Erase { first: u32, last: u32 },
}

/// Wait until a card is idle.
pub open spec fn settle() -> CardOp {
    CardOp::WaitIdle { timeout_ms: SETTLE_MS, sustained: 1 }
}

impl Errand {
    /// Every block has an address.
    pub open spec fn wf(self) -> bool {
        match self {
            Errand::Read { address, count } => address + count <= 0x1_0000_0000,
            Errand::Write { address, count } => address + count <= 0x1_0000_0000,
            Errand::Erase { .. } => true,
        }
    }

    /// The number of rounds: one for each block, or one for an erase.
    pub open spec fn rounds(self) -> int {
        match self {
            Errand::Read { count, .. } => count as int,
            Errand::Write { count, .. } => count as int,
            Errand::Erase { .. } => 1,
        }
    }

    /// What is done in a round.
    pub open spec fn round(self, i: int) -> Seq<CardOp> {
        match self {
            Errand::Read { address, .. } => seq![
                CardOp::Acquire,
                CardOp::SelectLow,
                CardOp::Command(Command { index: 17, arg: (address + i) as u32 }),
                CardOp::ReceiveInto(i as usize),
                CardOp::Release,
            ],
            Errand::Write { address, .. } => seq![
                CardOp::Acquire,
                CardOp::SelectLow,
                CardOp::Command(Command { index: 24, arg: (address + i) as u32 }),
                CardOp::SendFrom(i as usize),
                CardOp::Release,
                settle(),
            ],
            Errand::Erase { first, last } => seq![
                CardOp::Acquire,
                CardOp::SelectLow,
                CardOp::Command(Command { index: 32, arg: first }),
                CardOp::Command(Command { index: 33, arg: last }),
                CardOp::Command(Command { index: 38, arg: 0 }),
                CardOp::Release,
                CardOp::WaitIdle { timeout_ms: ERASE_MS, sustained: 1 },
                CardOp::WaitIdle { timeout_ms: ERASE_MS, sustained: ERASE_SUSTAINED },
            ],
        }
    }

    /// The number of operations in a round.
    pub open spec fn per_round(self) -> int {
        match self {
            Errand::Read { .. } => 5,
            Errand::Write { .. } => 6,
            Errand::Erase { .. } => 8,
        }
    }

    /// All that is done: the card is let go idle once, then comes one round after the
    /// other.
    pub open spec fn plan(self) -> Seq<CardOp> {
        Seq::new(
            (1 + self.rounds() * self.per_round()) as nat,
            |k: int|
                if k == 0 {
                    settle()
                } else {
                    self.round((k - 1) / self.per_round())[(k - 1) % self.per_round()]
                },
        )
    }

    /// The error for a status: every command of an erase must find the card ready.
    pub open spec fn objection(self, reply: CardReply) -> Option<Error> {
        match reply {
            CardReply::Status(status) => if self is Erase && status != R1_READY_STATE {
                Some(Error::EraseError)
            } else {
                None
            },
            _ => None,
        }
    }
}

/// Goes on an errand.
pub struct ErrandRun {
    pub errand: Errand,
    /// The card was let go idle.
    pub begun: bool,
    pub round: usize,
    pub stage: usize,
}

impl ErrandRun {
    /// The number of operations that are done.
    pub open spec fn at(self) -> int {
        if self.begun {
            1 + self.round * self.errand.per_round() + self.stage
        } else {
            0
        }
    }

    /// Begin: let the card go idle.
    pub fn begin(errand: Errand) -> (m: ErrandRun)
        requires
            errand.wf(),
        ensures
            m.wf(),
            m.errand == errand,
            m.at() == 0,
            m.holds() == (false, false),
    {
        ErrandRun { errand, begun: false, round: 0, stage: 0 }
    }
}

impl CardMachine for ErrandRun {
    type Value = ();

    /// The errand has not come to its end.
    open spec fn wf(self) -> bool {
        &&& self.errand.wf()
        &&& 0 <= self.stage < self.errand.per_round()
        &&& if self.begun {
            self.round < self.errand.rounds()
        } else {
            self.round == 0 && self.stage == 0
        }
    }

    open spec fn pending(self) -> CardOp {
        self.errand.plan()[self.at()]
    }

    open spec fn holds(self) -> (bool, bool) {
        let release = if self.errand is Erase {
            5
        } else {
            4int
        };
        if self.begun && 1 <= self.stage <= release {
            (true, self.stage >= 2)
        } else {
            (false, false)
        }
    }

    open spec fn blocks(self) -> int {
        if self.errand is Erase {
            0
        } else {
            self.errand.rounds()
        }
    }

    /// What is done is the plan, one operation after the other, and the errand succeeds
    /// exactly where all of it is done. It ends at once where something goes wrong.
    open spec fn follows(self, reply: CardReply, next: CardStep<ErrandRun, ()>) -> bool {
        match (exchange::mishap(self.pending(), reply), self.errand.objection(reply)) {
            (Some(e), _) => next == CardStep::<ErrandRun, ()>::Done(Err(e)),
            (None, Some(e)) => next == CardStep::<ErrandRun, ()>::Done(Err(e)),
            (None, None) => if self.at() + 1 == self.errand.plan().len() {
                next == CardStep::<ErrandRun, ()>::Done(Ok(()))
            } else {
                next matches CardStep::Do(m) && {
                    &&& m.wf()
                    &&& m.errand == self.errand
                    &&& m.at() == self.at() + 1
                }
            },
        }
    }

    proof fn lemma_allowed(self) {
        lemma_plan(self.errand, self.round as int, self.stage as int);
    }

    fn operation(&self) -> (op: CardOp) {
        proof {
            lemma_plan(self.errand, self.round as int, self.stage as int);
        }
        let settle: CardOp = CardOp::WaitIdle { timeout_ms: SETTLE_MS, sustained: 1 };
        if !self.begun {
            return settle;
        }
        let i: usize = self.round;
        if self.stage == 0 {
            return CardOp::Acquire;
        }
        if self.stage == 1 {
            return CardOp::SelectLow;
        }
        match self.errand {
            Errand::Read { address, .. } => {
                if self.stage == 2 {
                    CardOp::Command(read_single_block(address + i as u32))
                } else if self.stage == 3 {
                    CardOp::ReceiveInto(i)
                } else {
                    CardOp::Release
                }
            },
            Errand::Write { address, .. } => {
                if self.stage == 2 {
                    CardOp::Command(write_single_block(address + i as u32))
                } else if self.stage == 3 {
                    CardOp::SendFrom(i)
                } else if self.stage == 4 {
                    CardOp::Release
                } else {
                    settle
                }
            },
            Errand::Erase { first, last } => {
                if self.stage == 2 {
                    CardOp::Command(command(32, first))
                } else if self.stage == 3 {
                    CardOp::Command(command(33, last))
                } else if self.stage == 4 {
                    CardOp::Command(command(38, 0))
                } else if self.stage == 5 {
                    CardOp::Release
                } else if self.stage == 6 {
                    CardOp::WaitIdle { timeout_ms: ERASE_MS, sustained: 1 }
                } else {
                    CardOp::WaitIdle { timeout_ms: ERASE_MS, sustained: ERASE_SUSTAINED }
                }
            },
        }
    }

    fn step(self, reply: CardReply) -> (next: CardStep<ErrandRun, ()>) {
        proof {
            lemma_plan(self.errand, self.round as int, self.stage as int);
            lemma_len(self);
        }
        let op: CardOp = self.operation();
        if let Some(e) = mishap_of(op, &reply) {
            return CardStep::Done(Err(e));
        }
        if let (CardReply::Status(status), Errand::Erase { .. }) = (&reply, self.errand) {
            if *status != R1_READY_STATE {
                return CardStep::Done(Err(Error::EraseError));
            }
        }
        let (per_round, rounds): (usize, usize) = match self.errand {
            Errand::Read { count, .. } => (5, count),
            Errand::Write { count, .. } => (6, count),
            Errand::Erase { .. } => (8, 1),
        };
        let (round, stage): (usize, usize) = if !self.begun {
            (0, 0)
        } else if self.stage + 1 < per_round {
            (self.round, self.stage + 1)
        } else {
            (self.round + 1, 0)
        };
        if round >= rounds {
            return CardStep::Done(Ok(()));
        }
        let next: ErrandRun = ErrandRun { errand: self.errand, begun: true, round, stage };
        proof {
            lemma_at(self, next);
        }
        CardStep::Do(next)
    }
}

/// Where a plan has come to in its rounds.
pub proof fn lemma_plan(errand: Errand, round: int, stage: int)
    requires
        0 <= round,
        0 <= stage < errand.per_round(),
    ensures
        errand.plan().len() == 1 + errand.rounds() * errand.per_round(),
        errand.plan()[0] == settle(),
        round < errand.rounds() ==> errand.plan()[1 + round * errand.per_round() + stage]
            == errand.round(round)[stage],
{
    let per = errand.per_round();
    let k = 1 + round * per + stage;
    assert(errand.rounds() * per >= 0) by (nonlinear_arith)
        requires
            errand.rounds() >= 0,
            per > 0,
    ;
    if round < errand.rounds() {
        assert(round * per >= 0 && round * per + stage < errand.rounds() * per)
            by (nonlinear_arith)
            requires
                0 <= round < errand.rounds(),
                0 <= stage < per,
        ;
        vstd::arithmetic::div_mod::lemma_fundamental_div_mod_converse(k - 1, per, round, stage);
    }
}

/// How much of a plan is left.
proof fn lemma_len(m: ErrandRun)
    requires
        m.wf(),
    ensures
        m.errand.plan().len() == 1 + m.errand.rounds() * m.errand.per_round(),
        m.at() + 1 == m.errand.plan().len() <==> (m.begun && m.round + 1 == m.errand.rounds()
            && m.stage + 1 == m.errand.per_round()) || (!m.begun && m.errand.rounds() == 0),
{
    let per = m.errand.per_round();
    let rounds = m.errand.rounds();
    lemma_plan(m.errand, m.round as int, m.stage as int);
    if m.begun {
        if m.round + 1 < rounds {
            assert(m.round * per + per < rounds * per) by (nonlinear_arith)
                requires
                    m.round + 1 < rounds,
                    per > 0,
            ;
        } else {
            assert(rounds * per == m.round * per + per) by (nonlinear_arith)
                requires
                    rounds == m.round + 1,
            ;
        }
    } else {
        if rounds > 0 {
            assert(rounds * per > 0) by (nonlinear_arith)
                requires
                    rounds > 0,
                    per > 0,
            ;
        }
    }
}

/// The next operation of an errand.
proof fn lemma_at(m: ErrandRun, next: ErrandRun)
    requires
        m.wf(),
        next.errand == m.errand,
        next.begun,
        if !m.begun {
            next.round == 0 && next.stage == 0
        } else if m.stage + 1 < m.errand.per_round() {
            next.round == m.round && next.stage == m.stage + 1
        } else {
            next.round == m.round + 1 && next.stage == 0
        },
    ensures
        next.at() == m.at() + 1,
{
    let per = m.errand.per_round();
    assert((m.round + 1) * per == m.round * per + per) by (nonlinear_arith);
}

/// A read lets the card go idle once, and then deals with one block after the other: it takes
/// the bus, selects the card, asks for the block at its address, receives it in its place, and
/// gives the bus back. A read of no blocks only waits.
pub proof fn law_a_read_asks_for_each_block_once(address: u32, count: usize, j: int)
    requires
        address + count <= 0x1_0000_0000,
    ensures
        ({
            let plan = (Errand::Read { address, count }).plan();
            &&& plan.len() == 1 + 5 * count
            &&& plan[0] == (CardOp::WaitIdle { timeout_ms: 10_000, sustained: 1 })
            &&& 0 <= j < count ==> {
                let k = 1 + 5 * j;
                &&& plan[k] == CardOp::Acquire
                &&& plan[k + 1] == CardOp::SelectLow
                &&& plan[k + 2] matches CardOp::Command(c) && c.index == 17 && c.arg == address + j
                &&& plan[k + 3] matches CardOp::ReceiveInto(i) && i == j
                &&& plan[k + 4] == CardOp::Release
            }
        }),
{
    let errand = Errand::Read { address, count };
    if 0 <= j < count {
        lemma_plan(errand, j, 0);
        lemma_plan(errand, j, 1);
        lemma_plan(errand, j, 2);
        lemma_plan(errand, j, 3);
        lemma_plan(errand, j, 4);
    } else {
        lemma_plan(errand, 0, 0);
    }
}

/// A write lets the card go idle once, and then deals with one block after the other: it takes
/// the bus, selects the card, announces the block at its address, sends it, gives the bus back,
/// and lets the card go idle.
pub proof fn law_a_write_sends_each_block_once(address: u32, count: usize, j: int)
    requires
        address + count <= 0x1_0000_0000,
    ensures
        ({
            let plan = (Errand::Write { address, count }).plan();
            &&& plan.len() == 1 + 6 * count
            &&& plan[0] == (CardOp::WaitIdle { timeout_ms: 10_000, sustained: 1 })
            &&& 0 <= j < count ==> {
                let k = 1 + 6 * j;
                &&& plan[k] == CardOp::Acquire
                &&& plan[k + 1] == CardOp::SelectLow
                &&& plan[k + 2] matches CardOp::Command(c) && c.index == 24 && c.arg == address + j
                &&& plan[k + 3] matches CardOp::SendFrom(i) && i == j
                &&& plan[k + 4] == CardOp::Release
                &&& plan[k + 5] == (CardOp::WaitIdle { timeout_ms: 10_000, sustained: 1 })
            }
        }),
{
    let errand = Errand::Write { address, count };
    if 0 <= j < count {
        lemma_plan(errand, j, 0);
        lemma_plan(errand, j, 1);
        lemma_plan(errand, j, 2);
        lemma_plan(errand, j, 3);
        lemma_plan(errand, j, 4);
        lemma_plan(errand, j, 5);
    } else {
        lemma_plan(errand, 0, 0);
    }
}

/// An erase lets the card go idle, sends the first block, the last block and the order to erase
/// under one hold of the bus, gives the bus back, and waits for up to a minute, twice: until the
/// card is idle once, and until it has been idle for two thousand probes.
pub proof fn law_an_erase_is_ordered_and_waited_for(first: u32, last: u32)
    ensures
        ({
            let plan = (Errand::Erase { first, last }).plan();
            &&& plan.len() == 9
            &&& plan[0] == (CardOp::WaitIdle { timeout_ms: 10_000, sustained: 1 })
            &&& plan[1] == CardOp::Acquire
            &&& plan[2] == CardOp::SelectLow
            &&& plan[3] == CardOp::Command(Command { index: 32, arg: first })
            &&& plan[4] == CardOp::Command(Command { index: 33, arg: last })
            &&& plan[5] == CardOp::Command(Command { index: 38, arg: 0 })
            &&& plan[6] == CardOp::Release
            &&& plan[7] == (CardOp::WaitIdle { timeout_ms: 60_000, sustained: 1 })
            &&& plan[8] == (CardOp::WaitIdle { timeout_ms: 60_000, sustained: 2_000 })
        }),
{
    let errand = Errand::Erase { first, last };
    lemma_plan(errand, 0, 0);
    lemma_plan(errand, 0, 1);
    lemma_plan(errand, 0, 2);
    lemma_plan(errand, 0, 3);
    lemma_plan(errand, 0, 4);
    lemma_plan(errand, 0, 5);
    lemma_plan(errand, 0, 6);
    lemma_plan(errand, 0, 7);
    let plan = errand.plan();
    let round = errand.round(0);
    assert(errand.per_round() == 8 && errand.rounds() == 1);
    assert(plan[1] == round[0] && plan[2] == round[1] && plan[3] == round[2] && plan[4] == round[3]
        && plan[5] == round[4] && plan[6] == round[5] && plan[7] == round[6] && plan[8]
        == round[7]);
}

/// An errand goes through its plan one operation after the other, and succeeds exactly behind
/// the last one. It fails only with the error of an exchange, or where a command of an erase
/// does not find the card ready.
pub proof fn law_an_errand_goes_through_its_plan(
    m: ErrandRun,
    reply: CardReply,
    next: CardStep<ErrandRun, ()>,
)
    requires
        m.wf(),
        m.follows(reply, next),
    ensures
        m.pending() == m.errand.plan()[m.at()],
        0 <= m.at() < m.errand.plan().len(),
        ({
            let refused = m.errand is Erase && (reply matches CardReply::Status(status) && status
                != 0);
            match exchange::mishap(m.pending(), reply) {
                Some(e) => next == CardStep::<ErrandRun, ()>::Done(Err(e)),
                None => if refused {
                    next == CardStep::<ErrandRun, ()>::Done(Err(Error::EraseError))
                } else if m.at() + 1 == m.errand.plan().len() {
                    next == CardStep::<ErrandRun, ()>::Done(Ok(()))
                } else {
                    next matches CardStep::Do(then) && then.errand == m.errand && then.at()
                        == m.at() + 1
                },
            }
        }),
{
    lemma_len(m);
    lemma_plan(m.errand, m.round as int, m.stage as int);
    if m.begun {
        let per = m.errand.per_round();
        assert(m.round * per + m.stage < m.errand.rounds() * per) by (nonlinear_arith)
            requires
                0 <= m.round < m.errand.rounds(),
                0 <= m.stage < per,
        ;
    } else {
        assert(m.errand.rounds() * m.errand.per_round() >= 0) by (nonlinear_arith)
            requires
                m.errand.rounds() >= 0,
                m.errand.per_round() > 0,
        ;
    }
}

} // verus!
