//! What holds of whole operations on a card.

use vstd::prelude::*;

use crate::sd::bus;
use crate::sd::bus::{BusMachine, BusState};
use crate::sd::card::{Card, Command};
use crate::sd::command::SendCommand;
use crate::sd::crc;
use crate::sd::data;
use crate::sd::data::{BlockTask, ReceiveBlock, SendBlock};
use crate::sd::driver::PowerOn;
use crate::sd::errand;
use crate::sd::errand::{Errand, ErrandRun};
use crate::sd::exchange;
use crate::sd::exchange::{CardMachine, CardOp, CardReply};
use crate::sd::idle::{IdleTask, WaitIdle};
use crate::sd::init;
use crate::sd::init::{Exchange, InitRun, InitStage};
use crate::sd::response::{Error, DATA_START_BLOCK, R1_READY_STATE};
use crate::sd::session;
use crate::sd::session::{Inner, Origin, Record, Session};

verus! {

/// The bus is driven only while it is taken and the card selected, whatever the operation
/// is and wherever it stands: a card is never talked to on a bus that others may drive,
/// and its chip-select never rises within a command.
pub proof fn law_the_bus_is_driven_only_while_held<M: CardMachine>(
    session: Session<M>,
    origin: Origin<M>,
    now: BusState,
)
    requires
        session.wf(),
        session.reached(origin, now),
        bus::drives(session.pending()),
    ensures
        now.can_talk(),
{
    session.outer.lemma_allowed();
    let log = choose|log: Seq<Record<M>>| session.came(origin, log, now);
    let start = origin.state_at(log, log.len() as int);
    assert(session.inner.reached(start, now));
}

/// A wait gives the bus back: it is free wherever the wait does not probe, and when the
/// wait is over.
pub proof fn law_a_wait_gives_the_bus_back(
    m: WaitIdle,
    start: BusState,
    now: BusState,
    task: IdleTask,
    end: BusState,
    out: Result<(), Error>,
)
    requires
        !start.held,
        !start.selected,
        m.reached(start, now),
        WaitIdle::outcome(task, start, end, out),
    ensures
        m.pending() is Delay || m.pending() is Leave ==> !now.held && !now.selected,
        !end.held && !end.selected && end.bounds == start.bounds,
{
}

/// As a number of times that run.
pub open spec fn one_if(b: bool) -> int {
    if b {
        1
    } else {
        0
    }
}

/// The times that run while an exchange does are those that ran before it, and the one that
/// it has set.
proof fn lemma_exchange_bounds(inner: Inner, start: BusState, now: BusState)
    requires
        inner.reached(start, now),
    ensures
        now.bounds.len() == start.bounds.len() + one_if(inner.bounded()),
{
    match inner {
        Inner::Wait(m) => m.lemma_bounds(start, now),
        Inner::Command(m) => m.lemma_bounds(start, now),
        Inner::Receive(m) => m.lemma_bounds(start, now),
        Inner::Into(_, m) => m.lemma_bounds(start, now),
        Inner::Send(m) => m.lemma_bounds(start, now),
        Inner::Plain => {},
    }
}

/// An exchange changes the times that run only where that is what it is for.
proof fn lemma_performs_bounds(
    op: CardOp,
    reply: CardReply,
    size: usize,
    before: BusState,
    after: BusState,
    had: Seq<Seq<u8>>,
    has: Seq<Seq<u8>>,
)
    requires
        session::performs(op, reply, size, before, after, had, has),
    ensures
        after.bounds == match op {
            CardOp::Enter(ms) => before.bounds.push(ms),
            CardOp::Leave => before.bounds.drop_last(),
            _ => before.bounds,
        },
{
}

/// The times that run after some exchanges of an errand.
proof fn lemma_errand_bounds(
    origin: Origin<ErrandRun>,
    size: usize,
    log: Seq<Record<ErrandRun>>,
    outer: ErrandRun,
    k: int,
)
    requires
        origin.ran(size, log, outer),
        origin.machine.wf(),
        origin.machine.at() == 0,
        0 <= k <= log.len(),
    ensures
        origin.state_at(log, k).bounds == origin.state.bounds,
    decreases k,
{
    if k > 0 {
        lemma_errand_bounds(origin, size, log, outer, k - 1);
        lemma_errand_log(origin, size, log, outer, k - 1);
        assert(origin.went(size, log, outer, k - 1));
        let r = log[k - 1];
        lemma_performs_bounds(
            r.machine.pending(),
            r.reply,
            size,
            origin.state_at(log, k - 1),
            r.after,
            origin.blocks_at(log, k - 1),
            r.blocks,
        );
        errand::lemma_plan(r.machine.errand, r.machine.round as int, r.machine.stage as int);
    }
}

/// An errand sets no time but those of its exchanges: one runs exactly where the exchange that
/// it has come to has set one.
pub proof fn law_an_errand_runs_one_time_at_most(
    session: Session<ErrandRun>,
    origin: Origin<ErrandRun>,
    now: BusState,
)
    requires
        origin.machine.wf(),
        origin.machine.at() == 0,
        session.reached(origin, now),
    ensures
        now.bounds.len() == origin.state.bounds.len() + one_if(session.inner.bounded()),
{
    let log = choose|log: Seq<Record<ErrandRun>>| session.came(origin, log, now);
    let n = log.len() as int;
    lemma_errand_bounds(origin, session.size, log, session.outer, n);
    lemma_exchange_bounds(session.inner, origin.state_at(log, n), now);
}

/// The times that run after some exchanges of bringing a card up.
proof fn lemma_init_bounds(
    origin: Origin<InitRun>,
    size: usize,
    log: Seq<Record<InitRun>>,
    outer: InitRun,
    k: int,
)
    requires
        origin.ran(size, log, outer),
        origin.machine.stage == InitStage::Settle,
        0 <= k <= log.len(),
    ensures
        origin.state_at(log, k).bounds.len() == origin.state.bounds.len() + one_if(
            init::timed(origin.machine_at(log, outer, k).stage),
        ),
    decreases k,
{
    if k > 0 {
        lemma_init_bounds(origin, size, log, outer, k - 1);
        assert(origin.went(size, log, outer, k - 1));
        let r = log[k - 1];
        lemma_performs_bounds(
            r.machine.pending(),
            r.reply,
            size,
            origin.state_at(log, k - 1),
            r.after,
            origin.blocks_at(log, k - 1),
            r.blocks,
        );
        lemma_performs_fits(
            r.machine.pending(),
            r.reply,
            size,
            origin.state_at(log, k - 1),
            r.after,
            origin.blocks_at(log, k - 1),
            r.blocks,
        );
    }
}

/// Bringing a card up runs one time for each step that is repeated, and the exchange that it
/// has come to may run one more: what has set a time is told apart by how many run.
pub proof fn law_bringing_up_runs_two_times_at_most(
    session: Session<InitRun>,
    origin: Origin<InitRun>,
    now: BusState,
)
    requires
        origin.machine.stage == InitStage::Settle,
        session.reached(origin, now),
    ensures
        now.bounds.len() == origin.state.bounds.len() + one_if(init::timed(session.outer.stage))
            + one_if(session.inner.bounded()),
{
    let log = choose|log: Seq<Record<InitRun>>| session.came(origin, log, now);
    let n = log.len() as int;
    lemma_init_bounds(origin, session.size, log, session.outer, n);
    lemma_exchange_bounds(session.inner, origin.state_at(log, n), now);
}

/// A card is clocked for at least 74 cycles behind power-up, and is not selected then.
pub proof fn law_power_on_clocks_the_card(start: BusState, end: BusState, out: Result<(), Error>)
    requires
        PowerOn::outcome((), start, end, out),
    ensures
        8 * (end.pos - start.pos) >= 74,
        !end.selected,
        out is Ok,
{
}

/// Where an errand stands in its plan after some exchanges.
proof fn lemma_errand_log(
    origin: Origin<ErrandRun>,
    size: usize,
    log: Seq<Record<ErrandRun>>,
    outer: ErrandRun,
    k: int,
)
    requires
        origin.ran(size, log, outer),
        origin.machine.wf(),
        origin.machine.at() == 0,
        0 <= k <= log.len(),
    ensures
        origin.machine_at(log, outer, k).wf(),
        origin.machine_at(log, outer, k).errand == origin.machine.errand,
        origin.machine_at(log, outer, k).at() == k,
    decreases k,
{
    if k > 0 {
        lemma_errand_log(origin, size, log, outer, k - 1);
        assert(origin.went(size, log, outer, k - 1));
    }
}

/// An errand that has come to a good end has performed all of its plan.
proof fn lemma_errand_ended(
    origin: Origin<ErrandRun>,
    size: usize,
    log: Seq<Record<ErrandRun>>,
    end: BusState,
    blocks: Seq<Seq<u8>>,
    k: int,
)
    requires
        origin.ended(size, log, end, Ok(()), blocks),
        origin.machine.wf(),
        origin.machine.at() == 0,
        0 <= k < log.len(),
    ensures
        log.len() == origin.machine.errand.plan().len(),
        log[k].machine.wf(),
        log[k].machine.errand == origin.machine.errand,
        log[k].machine.pending() == origin.machine.errand.plan()[k],
        exchange::mishap(log[k].machine.pending(), log[k].reply) is None,
        origin.machine.errand.objection(log[k].reply) is None,
        session::performs(
            log[k].machine.pending(),
            log[k].reply,
            size,
            origin.state_at(log, k),
            log[k].after,
            origin.blocks_at(log, k),
            log[k].blocks,
        ),
{
    let n = log.len() - 1;
    let before = log.take(n);
    let last = log[n].machine;
    lemma_errand_log(origin, size, before, last, n);
    lemma_errand_log(origin, size, before, last, k);
    assert(origin.machine_at(before, last, k) == log[k].machine);
    if k < n {
        assert(origin.went(size, before, last, k));
        assert(origin.state_at(before, k) == origin.state_at(log, k));
        assert(origin.blocks_at(before, k) == origin.blocks_at(log, k));
        lemma_errand_log(origin, size, before, last, k + 1);
    }
}

/// The card drives the same line throughout.
proof fn lemma_line_so_far(
    origin: Origin<ErrandRun>,
    size: usize,
    log: Seq<Record<ErrandRun>>,
    outer: ErrandRun,
    k: int,
)
    requires
        origin.ran(size, log, outer),
        0 <= k <= log.len(),
    ensures
        origin.state_at(log, k).line == origin.state.line,
        origin.state.pos <= origin.state_at(log, k).pos,
    decreases k,
{
    if k > 0 {
        lemma_line_so_far(origin, size, log, outer, k - 1);
        assert(origin.went(size, log, outer, k - 1));
    }
}

/// The card drives the same line up to the last exchange.
proof fn lemma_line(
    origin: Origin<ErrandRun>,
    size: usize,
    log: Seq<Record<ErrandRun>>,
    end: BusState,
    blocks: Seq<Seq<u8>>,
    k: int,
)
    requires
        origin.ended(size, log, end, Ok(()), blocks),
        0 <= k < log.len(),
    ensures
        origin.state_at(log, k).line == origin.state.line,
        origin.state.pos <= origin.state_at(log, k).pos,
{
    let n = log.len() - 1;
    lemma_line_so_far(origin, size, log.take(n), log[n].machine, k);
    assert(origin.state_at(log.take(n), k) == origin.state_at(log, k));
}

/// The card has answered the command with a status, and has then sent the bytes as a data
/// block of their size.
pub open spec fn card_sent(
    c: Command,
    size: usize,
    bytes: Seq<u8>,
    asked: BusState,
    told: BusState,
    after: BusState,
) -> bool {
    &&& exists|answer: Result<u8, Error>| #[trigger]
        SendCommand::outcome(c, asked, told, answer) && answer is Ok
    &&& exists|out: Result<Vec<u8>, Error>| #[trigger]
        ReceiveBlock::outcome(size, told, after, out) && out is Ok && out->Ok_0@ == bytes
}

/// Behind `start`, the card has sent these bytes for this command.
pub open spec fn was_sent(start: BusState, c: Command, size: usize, bytes: Seq<u8>) -> bool {
    exists|asked: BusState, told: BusState, after: BusState|
        asked.line == start.line && start.pos <= asked.pos && #[trigger] card_sent(
            c,
            size,
            bytes,
            asked,
            told,
            after,
        )
}

/// What a read has made of its blocks after some exchanges: a block that was received holds
/// what the card has sent for it, and every other one is what it was.
pub open spec fn received_so_far(
    origin: Origin<ErrandRun>,
    size: usize,
    address: u32,
    blocks: Seq<Seq<u8>>,
    done: int,
) -> bool {
    &&& blocks.len() == origin.blocks.len()
    &&& forall|j: int|
        0 <= j < blocks.len() ==> if 1 + 5 * j + 3 < done {
            was_sent(
                origin.state,
                Command { index: 17, arg: (address + j) as u32 },
                size,
                #[trigger] blocks[j],
            )
        } else {
            blocks[j] == origin.blocks[j]
        }
}

/// A block is received right behind the answer to its command.
proof fn lemma_received_block(
    origin: Origin<ErrandRun>,
    size: usize,
    log: Seq<Record<ErrandRun>>,
    outer: ErrandRun,
    address: u32,
    count: usize,
    j: int,
)
    requires
        origin.ran(size, log, outer),
        origin.machine.wf(),
        origin.machine.at() == 0,
        origin.machine.errand == (Errand::Read { address, count }),
        0 <= j < count,
        1 + 5 * j + 3 < log.len(),
    ensures
        ({
            let k = 1 + 5 * j + 3;
            exists|bytes: Seq<u8>|
                log[k].blocks == log[k - 1].blocks.update(j, bytes) && #[trigger] was_sent(
                    origin.state,
                    Command { index: 17, arg: (address + j) as u32 },
                    size,
                    bytes,
                )
        }),
{
    let read = origin.machine.errand;
    let c = Command { index: 17, arg: (address + j) as u32 };
    let k = 1 + 5 * j + 2;
    errand::lemma_plan(read, j, 2);
    errand::lemma_plan(read, j, 3);
    lemma_errand_log(origin, size, log, outer, k);
    lemma_errand_log(origin, size, log, outer, k + 1);
    lemma_line_so_far(origin, size, log, outer, k);
    assert(origin.went(size, log, outer, k));
    assert(origin.went(size, log, outer, k + 1));
    assert(log[k].machine.pending() == CardOp::Command(c));
    assert(log[k + 1].machine.pending() == CardOp::ReceiveInto(j as usize));
    let asked = origin.state_at(log, k);
    let told = log[k].after;
    let after = log[k + 1].after;
    let answer = choose|out: Result<u8, Error>|
        #![trigger session::status_or_failed(out)]
        SendCommand::outcome(c, asked, told, out) && log[k].reply == session::status_or_failed(out);
    assert(answer is Ok);
    let (out, at) = choose|out: Result<Vec<u8>, Error>, at: int| #[trigger]
        session::placed(j, size, told, after, log[k].blocks, log[k + 1].blocks, out, at)
            && log[k + 1].reply == session::placed_or_failed(out);
    assert(out is Ok);
    assert(ReceiveBlock::outcome(size, told, after, out));
    assert(card_sent(c, size, out->Ok_0@, asked, told, after));
    assert(was_sent(origin.state, c, size, out->Ok_0@));
}

/// What a read has made of its blocks after the first `k` exchanges.
proof fn lemma_received(
    origin: Origin<ErrandRun>,
    size: usize,
    log: Seq<Record<ErrandRun>>,
    outer: ErrandRun,
    address: u32,
    count: usize,
    k: int,
)
    requires
        origin.ran(size, log, outer),
        origin.machine.wf(),
        origin.machine.at() == 0,
        origin.machine.errand == (Errand::Read { address, count }),
        count <= origin.blocks.len(),
        0 <= k <= log.len(),
    ensures
        received_so_far(origin, size, address, origin.blocks_at(log, k), k),
    decreases k,
{
    if k > 0 {
        lemma_received(origin, size, log, outer, address, count, k - 1);
        lemma_errand_log(origin, size, log, outer, k - 1);
        assert(origin.went(size, log, outer, k - 1));
        let m = log[k - 1].machine;
        errand::lemma_plan(m.errand, m.round as int, m.stage as int);
        if m.begun && m.stage == 3 {
            lemma_received_block(origin, size, log, outer, address, count, m.round as int);
        }
    }
}

/// A read that is given up hands its blocks back as they are: wherever it stands, each block
/// that was received holds the data block that came right behind the answer to its command,
/// and the others are what they were, but for the one that is being received.
pub proof fn law_a_read_keeps_what_it_has_received(
    session: Session<ErrandRun>,
    origin: Origin<ErrandRun>,
    now: BusState,
    address: u32,
    count: usize,
)
    requires
        origin.machine.wf(),
        origin.machine.at() == 0,
        origin.machine.errand == (Errand::Read { address, count }),
        count <= origin.blocks.len(),
        session.wf(),
        session.reached(origin, now),
    ensures
        ({
            let blocks = session::contents(session.blocks@);
            let left = session.inner.left_in(blocks);
            &&& received_so_far(origin, session.size, address, blocks, session.outer.at())
            &&& left.len() == blocks.len()
            &&& forall|j: int|
                0 <= j < blocks.len() && j != session.outer.round ==> #[trigger] left[j]
                    == blocks[j]
        }),
{
    let log = choose|log: Seq<Record<ErrandRun>>| session.came(origin, log, now);
    let n = log.len() as int;
    lemma_errand_log(origin, session.size, log, session.outer, n);
    lemma_received(origin, session.size, log, session.outer, address, count, n);
    let m = session.outer;
    errand::lemma_plan(m.errand, m.round as int, m.stage as int);
}

/// A read that the card lets down ends with the exchange that fails: what was performed
/// before it is the plan up to there, no command goes out for a later block, and the blocks
/// are those that were received until then. One whose checksum does not fit holds the bytes
/// that came in.
pub proof fn law_a_read_stops_where_it_fails(
    origin: Origin<ErrandRun>,
    size: usize,
    end: BusState,
    e: Error,
    blocks: Seq<Seq<u8>>,
    address: u32,
    count: usize,
)
    requires
        origin.machine.wf(),
        origin.machine.at() == 0,
        origin.machine.errand == (Errand::Read { address, count }),
        count <= origin.blocks.len(),
        Session::<ErrandRun>::outcome(origin, size, end, Err(e), blocks),
    ensures
        exists|log: Seq<Record<ErrandRun>>| #[trigger]
            origin.ended(size, log, end, Err(e), blocks) && {
                let n = log.len() - 1;
                &&& n < origin.machine.errand.plan().len()
                &&& forall|k: int|
                    0 <= k <= n ==> (#[trigger] log[k]).machine.pending()
                        == origin.machine.errand.plan()[k]
                &&& exchange::mishap(log[n].machine.pending(), log[n].reply) == Some(e)
                &&& match (log[n].machine.pending(), e) {
                    (CardOp::ReceiveInto(i), Error::CrcMismatch(_, sum)) => {
                        &&& i < blocks.len()
                        &&& blocks[i as int].len() == size
                        &&& crc::checksum16(blocks[i as int]) == sum
                        &&& received_so_far(
                            origin,
                            size,
                            address,
                            blocks.update(i as int, origin.blocks[i as int]),
                            n,
                        )
                    },
                    _ => received_so_far(origin, size, address, blocks, n),
                }
            },
{
    let log = choose|log: Seq<Record<ErrandRun>>| origin.ended(size, log, end, Err(e), blocks);
    let n = log.len() - 1;
    let before = log.take(n);
    let last = log[n].machine;
    assert forall|k: int| 0 <= k <= n implies (#[trigger] log[k]).machine.pending()
        == origin.machine.errand.plan()[k] by {
        lemma_errand_log(origin, size, before, last, k);
        assert(origin.machine_at(before, last, k) == log[k].machine);
    }
    lemma_errand_log(origin, size, before, last, n);
    errand::lemma_plan(last.errand, last.round as int, last.stage as int);
    lemma_received(origin, size, before, last, address, count, n);
    let had = origin.blocks_at(log, n);
    assert(origin.blocks_at(before, n) == had);
    if let CardOp::ReceiveInto(i) = last.pending() {
        let told = origin.state_at(log, n);
        let (out, at) = choose|out: Result<Vec<u8>, Error>, at: int| #[trigger]
            session::placed(i as int, size, told, end, had, blocks, out, at) && log[n].reply
                == session::placed_or_failed(out);
        assert(out == Err::<Vec<u8>, Error>(e));
        assert(n == 1 + 5 * i + 3);
        assert(had[i as int] == origin.blocks[i as int]);
        if (told.line)(at) == DATA_START_BLOCK {
            assert(blocks.update(i as int, origin.blocks[i as int]) =~= had);
        }
    }
    assert(origin.ended(size, log, end, Err(e), blocks));
}

/// A read that succeeds gives what the card has sent: block `j` holds the data block that
/// came right behind the answer to the command for block `address + j`.
pub proof fn law_a_read_gives_what_the_card_sends(
    origin: Origin<ErrandRun>,
    size: usize,
    end: BusState,
    blocks: Seq<Seq<u8>>,
    address: u32,
    count: usize,
    j: int,
)
    requires
        origin.machine.wf(),
        origin.machine.at() == 0,
        origin.machine.errand == (Errand::Read { address, count }),
        count <= origin.blocks.len(),
        Session::<ErrandRun>::outcome(origin, size, end, Ok(()), blocks),
        0 <= j < count,
    ensures
        was_sent(
            origin.state,
            Command { index: 17, arg: (address + j) as u32 },
            size,
            blocks[j],
        ),
{
    let log = choose|log: Seq<Record<ErrandRun>>| origin.ended(size, log, end, Ok(()), blocks);
    let n = log.len() - 1;
    let read = origin.machine.errand;
    lemma_errand_ended(origin, size, log, end, blocks, n);
    lemma_received(origin, size, log.take(n), log[n].machine, address, count, n);
    assert(origin.blocks_at(log.take(n), n) == origin.blocks_at(log, n));
    errand::lemma_plan(read, count - 1, 4);
    assert(n == 1 + 5 * (count - 1) + 4) by {
        assert(read.per_round() == 5 && read.rounds() == count);
    }
    assert(read.plan()[n] == CardOp::Release);
    assert(blocks == origin.blocks_at(log, n));
    assert(1 + 5 * j + 3 < n);
}

/// The card has answered the command with a status, and has then taken the bytes that were
/// sent to it as a data block.
pub open spec fn card_took(
    c: Command,
    bytes: Seq<u8>,
    asked: BusState,
    told: BusState,
    after: BusState,
) -> bool {
    &&& exists|answer: Result<u8, Error>| #[trigger]
        SendCommand::outcome(c, asked, told, answer) && answer is Ok
    &&& exists|out: Result<(), Error>| #[trigger]
        SendBlock::outcome(
            BlockTask { token: DATA_START_BLOCK, payload: bytes },
            told,
            after,
            out,
        ) && out is Ok
}

/// Behind `start`, the card has taken these bytes for this command.
pub open spec fn was_taken(start: BusState, c: Command, bytes: Seq<u8>) -> bool {
    exists|asked: BusState, told: BusState, after: BusState|
        asked.line == start.line && start.pos <= asked.pos && #[trigger] card_took(
            c,
            bytes,
            asked,
            told,
            after,
        )
}

/// The blocks of a write stay what they were.
proof fn lemma_blocks_kept(
    origin: Origin<ErrandRun>,
    size: usize,
    log: Seq<Record<ErrandRun>>,
    outer: ErrandRun,
    k: int,
)
    requires
        origin.ran(size, log, outer),
        origin.machine.wf(),
        origin.machine.at() == 0,
        origin.machine.errand is Write,
        0 <= k <= log.len(),
    ensures
        origin.blocks_at(log, k) == origin.blocks,
    decreases k,
{
    if k > 0 {
        lemma_blocks_kept(origin, size, log, outer, k - 1);
        lemma_errand_log(origin, size, log, outer, k - 1);
        assert(origin.went(size, log, outer, k - 1));
        let m = log[k - 1].machine;
        errand::lemma_plan(m.errand, m.round as int, m.stage as int);
    }
}

/// A block is sent right behind the answer to its command, and the card takes it.
proof fn lemma_taken_block(
    origin: Origin<ErrandRun>,
    size: usize,
    log: Seq<Record<ErrandRun>>,
    outer: ErrandRun,
    address: u32,
    count: usize,
    j: int,
)
    requires
        origin.ran(size, log, outer),
        origin.machine.wf(),
        origin.machine.at() == 0,
        origin.machine.errand == (Errand::Write { address, count }),
        0 <= j < count,
        1 + 6 * j + 3 < log.len(),
    ensures
        was_taken(
            origin.state,
            Command { index: 24, arg: (address + j) as u32 },
            origin.blocks[j],
        ),
{
    let write = origin.machine.errand;
    let c = Command { index: 24, arg: (address + j) as u32 };
    let k = 1 + 6 * j + 2;
    errand::lemma_plan(write, j, 2);
    errand::lemma_plan(write, j, 3);
    lemma_errand_log(origin, size, log, outer, k);
    lemma_errand_log(origin, size, log, outer, k + 1);
    lemma_line_so_far(origin, size, log, outer, k);
    lemma_blocks_kept(origin, size, log, outer, k + 1);
    assert(origin.went(size, log, outer, k));
    assert(origin.went(size, log, outer, k + 1));
    assert(log[k].machine.pending() == CardOp::Command(c));
    assert(log[k + 1].machine.pending() == CardOp::SendFrom(j as usize));
    let asked = origin.state_at(log, k);
    let told = log[k].after;
    let after = log[k + 1].after;
    let task = BlockTask { token: DATA_START_BLOCK, payload: origin.blocks[j] };
    let answer = choose|out: Result<u8, Error>|
        #![trigger session::status_or_failed(out)]
        SendCommand::outcome(c, asked, told, out) && log[k].reply == session::status_or_failed(out);
    assert(answer is Ok);
    let out = choose|out: Result<(), Error>|
        #![trigger session::done_or_failed(out)]
        SendBlock::outcome(task, told, after, out) && log[k + 1].reply == session::done_or_failed(
            out,
        );
    assert(out is Ok);
    assert(card_took(c, origin.blocks[j], asked, told, after));
}

/// What the card has taken of a write after some exchanges.
pub open spec fn taken_so_far(origin: Origin<ErrandRun>, address: u32, done: int) -> bool {
    forall|j: int|
        0 <= j && 1 + 6 * j + 3 < done ==> was_taken(
            origin.state,
            Command { index: 24, arg: (address + j) as u32 },
            #[trigger] origin.blocks[j],
        )
}

/// What the card has taken of a write after all of the exchanges.
proof fn lemma_taken(
    origin: Origin<ErrandRun>,
    size: usize,
    log: Seq<Record<ErrandRun>>,
    outer: ErrandRun,
    address: u32,
    count: usize,
)
    requires
        origin.ran(size, log, outer),
        origin.machine.wf(),
        origin.machine.at() == 0,
        origin.machine.errand == (Errand::Write { address, count }),
    ensures
        taken_so_far(origin, address, log.len() as int),
{
    lemma_errand_log(origin, size, log, outer, log.len() as int);
    assert forall|j: int| 0 <= j && 1 + 6 * j + 3 < log.len() implies was_taken(
        origin.state,
        Command { index: 24, arg: (address + j) as u32 },
        #[trigger] origin.blocks[j],
    ) by {
        assert(j < count);
        lemma_taken_block(origin, size, log, outer, address, count, j);
    }
}

/// A write that is given up has had every block taken by the card whose exchange was over.
pub proof fn law_a_write_keeps_what_it_has_sent(
    session: Session<ErrandRun>,
    origin: Origin<ErrandRun>,
    now: BusState,
    address: u32,
    count: usize,
)
    requires
        origin.machine.wf(),
        origin.machine.at() == 0,
        origin.machine.errand == (Errand::Write { address, count }),
        count <= origin.blocks.len(),
        session.reached(origin, now),
    ensures
        session::contents(session.blocks@) == origin.blocks,
        taken_so_far(origin, address, session.outer.at()),
{
    let log = choose|log: Seq<Record<ErrandRun>>| session.came(origin, log, now);
    let n = log.len() as int;
    lemma_errand_log(origin, session.size, log, session.outer, n);
    lemma_blocks_kept(origin, session.size, log, session.outer, n);
    lemma_taken(origin, session.size, log, session.outer, address, count);
}

/// A write that the card lets down ends with the exchange that fails: what was performed
/// before it is the plan up to there, no command goes out for a later block, and the card
/// has taken the blocks that were sent until then.
pub proof fn law_a_write_stops_where_it_fails(
    origin: Origin<ErrandRun>,
    size: usize,
    end: BusState,
    e: Error,
    blocks: Seq<Seq<u8>>,
    address: u32,
    count: usize,
)
    requires
        origin.machine.wf(),
        origin.machine.at() == 0,
        origin.machine.errand == (Errand::Write { address, count }),
        count <= origin.blocks.len(),
        Session::<ErrandRun>::outcome(origin, size, end, Err(e), blocks),
    ensures
        blocks == origin.blocks,
        exists|log: Seq<Record<ErrandRun>>| #[trigger]
            origin.ended(size, log, end, Err(e), blocks) && {
                let n = log.len() - 1;
                &&& n < origin.machine.errand.plan().len()
                &&& forall|k: int|
                    0 <= k <= n ==> (#[trigger] log[k]).machine.pending()
                        == origin.machine.errand.plan()[k]
                &&& exchange::mishap(log[n].machine.pending(), log[n].reply) == Some(e)
                &&& taken_so_far(origin, address, n)
            },
{
    let log = choose|log: Seq<Record<ErrandRun>>| origin.ended(size, log, end, Err(e), blocks);
    let n = log.len() - 1;
    let before = log.take(n);
    let last = log[n].machine;
    assert forall|k: int| 0 <= k <= n implies (#[trigger] log[k]).machine.pending()
        == origin.machine.errand.plan()[k] by {
        lemma_errand_log(origin, size, before, last, k);
        assert(origin.machine_at(before, last, k) == log[k].machine);
    }
    lemma_errand_log(origin, size, before, last, n);
    errand::lemma_plan(last.errand, last.round as int, last.stage as int);
    lemma_blocks_kept(origin, size, before, last, n);
    lemma_taken(origin, size, before, last, address, count);
    assert(origin.blocks_at(before, n) == origin.blocks_at(log, n));
    assert(origin.ended(size, log, end, Err(e), blocks));
}

/// A write that succeeds has had every block taken by the card: block `j` right behind the
/// answer to the command for block `address + j`.
pub proof fn law_a_write_is_taken_by_the_card(
    origin: Origin<ErrandRun>,
    size: usize,
    end: BusState,
    blocks: Seq<Seq<u8>>,
    address: u32,
    count: usize,
    j: int,
)
    requires
        origin.machine.wf(),
        origin.machine.at() == 0,
        origin.machine.errand == (Errand::Write { address, count }),
        count <= origin.blocks.len(),
        Session::<ErrandRun>::outcome(origin, size, end, Ok(()), blocks),
        0 <= j < count,
    ensures
        blocks == origin.blocks,
        was_taken(
            origin.state,
            Command { index: 24, arg: (address + j) as u32 },
            origin.blocks[j],
        ),
{
    let log = choose|log: Seq<Record<ErrandRun>>| origin.ended(size, log, end, Ok(()), blocks);
    let n = log.len() - 1;
    let write = origin.machine.errand;
    lemma_errand_ended(origin, size, log, end, blocks, n);
    lemma_blocks_kept(origin, size, log.take(n), log[n].machine, n);
    lemma_taken(origin, size, log.take(n), log[n].machine, address, count);
    assert(origin.blocks_at(log.take(n), n) == origin.blocks_at(log, n));
    errand::lemma_plan(write, count - 1, 5);
    assert(n == 1 + 6 * (count - 1) + 5) by {
        assert(write.per_round() == 6 && write.rounds() == count);
    }
    assert(write.plan()[n] == errand::settle());
    assert(1 + 6 * j + 3 < n);
    assert(was_taken(
        origin.state,
        Command { index: 24, arg: (address + j) as u32 },
        origin.blocks[j],
    ));
}

/// The card has answered the command, and is ready.
pub open spec fn found_ready(c: Command, asked: BusState, told: BusState) -> bool {
    exists|answer: Result<u8, Error>| #[trigger]
        SendCommand::outcome(c, asked, told, answer) && answer == Ok::<u8, Error>(R1_READY_STATE)
}

/// The card was sent the three commands of an erase, one right behind the other, and was
/// ready for each of them.
pub open spec fn erase_accepted(first: u32, last: u32, a: BusState, b: BusState, c: BusState, d: BusState) -> bool {
    &&& found_ready(Command { index: 32, arg: first }, a, b)
    &&& found_ready(Command { index: 33, arg: last }, b, c)
    &&& found_ready(Command { index: 38, arg: 0 }, c, d)
}

/// A wait was over.
pub open spec fn waited(timeout_ms: u32, sustained: u32, before: BusState, after: BusState) -> bool {
    exists|out: Result<(), Error>| #[trigger]
        WaitIdle::outcome(IdleTask { timeout_ms, sustained }, before, after, out) && out is Ok
}

/// An exchange of an erase that was a command.
proof fn lemma_erase_command(
    origin: Origin<ErrandRun>,
    size: usize,
    log: Seq<Record<ErrandRun>>,
    end: BusState,
    blocks: Seq<Seq<u8>>,
    k: int,
    c: Command,
)
    requires
        origin.ended(size, log, end, Ok(()), blocks),
        origin.machine.wf(),
        origin.machine.at() == 0,
        origin.machine.errand is Erase,
        0 <= k < log.len(),
        origin.machine.errand.plan()[k] == CardOp::Command(c),
    ensures
        found_ready(c, origin.state_at(log, k), log[k].after),
{
    lemma_errand_ended(origin, size, log, end, blocks, k);
    let asked = origin.state_at(log, k);
    let answer = choose|out: Result<u8, Error>|
        #![trigger session::status_or_failed(out)]
        SendCommand::outcome(c, asked, log[k].after, out) && log[k].reply
            == session::status_or_failed(out);
    assert(SendCommand::outcome(c, asked, log[k].after, answer));
}

/// An erase that succeeds was accepted by the card, and the card has then been idle for
/// as many probes in a row as it takes to show that the erase is over.
pub proof fn law_an_erase_is_accepted_and_over(
    origin: Origin<ErrandRun>,
    size: usize,
    end: BusState,
    blocks: Seq<Seq<u8>>,
    first: u32,
    last: u32,
)
    requires
        origin.machine.wf(),
        origin.machine.at() == 0,
        origin.machine.errand == (Errand::Erase { first, last }),
        Session::<ErrandRun>::outcome(origin, size, end, Ok(()), blocks),
    ensures
        exists|a: BusState, b: BusState, c: BusState, d: BusState|
            a.line == origin.state.line && origin.state.pos <= a.pos && #[trigger] erase_accepted(
                first,
                last,
                a,
                b,
                c,
                d,
            ),
        exists|before: BusState|
            before.line == origin.state.line && #[trigger] waited(
                errand::ERASE_MS,
                errand::ERASE_SUSTAINED,
                before,
                end,
            ),
{
    let log = choose|log: Seq<Record<ErrandRun>>| origin.ended(size, log, end, Ok(()), blocks);
    let erase = origin.machine.errand;
    lemma_errand_ended(origin, size, log, end, blocks, 0);
    errand::lemma_plan(erase, 0, 2);
    errand::lemma_plan(erase, 0, 3);
    errand::lemma_plan(erase, 0, 4);
    errand::lemma_plan(erase, 0, 7);
    assert(log.len() == 9);
    lemma_erase_command(
        origin,
        size,
        log,
        end,
        blocks,
        3,
        Command { index: 32, arg: first },
    );
    lemma_erase_command(origin, size, log, end, blocks, 4, Command { index: 33, arg: last });
    lemma_erase_command(origin, size, log, end, blocks, 5, Command { index: 38, arg: 0 });
    lemma_line(origin, size, log, end, blocks, 3);
    lemma_line(origin, size, log, end, blocks, 8);
    assert(erase_accepted(
        first,
        last,
        origin.state_at(log, 3),
        log[3].after,
        log[4].after,
        log[5].after,
    ));
    lemma_errand_ended(origin, size, log, end, blocks, 8);
    let before = origin.state_at(log, 8);
    let task = IdleTask { timeout_ms: errand::ERASE_MS, sustained: errand::ERASE_SUSTAINED };
    let out = choose|out: Result<(), Error>|
        #![trigger session::done_or_failed(out)]
        WaitIdle::outcome(task, before, end, out) && log[8].reply == session::done_or_failed(out);
    assert(WaitIdle::outcome(task, before, end, out));
    assert(waited(errand::ERASE_MS, errand::ERASE_SUSTAINED, before, end));
}

/// The exchanges of a session.
pub open spec fn exchanges(log: Seq<Record<InitRun>>) -> Seq<Exchange> {
    Seq::new(log.len(), |i: int| Exchange { op: log[i].machine.pending(), reply: log[i].reply })
}

/// What comes of an exchange is a reply that it can have.
proof fn lemma_performs_fits(
    op: CardOp,
    reply: CardReply,
    size: usize,
    before: BusState,
    after: BusState,
    had: Seq<Seq<u8>>,
    has: Seq<Seq<u8>>,
)
    requires
        session::performs(op, reply, size, before, after, had, has),
    ensures
        exchange::fits(op, reply),
{
    if let CardOp::Receive(n) = op {
        let out = choose|out: Result<Vec<u8>, Error>|
            #![trigger session::bytes_or_failed(out)]
            ReceiveBlock::outcome(n, before, after, out) && reply == session::bytes_or_failed(out);
        let at = choose|at: int| data::reception_ends(n as int, before, after, out, at);
        assert(data::reception_ends(n as int, before, after, out, at));
    }
}

/// The stages of a session are those that its exchanges lead to.
proof fn lemma_init_log(
    origin: Origin<InitRun>,
    size: usize,
    log: Seq<Record<InitRun>>,
    outer: InitRun,
    k: int,
)
    requires
        origin.ran(size, log, outer),
        origin.machine.stage == InitStage::Settle,
        origin.machine.card == crate::sd::card::blank_card(),
        0 <= k <= log.len(),
    ensures
        ({
            let m = origin.machine_at(log, outer, k);
            &&& m.rca == origin.machine.rca
            &&& init::ran(origin.machine.rca, exchanges(log.take(k))) == Some((m.stage, m.card))
        }),
    decreases k,
{
    if k > 0 {
        lemma_init_log(origin, size, log, outer, k - 1);
        assert(origin.went(size, log, outer, k - 1));
        let r = log[k - 1];
        lemma_performs_fits(
            r.machine.pending(),
            r.reply,
            size,
            origin.state_at(log, k - 1),
            r.after,
            origin.blocks_at(log, k - 1),
            r.blocks,
        );
        assert(exchanges(log.take(k)).drop_last() =~= exchanges(log.take(k - 1)));
        assert(exchanges(log.take(k)).last() == (Exchange {
            op: r.machine.pending(),
            reply: r.reply,
        }));
    }
}

/// A card that was brought up has passed all milestones over the bus, in their order, and
/// what is known of it is what it has sent: every exchange of the session is one that was
/// performed. Nothing else is known of it.
pub proof fn law_a_card_is_brought_up_over_the_bus(
    origin: Origin<InitRun>,
    size: usize,
    end: BusState,
    card: Card,
    blocks: Seq<Seq<u8>>,
)
    requires
        origin.machine.stage == InitStage::Settle,
        origin.machine.card == crate::sd::card::blank_card(),
        Session::<InitRun>::outcome(origin, size, end, Ok(card), blocks),
    ensures
        card == (Card {
            ocr: card.ocr,
            csd: card.csd,
            cid: card.cid,
            ..crate::sd::card::blank_card()
        }),
        exists|log: Seq<Record<InitRun>>|
            #![trigger exchanges(log.drop_last())]
            origin.ended(size, log, end, Ok(card), blocks) && init::passed(
                origin.machine.rca,
                card,
                exchanges(log.drop_last()),
                7,
            ),
{
    let log = choose|log: Seq<Record<InitRun>>| origin.ended(size, log, end, Ok(card), blocks);
    let n = log.len() - 1;
    let last = log[n];
    lemma_init_log(origin, size, log.take(n), last.machine, n);
    assert(log.take(n).take(n) =~= log.drop_last());
    lemma_performs_fits(
        last.machine.pending(),
        last.reply,
        size,
        origin.state_at(log, n),
        end,
        origin.blocks_at(log, n),
        blocks,
    );
    init::law_a_card_is_brought_up_step_by_step(
        origin.machine.rca,
        exchanges(log.drop_last()),
        card,
        last.reply,
    );
}

} // verus!
