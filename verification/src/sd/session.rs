//! Carrying an operation on a card out over the bus.
//!
//! A [`Session`] takes an operation that is made of exchanges, and each exchange apart
//! into what it does on the bus. Whoever holds the bus performs one [`BusOp`] after the
//! other, and steps the session with the replies.

use vstd::prelude::*;

use crate::sd::bus;
use crate::sd::bus::{Act, Answer, BusMachine, BusOp, BusReply, BusState, BusStep};
use crate::sd::command::SendCommand;
use crate::sd::data;
use crate::sd::data::{BlockTask, ReceiveBlock, SendBlock};
use crate::sd::exchange;
use crate::sd::exchange::{CardMachine, CardOp, CardReply, CardStep};
use crate::sd::idle::{IdleTask, WaitIdle};
use crate::sd::response::{Error, DATA_START_BLOCK};

verus! {

/// The exchange that a session has come to.
pub enum Inner {
    Wait(WaitIdle),
    Command(SendCommand),
    Receive(ReceiveBlock),
    Into(usize, ReceiveBlock),
    Send(SendBlock),
    /// One operation on the bus.
    Plain,
}

/// An operation on a card, carried out over the bus.
pub struct Session<M> {
    pub outer: M,
    pub inner: Inner,
    /// The blocks that are received or sent.
    pub blocks: Vec<Vec<u8>>,
    /// The size of a block that is received.
    pub size: usize,
}

/// How a session goes on.
pub enum SessionStep<M, V> {
    /// Perform this, and step the session with the reply.
    Do(Session<M>, BusOp),
    /// The operation is over. The bus is given back, if it is still taken; the blocks are
    /// handed back.
    Done(Result<V, Error>, Vec<Vec<u8>>),
}

/// The bytes of some blocks.
pub open spec fn contents(blocks: Seq<Vec<u8>>) -> Seq<Seq<u8>> {
    Seq::new(blocks.len(), |i: int| blocks[i]@)
}

/// What an operation that is one operation on the bus is there.
pub open spec fn plain(op: CardOp) -> Act {
    match op {
        CardOp::Acquire => Act::Acquire,
        CardOp::SelectLow => Act::SelectLow,
        CardOp::Release => Act::Release,
        CardOp::Transfer(n) => Act::Transfer(n as nat),
        CardOp::DelayMs(ms) => Act::Delay((ms * 1000) as nat),
        CardOp::Enter(ms) => Act::Enter(ms),
        _ => Act::Leave,
    }
}

/// The reply to such an operation.
pub open spec fn plain_reply(reply: CardReply, answer: Answer) -> bool {
    match answer {
        Answer::Bytes(bytes) => reply matches CardReply::Bytes(given) && given@ == bytes,
        _ => reply is Done,
    }
}

/// The reply that a result without a value is.
pub open spec fn done_or_failed(out: Result<(), Error>) -> CardReply {
    match out {
        Ok(_) => CardReply::Done,
        Err(e) => CardReply::Failed(e),
    }
}

/// The reply that a status is.
pub open spec fn status_or_failed(out: Result<u8, Error>) -> CardReply {
    match out {
        Ok(status) => CardReply::Status(status),
        Err(e) => CardReply::Failed(e),
    }
}

/// The reply that a register is.
pub open spec fn bytes_or_failed(out: Result<Vec<u8>, Error>) -> CardReply {
    match out {
        Ok(bytes) => CardReply::Bytes(bytes),
        Err(e) => CardReply::Failed(e),
    }
}

/// The reply that a block which was received in its place is.
pub open spec fn placed_or_failed(out: Result<Vec<u8>, Error>) -> CardReply {
    match out {
        Ok(_) => CardReply::Done,
        Err(e) => CardReply::Failed(e),
    }
}

/// A block is received in the place of block `i`: the token came at byte `at`. What the
/// card has sent behind a token that starts a block is in its place, even where its
/// checksum does not fit; behind another token, the block is what it was.
pub open spec fn placed(
    i: int,
    size: usize,
    before: BusState,
    after: BusState,
    had: Seq<Seq<u8>>,
    has: Seq<Seq<u8>>,
    out: Result<Vec<u8>, Error>,
    at: int,
) -> bool {
    &&& data::reception_ends(size as int, before, after, out, at)
    &&& has == if (before.line)(at) == DATA_START_BLOCK {
        had.update(i, before.incoming(at + 1, at + 1 + size))
    } else {
        had
    }
}

/// An exchange takes the bus from `before` to `after`, and the blocks from `had` to
/// `has`, over a bus that never fails and where no time runs out.
pub open spec fn performs(
    op: CardOp,
    reply: CardReply,
    size: usize,
    before: BusState,
    after: BusState,
    had: Seq<Seq<u8>>,
    has: Seq<Seq<u8>>,
) -> bool {
    match op {
        CardOp::WaitIdle { timeout_ms, sustained } => {
            &&& has == had
            &&& exists|out: Result<(), Error>|
                #![trigger done_or_failed(out)]
                WaitIdle::outcome(IdleTask { timeout_ms, sustained }, before, after, out) && reply
                    == done_or_failed(out)
        },
        CardOp::Command(c) => {
            &&& has == had
            &&& exists|out: Result<u8, Error>|
                #![trigger status_or_failed(out)]
                SendCommand::outcome(c, before, after, out) && reply == status_or_failed(out)
        },
        CardOp::Receive(n) => {
            &&& has == had
            &&& exists|out: Result<Vec<u8>, Error>|
                #![trigger bytes_or_failed(out)]
                ReceiveBlock::outcome(n, before, after, out) && reply == bytes_or_failed(out)
        },
        CardOp::ReceiveInto(i) => exists|out: Result<Vec<u8>, Error>, at: int| #[trigger]
            placed(i as int, size, before, after, had, has, out, at) && reply == placed_or_failed(
                out,
            ),
        CardOp::SendFrom(i) => {
            &&& has == had
            &&& exists|out: Result<(), Error>|
                #![trigger done_or_failed(out)]
                SendBlock::outcome(
                    BlockTask { token: DATA_START_BLOCK, payload: had[i as int] },
                    before,
                    after,
                    out,
                ) && reply == done_or_failed(out)
        },
        _ => {
            &&& has == had
            &&& after == before.serve(plain(op)).0
            &&& plain_reply(reply, before.serve(plain(op)).1)
        },
    }
}

/// One exchange of a session: who waited for it, what came of it, and what the bus and the
/// blocks came to.
pub struct Record<M> {
    pub machine: M,
    pub reply: CardReply,
    pub after: BusState,
    pub blocks: Seq<Seq<u8>>,
}

/// What a session began with.
pub struct Origin<M> {
    pub machine: M,
    pub state: BusState,
    pub blocks: Seq<Seq<u8>>,
}

impl<M: CardMachine> Origin<M> {
    /// The bus before exchange `k`.
    pub open spec fn state_at(self, log: Seq<Record<M>>, k: int) -> BusState {
        if k == 0 {
            self.state
        } else {
            log[k - 1].after
        }
    }

    /// The blocks before exchange `k`.
    pub open spec fn blocks_at(self, log: Seq<Record<M>>, k: int) -> Seq<Seq<u8>> {
        if k == 0 {
            self.blocks
        } else {
            log[k - 1].blocks
        }
    }

    /// Who waits for exchange `k`; `outer` waits for the one behind the last.
    pub open spec fn machine_at(self, log: Seq<Record<M>>, outer: M, k: int) -> M {
        if k < log.len() {
            log[k].machine
        } else {
            outer
        }
    }

    /// Exchange `k` is performed over the bus, and the operation goes on behind it.
    pub open spec fn went(self, size: usize, log: Seq<Record<M>>, outer: M, k: int) -> bool {
        let r = log[k];
        &&& performs(
            r.machine.pending(),
            r.reply,
            size,
            self.state_at(log, k),
            r.after,
            self.blocks_at(log, k),
            r.blocks,
        )
        &&& r.machine.follows(r.reply, CardStep::Do(self.machine_at(log, outer, k + 1)))
    }

    /// These exchanges have led from the operation as it began to `outer`.
    pub open spec fn ran(self, size: usize, log: Seq<Record<M>>, outer: M) -> bool {
        &&& self.machine_at(log, outer, 0) == self.machine
        &&& forall|k: int| 0 <= k < log.len() ==> #[trigger] self.went(size, log, outer, k)
    }

    /// These exchanges, and the last of them behind the others, have led the operation to
    /// its end.
    pub open spec fn ended(
        self,
        size: usize,
        log: Seq<Record<M>>,
        end: BusState,
        out: Result<M::Value, Error>,
        blocks: Seq<Seq<u8>>,
    ) -> bool {
        let n = log.len() - 1;
        let last = log[n];
        &&& n >= 0
        &&& self.ran(size, log.take(n), last.machine)
        &&& performs(
            last.machine.pending(),
            last.reply,
            size,
            self.state_at(log, n),
            end,
            self.blocks_at(log, n),
            blocks,
        )
        &&& last.after == end
        &&& last.blocks == blocks
        &&& last.machine.follows(last.reply, CardStep::Done(out))
    }
}

impl Inner {
    /// The exchange is the one that is waited for.
    pub open spec fn serves(self, op: CardOp, size: usize, blocks: Seq<Seq<u8>>) -> bool {
        match self {
            Inner::Wait(m) => op matches CardOp::WaitIdle { timeout_ms, sustained } && m.wf()
                && m.task() == (IdleTask { timeout_ms, sustained }),
            Inner::Command(m) => op matches CardOp::Command(c) && m.wf() && m.task() == c,
            Inner::Receive(m) => op matches CardOp::Receive(n) && m.wf() && m.task() == n,
            Inner::Into(k, m) => op matches CardOp::ReceiveInto(i) && k == i && m.wf() && m.task()
                == size,
            Inner::Send(m) => op matches CardOp::SendFrom(i) && m.wf() && m.task() == (BlockTask {
                token: DATA_START_BLOCK,
                payload: blocks[i as int],
            }),
            Inner::Plain => !(op is WaitIdle || op is Command || op is Receive || op is ReceiveInto
                || op is SendFrom),
        }
    }

    /// What is pending on the bus.
    pub open spec fn pending(self, op: CardOp) -> Act {
        match self {
            Inner::Wait(m) => m.pending(),
            Inner::Command(m) => m.pending(),
            Inner::Receive(m) => m.pending(),
            Inner::Into(_, m) => m.pending(),
            Inner::Send(m) => m.pending(),
            Inner::Plain => plain(op),
        }
    }

    /// The exchange began at `start` and has come to `now`.
    pub open spec fn reached(self, start: BusState, now: BusState) -> bool {
        match self {
            Inner::Wait(m) => m.reached(start, now),
            Inner::Command(m) => m.reached(start, now),
            Inner::Receive(m) => m.reached(start, now),
            Inner::Into(_, m) => m.reached(start, now),
            Inner::Send(m) => m.reached(start, now),
            Inner::Plain => now == start,
        }
    }

    /// A time that the exchange has set runs.
    pub open spec fn bounded(self) -> bool {
        match self {
            Inner::Wait(m) => m.bounded(),
            Inner::Command(m) => m.bounded(),
            Inner::Receive(m) => m.bounded(),
            Inner::Into(_, m) => m.bounded(),
            Inner::Send(m) => m.bounded(),
            Inner::Plain => false,
        }
    }

    /// The blocks where the exchange is given up now: a block that is being received holds
    /// what has come in of it.
    pub open spec fn left_in(self, had: Seq<Seq<u8>>) -> Seq<Seq<u8>> {
        match self {
            Inner::Into(i, m) => match m.left() {
                Some(bytes) => had.update(i as int, bytes),
                None => had,
            },
            _ => had,
        }
    }

    /// The error where the time has passed that was set last: that of the exchange where
    /// it has set one.
    pub open spec fn overdue(self) -> Error {
        match self {
            Inner::Wait(m) => if m.bounded() {
                WaitIdle::overdue(m.task())
            } else {
                Error::Timeout
            },
            Inner::Command(m) => if m.bounded() {
                SendCommand::overdue(m.task())
            } else {
                Error::Timeout
            },
            Inner::Receive(m) => if m.bounded() {
                ReceiveBlock::overdue(m.task())
            } else {
                Error::Timeout
            },
            Inner::Into(_, m) => if m.bounded() {
                ReceiveBlock::overdue(m.task())
            } else {
                Error::Timeout
            },
            Inner::Send(_) => Error::Timeout,
            Inner::Plain => Error::Timeout,
        }
    }
}

impl<M: CardMachine> Session<M> {
    /// The exchange is the one that is waited for, and there is a block for each that it
    /// works on.
    pub open spec fn wf(self) -> bool {
        &&& self.outer.wf()
        &&& self.outer.blocks() <= self.blocks@.len()
        &&& self.inner.serves(self.outer.pending(), self.size, contents(self.blocks@))
    }

    /// What is pending on the bus.
    pub open spec fn pending(self) -> Act {
        self.inner.pending(self.outer.pending())
    }

    /// These exchanges have led from the beginning to this one, which has come to `now`.
    pub open spec fn came(self, origin: Origin<M>, log: Seq<Record<M>>, now: BusState) -> bool {
        let start = origin.state_at(log, log.len() as int);
        &&& origin.ran(self.size, log, self.outer)
        &&& contents(self.blocks@) == origin.blocks_at(log, log.len() as int)
        &&& (start.held, start.selected) == self.outer.holds()
        &&& self.inner.reached(start, now)
    }

    /// It began with `origin` and has come to `now`.
    pub open spec fn reached(self, origin: Origin<M>, now: BusState) -> bool {
        exists|log: Seq<Record<M>>| self.came(origin, log, now)
    }

    /// What the operation comes to.
    pub open spec fn outcome(
        origin: Origin<M>,
        size: usize,
        end: BusState,
        out: Result<M::Value, Error>,
        blocks: Seq<Seq<u8>>,
    ) -> bool {
        exists|log: Seq<Record<M>>| origin.ended(size, log, end, out, blocks)
    }

    /// Begin with an operation.
    pub fn begin(outer: M, blocks: Vec<Vec<u8>>, size: usize) -> (first: (Session<M>, BusOp))
        requires
            outer.wf(),
            outer.blocks() <= blocks@.len(),
        ensures
            ({
                let (m, op) = first;
                &&& m.wf()
                &&& m.outer == outer
                &&& m.blocks@ == blocks@
                &&& m.size == size
                &&& m.pending() == op@
                &&& forall|s: BusState|
                    (s.held, s.selected) == outer.holds() ==> #[trigger] m.inner.reached(s, s)
                &&& forall|s: BusState|
                    (s.held, s.selected) == outer.holds() ==> #[trigger] m.reached(
                        Origin { machine: outer, state: s, blocks: contents(blocks@) },
                        s,
                    )
            }),
    {
        proof {
            outer.lemma_allowed();
        }
        let op: CardOp = outer.operation();
        let (inner, bus_op): (Inner, BusOp) = match op {
            CardOp::WaitIdle { timeout_ms, sustained } => {
                let (m, bus_op): (WaitIdle, BusOp) = WaitIdle::begin(timeout_ms, sustained);
                (Inner::Wait(m), bus_op)
            },
            CardOp::Command(c) => {
                let (m, bus_op): (SendCommand, BusOp) = SendCommand::begin(c);
                (Inner::Command(m), bus_op)
            },
            CardOp::Receive(n) => {
                let (m, bus_op): (ReceiveBlock, BusOp) = ReceiveBlock::begin(n);
                (Inner::Receive(m), bus_op)
            },
            CardOp::ReceiveInto(i) => {
                let (m, bus_op): (ReceiveBlock, BusOp) = ReceiveBlock::begin(size);
                (Inner::Into(i, m), bus_op)
            },
            CardOp::SendFrom(i) => {
                let payload: Vec<u8> = copy_of(&blocks[i]);
                let (m, bus_op): (SendBlock, BusOp) = SendBlock::begin(DATA_START_BLOCK, payload);
                (Inner::Send(m), bus_op)
            },
            CardOp::Acquire => (Inner::Plain, BusOp::Acquire),
            CardOp::SelectLow => (Inner::Plain, BusOp::SelectLow),
            CardOp::Release => (Inner::Plain, BusOp::Release),
            CardOp::Transfer(n) => (Inner::Plain, BusOp::Transfer(n)),
            CardOp::DelayMs(ms) => (Inner::Plain, BusOp::DelayMs(ms)),
            CardOp::Enter(ms) => (Inner::Plain, BusOp::Enter(ms)),
            CardOp::Leave => (Inner::Plain, BusOp::Leave),
        };
        let session: Session<M> = Session { outer, inner, blocks, size };
        proof {
            assert forall|s: BusState|
                (s.held, s.selected) == outer.holds() implies #[trigger] session.reached(
                Origin { machine: outer, state: s, blocks: contents(blocks@) },
                s,
            ) by {
                let origin = Origin { machine: outer, state: s, blocks: contents(blocks@) };
                assert(session.inner.reached(s, s));
                assert(session.came(origin, Seq::empty(), s));
            }
        }
        (session, bus_op)
    }
}

/// How an exchange goes on.
pub enum InnerStep {
    /// Perform this, and step the exchange with the reply.
    Do(Inner, BusOp),
    /// The exchange is over. A block that was received, or a part of one, is handed over
    /// with its number.
    Done(CardReply, Option<(usize, Vec<u8>)>),
}

/// The blocks after a block was received.
pub open spec fn stored_into(had: Seq<Seq<u8>>, stored: Option<(usize, Vec<u8>)>) -> Seq<Seq<u8>> {
    match stored {
        Some((i, bytes)) => had.update(i as int, bytes@),
        None => had,
    }
}

/// A step of an exchange from `now` on, for one that began at `start`.
spec fn steps(
    inner: Inner,
    op: CardOp,
    reply: Answer,
    size: usize,
    had: Seq<Seq<u8>>,
    next: InnerStep,
    start: BusState,
    now: BusState,
) -> bool {
    let act = inner.pending(op);
    let after = now.serve(act).0;
    inner.reached(start, now) && reply == now.serve(act).1 ==> match next {
        InnerStep::Do(m, _) => m.reached(start, after),
        InnerStep::Done(handed, stored) => performs(
            op,
            handed,
            size,
            start,
            after,
            had,
            stored_into(had, stored),
        ),
    }
}

/// A block that was received, or was not, is in its place as it is meant to be.
proof fn lemma_placed(
    m: ReceiveBlock,
    i: usize,
    start: BusState,
    now: BusState,
    out: Result<Vec<u8>, Error>,
    had: Seq<Seq<u8>>,
    has: Seq<Seq<u8>>,
)
    requires
        m.wf(),
        m.reached(start, now),
        ReceiveBlock::outcome(m.task(), start, now.serve(m.pending()).0, out),
        has == match out {
            Ok(bytes) => had.update(i as int, bytes@),
            Err(_) => Inner::Into(i, m).left_in(had),
        },
    ensures
        exists|at: int| #[trigger]
            placed(i as int, m.len, start, now.serve(m.pending()).0, had, has, out, at),
{
    let after = now.serve(m.pending()).0;
    let at = match out {
        Ok(_) => choose|at: int| data::reception_ends(m.len as int, start, after, out, at),
        Err(e) => data::lemma_left(m, start, now, e),
    };
    assert(placed(i as int, m.len, start, after, had, has, out, at));
}

impl Inner {
    /// Take the reply to what was pending.
    fn step(
        self,
        op: CardOp,
        reply: BusReply,
        size: Ghost<usize>,
        had: Ghost<Seq<Seq<u8>>>,
    ) -> (next: InnerStep)
        requires
            self.serves(op, size@, had@),
            bus::answers(self.pending(op), reply@),
        ensures
            match next {
                InnerStep::Do(m, bus_op) => m.serves(op, size@, had@) && m.pending(op) == bus_op@,
                InnerStep::Done(handed, stored) => {
                    &&& exchange::fits(op, handed)
                    &&& stored matches Some((i, _)) ==> op == CardOp::ReceiveInto(i)
                },
            },
            reply@ is Failed ==> (next matches InnerStep::Done(handed, _) && exchange::mishap(
                op,
                handed,
            ) == Some(bus::failure(self.pending(op)))),
            reply@ is Expired ==> (next matches InnerStep::Done(handed, _) && exchange::mishap(
                op,
                handed,
            ) == Some(self.overdue())),
            reply@ is Failed || reply@ is Expired ==> (next matches InnerStep::Done(_, stored)
                && stored_into(had@, stored) == self.left_in(had@)),
            forall|start: BusState, now: BusState|
                #![trigger self.reached(start, now)]
                steps(self, op, reply@, size@, had@, next, start, now),
    {
        let late: bool = matches!(reply, BusReply::Expired);
        match self {
            Inner::Wait(m) => {
                if late && !m.is_bounded() {
                    return InnerStep::Done(CardReply::Expired, None);
                }
                match m.step(reply) {
                    BusStep::Do(m, bus_op) => InnerStep::Do(Inner::Wait(m), bus_op),
                    BusStep::Done(out) => {
                        let handed: CardReply = match out {
                            Ok(()) => CardReply::Done,
                            Err(e) => CardReply::Failed(e),
                        };
                        assert(handed == done_or_failed(out));
                        InnerStep::Done(handed, None)
                    },
                }
            },
            Inner::Command(m) => {
                if late && !m.is_bounded() {
                    return InnerStep::Done(CardReply::Expired, None);
                }
                match m.step(reply) {
                    BusStep::Do(m, bus_op) => InnerStep::Do(Inner::Command(m), bus_op),
                    BusStep::Done(out) => {
                        let handed: CardReply = match out {
                            Ok(status) => CardReply::Status(status),
                            Err(e) => CardReply::Failed(e),
                        };
                        assert(handed == status_or_failed(out));
                        InnerStep::Done(handed, None)
                    },
                }
            },
            Inner::Receive(m) => {
                if late && !m.is_bounded() {
                    return InnerStep::Done(CardReply::Expired, None);
                }
                match m.step(reply) {
                    BusStep::Do(m, bus_op) => InnerStep::Do(Inner::Receive(m), bus_op),
                    BusStep::Done(out) => {
                        let ghost given = out;
                        let handed: CardReply = match out {
                            Ok(bytes) => CardReply::Bytes(bytes),
                            Err(e) => CardReply::Failed(e),
                        };
                        assert(handed == bytes_or_failed(given));
                        InnerStep::Done(handed, None)
                    },
                }
            },
            Inner::Into(i, m) => {
                let left: Option<(usize, Vec<u8>)> = match m.leave() {
                    Some(bytes) => Some((i, bytes)),
                    None => None,
                };
                if late && !m.is_bounded() {
                    return InnerStep::Done(CardReply::Expired, left);
                }
                let ghost answer = reply@;
                match m.step(reply) {
                    BusStep::Do(m, bus_op) => InnerStep::Do(Inner::Into(i, m), bus_op),
                    BusStep::Done(out) => {
                        let ghost given = out;
                        let (handed, stored): (CardReply, Option<(usize, Vec<u8>)>) = match out {
                            Ok(bytes) => (CardReply::Done, Some((i, bytes))),
                            Err(e) => (CardReply::Failed(e), left),
                        };
                        assert(handed == placed_or_failed(given));
                        assert forall|start: BusState, now: BusState|
                            #![trigger m.reached(start, now)]
                            m.reached(start, now) && answer == now.serve(
                                m.pending(),
                            ).1 implies performs(
                            op,
                            handed,
                            size@,
                            start,
                            now.serve(m.pending()).0,
                            had@,
                            stored_into(had@, stored),
                        ) by {
                            lemma_placed(m, i, start, now, given, had@, stored_into(had@, stored));
                        }
                        InnerStep::Done(handed, stored)
                    },
                }
            },
            Inner::Send(m) => match m.step(reply) {
                BusStep::Do(m, bus_op) => InnerStep::Do(Inner::Send(m), bus_op),
                BusStep::Done(out) => {
                    let handed: CardReply = match out {
                        Ok(()) => CardReply::Done,
                        Err(e) => CardReply::Failed(e),
                    };
                    assert(handed == done_or_failed(out));
                    InnerStep::Done(handed, None)
                },
            },
            Inner::Plain => {
                let handed: CardReply = match reply {
                    BusReply::Done => CardReply::Done,
                    BusReply::Bytes(bytes) => CardReply::Bytes(bytes),
                    BusReply::Failed => CardReply::BusFailed,
                    BusReply::Expired => CardReply::Expired,
                };
                InnerStep::Done(handed, None)
            },
        }
    }
}

/// A copy of a block.
fn copy_of(block: &Vec<u8>) -> (copy: Vec<u8>)
    ensures
        copy@ == block@,
{
    let mut copy: Vec<u8> = Vec::new();
    let mut i: usize = 0;
    while i < block.len()
        invariant
            i <= block@.len(),
            copy@ == block@.take(i as int),
        decreases block@.len() - i,
    {
        copy.push(block[i]);
        i = i + 1;
        assert(copy@ =~= block@.take(i as int));
    }
    assert(block@.take(i as int) =~= block@);
    copy
}

/// After an exchange, the bus is held as the operation says.
proof fn lemma_performs_holds(
    op: CardOp,
    reply: CardReply,
    size: usize,
    before: BusState,
    after: BusState,
    had: Seq<Seq<u8>>,
    has: Seq<Seq<u8>>,
)
    requires
        performs(op, reply, size, before, after, had, has),
    ensures
        (after.held, after.selected) == exchange::held_after((before.held, before.selected), op),
{
}

/// The operation takes the reply to an exchange: it begins with the next one, or is over.
spec fn takes<M: CardMachine>(
    outer: M,
    reply: CardReply,
    size: usize,
    has: Seq<Seq<u8>>,
    next: SessionStep<M, M::Value>,
) -> bool {
    match next {
        SessionStep::Do(m, op) => {
            &&& m.wf()
            &&& m.pending() == op@
            &&& m.size == size
            &&& contents(m.blocks@) == has
            &&& outer.follows(reply, CardStep::Do(m.outer))
            &&& m.outer.holds() == exchange::held_after(outer.holds(), outer.pending())
            &&& forall|s: BusState|
                (s.held, s.selected) == m.outer.holds() ==> #[trigger] m.inner.reached(s, s)
        },
        SessionStep::Done(out, blocks) => {
            &&& contents(blocks@) == has
            &&& outer.follows(reply, CardStep::Done(out))
        },
    }
}

/// A session comes on by one exchange.
proof fn lemma_taken<M: CardMachine>(
    session: Session<M>,
    origin: Origin<M>,
    now: BusState,
    after: BusState,
    reply: CardReply,
    has: Seq<Seq<u8>>,
    next: SessionStep<M, M::Value>,
)
    requires
        session.reached(origin, now),
        forall|s: BusState| #[trigger]
            session.inner.reached(s, now) ==> performs(
                session.outer.pending(),
                reply,
                session.size,
                s,
                after,
                contents(session.blocks@),
                has,
            ),
        takes(session.outer, reply, session.size, has, next),
    ensures
        match next {
            SessionStep::Do(m, _) => m.reached(origin, after),
            SessionStep::Done(out, blocks) => Session::<M>::outcome(
                origin,
                session.size,
                after,
                out,
                contents(blocks@),
            ),
        },
{
    let log = choose|log: Seq<Record<M>>| session.came(origin, log, now);
    let n = log.len() as int;
    let before = origin.state_at(log, n);
    let r = Record { machine: session.outer, reply, after, blocks: has };
    let more = log.push(r);
    assert(session.inner.reached(before, now));
    lemma_performs_holds(
        session.outer.pending(),
        reply,
        session.size,
        before,
        after,
        contents(session.blocks@),
        has,
    );
    assert(origin.state_at(more, n) == before);
    assert(origin.blocks_at(more, n) == origin.blocks_at(log, n));
    match next {
        SessionStep::Do(m, _) => {
            assert forall|k: int| 0 <= k < more.len() implies #[trigger] origin.went(
                session.size,
                more,
                m.outer,
                k,
            ) by {
                if k < n {
                    assert(origin.went(session.size, log, session.outer, k));
                    assert(origin.state_at(more, k) == origin.state_at(log, k));
                    assert(origin.blocks_at(more, k) == origin.blocks_at(log, k));
                    assert(origin.machine_at(more, m.outer, k + 1) == origin.machine_at(
                        log,
                        session.outer,
                        k + 1,
                    ));
                }
            }
            assert(origin.machine_at(more, m.outer, 0) == origin.machine_at(log, session.outer, 0));
            assert(m.inner.reached(after, after));
            assert(m.came(origin, more, after));
        },
        SessionStep::Done(out, blocks) => {
            assert(more.take(n) =~= log);
            assert(origin.ended(session.size, more, after, out, contents(blocks@)));
        },
    }
}

impl<M: CardMachine> Session<M> {
    /// Hand the reply to an exchange to the operation.
    fn finish(outer: M, blocks: Vec<Vec<u8>>, size: usize, reply: CardReply) -> (next: SessionStep<
        M,
        M::Value,
    >)
        requires
            outer.wf(),
            outer.blocks() <= blocks@.len(),
            exchange::fits(outer.pending(), reply),
        ensures
            takes(outer, reply, size, contents(blocks@), next),
            exchange::mishap(outer.pending(), reply) matches Some(e) ==> (next matches
                SessionStep::Done(Err(given), _) && given == e),
    {
        match outer.step(reply) {
            CardStep::Done(out) => SessionStep::Done(out, blocks),
            CardStep::Do(next) => {
                let (session, op): (Session<M>, BusOp) = Session::begin(next, blocks, size);
                SessionStep::Do(session, op)
            },
        }
    }

    /// Take the reply to what was pending.
    ///
    /// Over a bus that never fails, and where no time runs out, every exchange of the
    /// operation is performed as it is meant to be, and the operation is handed what came
    /// of it. A failure of the bus ends the operation with the error of what failed, and
    /// the time that has passed with the error for that; the blocks are handed back as they
    /// are then, with what has come in of the one that is being received.
    pub fn step(self, reply: BusReply) -> (next: SessionStep<M, M::Value>)
        requires
            self.wf(),
            bus::answers(self.pending(), reply@),
        ensures
            next matches SessionStep::Do(m, op) ==> m.wf() && m.pending() == op@,
            reply@ is Failed ==> (next matches SessionStep::Done(Err(e), _) && e == bus::failure(
                self.pending(),
            )),
            reply@ is Expired ==> (next matches SessionStep::Done(Err(e), _) && e
                == self.inner.overdue()),
            reply@ is Failed || reply@ is Expired ==> (next matches SessionStep::Done(_, blocks)
                && contents(blocks@) == self.inner.left_in(contents(self.blocks@))),
            forall|origin: Origin<M>, now: BusState|
                #![trigger self.reached(origin, now)]
                self.reached(origin, now) && reply@ == now.serve(self.pending()).1 ==> {
                    let after = now.serve(self.pending()).0;
                    match next {
                        SessionStep::Do(m, _) => m.reached(origin, after),
                        SessionStep::Done(out, blocks) => Self::outcome(
                            origin,
                            self.size,
                            after,
                            out,
                            contents(blocks@),
                        ),
                    }
                },
    {
        let ghost session = self;
        let Session { outer, inner, blocks, size } = self;
        let ghost had = contents(blocks@);
        let ghost came_in = reply@;
        proof {
            outer.lemma_allowed();
        }
        let op: CardOp = outer.operation();
        match inner.step(op, reply, Ghost(size), Ghost(had)) {
            InnerStep::Do(inner, bus_op) => {
                let next: Session<M> = Session { outer, inner, blocks, size };
                assert forall|origin: Origin<M>, now: BusState|
                    #![trigger session.reached(origin, now)]
                    session.reached(origin, now) && came_in == now.serve(
                        session.pending(),
                    ).1 implies next.reached(origin, now.serve(session.pending()).0) by {
                    let log = choose|log: Seq<Record<M>>| session.came(origin, log, now);
                    assert(session.inner.reached(origin.state_at(log, log.len() as int), now));
                    assert(next.came(origin, log, now.serve(session.pending()).0));
                }
                SessionStep::Do(next, bus_op)
            },
            InnerStep::Done(card_reply, stored) => {
                let ghost handed = card_reply;
                let ghost has = stored_into(had, stored);
                let mut blocks: Vec<Vec<u8>> = blocks;
                if let Some((i, bytes)) = stored {
                    blocks.set(i, bytes);
                }
                assert(contents(blocks@) =~= has);
                let next: SessionStep<M, M::Value> = Self::finish(outer, blocks, size, card_reply);
                assert forall|origin: Origin<M>, now: BusState|
                    #![trigger session.reached(origin, now)]
                    session.reached(origin, now) && came_in == now.serve(
                        session.pending(),
                    ).1 implies match next {
                    SessionStep::Do(m, _) => m.reached(origin, now.serve(session.pending()).0),
                    SessionStep::Done(out, blocks) => Self::outcome(
                        origin,
                        session.size,
                        now.serve(session.pending()).0,
                        out,
                        contents(blocks@),
                    ),
                } by {
                    let after = now.serve(session.pending()).0;
                    lemma_taken(session, origin, now, after, handed, has, next);
                }
                next
            },
        }
    }

    /// A time has passed that the operation has set, while one of the exchange runs.
    pub fn overrun(self) -> (over: (Result<M::Value, Error>, Vec<Vec<u8>>))
        ensures
            over.0 matches Err(e) && e == Error::Timeout,
            over.1@ == self.blocks@,
    {
        (Err(Error::Timeout), self.blocks)
    }
}

/// An exchange does on the bus what it is for: a command is sent and its status handed back, a
/// block is received, in its place or as a register, a block of the ones at hand is sent behind
/// the token that starts one, a wait is waited for, and what is one operation on the bus is that
/// operation. Only a block that is received in its place changes the blocks.
pub proof fn law_an_exchange_does_what_it_is_for(
    op: CardOp,
    reply: CardReply,
    size: usize,
    before: BusState,
    after: BusState,
    had: Seq<Seq<u8>>,
    has: Seq<Seq<u8>>,
)
    requires
        performs(op, reply, size, before, after, had, has),
    ensures
        !(op is ReceiveInto) ==> has == had,
        match op {
            CardOp::Command(c) => match reply {
                CardReply::Status(status) => SendCommand::outcome(c, before, after, Ok(status)),
                CardReply::Failed(e) => SendCommand::outcome(c, before, after, Err(e)),
                _ => false,
            },
            CardOp::Receive(n) => match reply {
                CardReply::Bytes(bytes) => ReceiveBlock::outcome(n, before, after, Ok(bytes)),
                CardReply::Failed(e) => ReceiveBlock::outcome(n, before, after, Err(e)),
                _ => false,
            },
            CardOp::ReceiveInto(i) => match reply {
                CardReply::Done => exists|bytes: Vec<u8>| #[trigger]
                    ReceiveBlock::outcome(size, before, after, Ok(bytes)) && has == had.update(
                        i as int,
                        bytes@,
                    ),
                CardReply::Failed(e) => {
                    &&& ReceiveBlock::outcome(size, before, after, Err(e))
                    &&& e is CrcMismatch ==> exists|at: int|
                        #![trigger (before.line)(at)]
                        token_and_idle(before, at) && (before.line)(at) == 0xFE && has
                            == had.update(i as int, before.incoming(at + 1, at + 1 + size))
                    &&& !(e is CrcMismatch) ==> has == had
                },
                _ => false,
            },
            CardOp::SendFrom(i) => {
                let task = BlockTask { token: 0xFE, payload: had[i as int] };
                match reply {
                    CardReply::Done => SendBlock::outcome(task, before, after, Ok(())),
                    CardReply::Failed(e) => SendBlock::outcome(task, before, after, Err(e)),
                    _ => false,
                }
            },
            CardOp::WaitIdle { timeout_ms, sustained } => {
                let task = IdleTask { timeout_ms, sustained };
                match reply {
                    CardReply::Done => WaitIdle::outcome(task, before, after, Ok(())),
                    CardReply::Failed(e) => WaitIdle::outcome(task, before, after, Err(e)),
                    _ => false,
                }
            },
            CardOp::Acquire => reply is Done && after == (BusState { held: true, ..before }),
            CardOp::SelectLow => reply is Done && after == (BusState { selected: true, ..before }),
            CardOp::Release => reply is Done && after == (BusState {
                held: false,
                selected: false,
                ..before
            }),
            CardOp::Transfer(n) => {
                &&& reply matches CardReply::Bytes(bytes) && bytes@.len() == n && (forall|k: int|
                    0 <= k < n ==> #[trigger] bytes@[k] == (before.line)(before.pos + k))
                &&& after == before.after_sending(bus::idle_bytes(n as nat))
            },
            CardOp::DelayMs(ms) => reply is Done && after == (BusState {
                waited: before.waited + 1000 * ms as nat,
                ..before
            }),
            CardOp::Enter(ms) => reply is Done && after == (BusState {
                bounds: before.bounds.push(ms),
                ..before
            }),
            CardOp::Leave => reply is Done && after == (BusState {
                bounds: before.bounds.drop_last(),
                ..before
            }),
        },
{
    match op {
        CardOp::Command(c) => {
            let out = choose|out: Result<u8, Error>|
                #![trigger status_or_failed(out)]
                SendCommand::outcome(c, before, after, out) && reply == status_or_failed(out);
            assert(SendCommand::outcome(c, before, after, out));
        },
        CardOp::Receive(n) => {
            let out = choose|out: Result<Vec<u8>, Error>|
                #![trigger bytes_or_failed(out)]
                ReceiveBlock::outcome(n, before, after, out) && reply == bytes_or_failed(out);
            assert(ReceiveBlock::outcome(n, before, after, out));
        },
        CardOp::ReceiveInto(i) => {
            let (out, at) = choose|out: Result<Vec<u8>, Error>, at: int| #[trigger]
                placed(i as int, size, before, after, had, has, out, at) && reply
                    == placed_or_failed(out);
            assert(data::reception_ends(size as int, before, after, out, at));
            assert(ReceiveBlock::outcome(size, before, after, out));
            assert(token_and_idle(before, at));
            match out {
                Ok(bytes) => {
                    assert(ReceiveBlock::outcome(size, before, after, Ok(bytes)));
                    assert(before.incoming(at + 1, at + 1 + size) == bytes@);
                    assert(has == had.update(i as int, bytes@));
                },
                Err(e) => {
                    if e is CrcMismatch {
                        assert((before.line)(at) == 0xFE);
                        assert(has == had.update(i as int, before.incoming(at + 1, at + 1 + size)));
                    } else {
                        assert(has == had);
                    }
                },
            }
        },
        CardOp::SendFrom(i) => {
            let task = BlockTask { token: DATA_START_BLOCK, payload: had[i as int] };
            let out = choose|out: Result<(), Error>|
                #![trigger done_or_failed(out)]
                SendBlock::outcome(task, before, after, out) && reply == done_or_failed(out);
            assert(SendBlock::outcome(task, before, after, out));
            if let Ok(nothing) = out {
                assert(nothing == ());
            }
        },
        CardOp::WaitIdle { timeout_ms, sustained } => {
            let task = IdleTask { timeout_ms, sustained };
            let out = choose|out: Result<(), Error>|
                #![trigger done_or_failed(out)]
                WaitIdle::outcome(task, before, after, out) && reply == done_or_failed(out);
            assert(WaitIdle::outcome(task, before, after, out));
            if let Ok(nothing) = out {
                assert(nothing == ());
            }
        },
        _ => {},
    }
}

/// Byte `at` is the first one that is not idle.
pub open spec fn token_and_idle(before: BusState, at: int) -> bool {
    &&& before.pos <= at
    &&& (before.line)(at) != 0xFF
    &&& forall|i: int| before.pos <= i < at ==> #[trigger] (before.line)(i) == 0xFF
}

/// The error where a time has passed is that of what has set it: a command that is waited on is
/// named, and everything else is timed out.
pub proof fn law_what_takes_too_long_is_told_apart(inner: Inner)
    ensures
        inner matches Inner::Command(m) && m.bounded() ==> inner.overdue() == Error::NoResponseTo(
            inner->Command_0.command.index,
        ),
        !(inner is Command) || !(inner->Command_0.bounded()) ==> inner.overdue() == Error::Timeout,
{
}

/// The blocks of a session are handed back as they are, but for the one that is being received.
pub proof fn law_only_the_block_that_comes_in_changes(inner: Inner, had: Seq<Seq<u8>>, j: int)
    requires
        inner matches Inner::Into(i, _) ==> i < had.len(),
    ensures
        inner.left_in(had).len() == had.len(),
        !(inner is Into) ==> inner.left_in(had) == had,
        inner matches Inner::Into(i, m) ==> {
            &&& 0 <= j < had.len() && j != i ==> inner.left_in(had)[j] == had[j]
            &&& 0 <= j < had.len() && j == i ==> inner.left_in(had)[j] == match m.left() {
                Some(bytes) => bytes,
                None => had[j],
            }
        },
{
}

/// The blocks of a session are their bytes, in order.
pub proof fn law_the_blocks_are_their_bytes(blocks: Seq<Vec<u8>>, i: int)
    ensures
        contents(blocks).len() == blocks.len(),
        0 <= i < blocks.len() ==> contents(blocks)[i] == blocks[i]@,
{
}

/// These exchanges lead from one to the next: each one is performed over the bus from where the
/// one before it ended, and who waits for the next one is who follows its reply.
pub open spec fn leads_on<M: CardMachine>(
    size: usize,
    log: Seq<Record<M>>,
    first: BusState,
    blocks: Seq<Seq<u8>>,
    k: int,
) -> bool {
    let before = if k == 0 {
        first
    } else {
        log[k - 1].after
    };
    let had = if k == 0 {
        blocks
    } else {
        log[k - 1].blocks
    };
    &&& performs(
        log[k].machine.pending(),
        log[k].reply,
        size,
        before,
        log[k].after,
        had,
        log[k].blocks,
    )
    &&& k + 1 < log.len() ==> log[k].machine.follows(
        log[k].reply,
        CardStep::Do(log[k + 1].machine),
    )
}

/// A session that is over has performed one exchange after the other, from the operation as it
/// began on, and ends as the operation says behind the reply to the last one, with the bus and
/// the blocks as that one has left them.
pub proof fn law_a_session_ends_with_its_last_exchange<M: CardMachine>(
    origin: Origin<M>,
    size: usize,
    end: BusState,
    out: Result<M::Value, Error>,
    blocks: Seq<Seq<u8>>,
)
    requires
        Session::<M>::outcome(origin, size, end, out, blocks),
    ensures
        exists|log: Seq<Record<M>>|
            #![trigger log.last()]
            {
                &&& log.len() > 0
                &&& log[0].machine == origin.machine
                &&& forall|k: int|
                    0 <= k < log.len() ==> #[trigger] leads_on(
                        size,
                        log,
                        origin.state,
                        origin.blocks,
                        k,
                    )
                &&& log.last().machine.follows(log.last().reply, CardStep::Done(out))
                &&& log.last().after == end
                &&& log.last().blocks == blocks
            },
{
    let log = choose|log: Seq<Record<M>>| origin.ended(size, log, end, out, blocks);
    let n = log.len() - 1;
    let before = log.take(n);
    let last = log[n].machine;
    assert(origin.machine_at(before, last, 0) == log[0].machine);
    assert forall|k: int| 0 <= k < log.len() implies #[trigger] leads_on(
        size,
        log,
        origin.state,
        origin.blocks,
        k,
    ) by {
        if k < n {
            assert(origin.went(size, before, last, k));
            assert(origin.machine_at(before, last, k + 1) == log[k + 1].machine);
        }
    }
    assert(log.last() == log[n]);
}

/// A session stands where its exchanges have led: all of those before the one that it has come
/// to were performed, one after the other, and that one began where the last of them ended.
pub proof fn law_a_session_stands_where_its_exchanges_have_led<M: CardMachine>(
    session: Session<M>,
    origin: Origin<M>,
    now: BusState,
)
    requires
        session.reached(origin, now),
    ensures
        session.pending() == session.inner.pending(session.outer.pending()),
        exists|log: Seq<Record<M>>|
            #![trigger log.len()]
            {
                let n = log.len() as int;
                &&& n == 0 ==> session.outer == origin.machine && session.inner.reached(
                    origin.state,
                    now,
                ) && contents(session.blocks@) == origin.blocks
                &&& n > 0 ==> {
                    &&& log[0].machine == origin.machine
                    &&& log[n - 1].machine.follows(log[n - 1].reply, CardStep::Do(session.outer))
                    &&& session.inner.reached(log[n - 1].after, now)
                    &&& contents(session.blocks@) == log[n - 1].blocks
                }
                &&& forall|k: int|
                    0 <= k < n ==> #[trigger] leads_on(
                        session.size,
                        log,
                        origin.state,
                        origin.blocks,
                        k,
                    )
            },
{
    let log = choose|log: Seq<Record<M>>| session.came(origin, log, now);
    let n = log.len() as int;
    assert forall|k: int| 0 <= k < n implies #[trigger] leads_on(
        session.size,
        log,
        origin.state,
        origin.blocks,
        k,
    ) by {
        assert(origin.went(session.size, log, session.outer, k));
    }
    if n > 0 {
        assert(origin.went(session.size, log, session.outer, n - 1));
    }
}

} // verus!
