//! The SPI bus that a card sits on, and operations that are stepped over it.
//!
//! An operation on a card sends bytes, takes bytes in and waits. It does none of that
//! itself: it is a [`BusMachine`], which names one [`BusOp`] at a time and is stepped
//! with the [`BusReply`] to it. Whoever holds the bus performs the operations.

use vstd::prelude::*;

use crate::sd::response::Error;

verus! {

/// One thing to do with the bus.
#[derive(Debug, PartialEq, Eq)]
pub enum BusOp {
    /// Take the bus.
    Acquire,
    /// Select the card: drive its chip-select low.
    SelectLow,
    /// Deselect the card: drive its chip-select high.
    SelectHigh,
    /// Deselect the card and give the bus back.
    Release,
    /// Send these bytes; what comes in is of no interest.
    Write(Vec<u8>),
    /// Send this many bytes of 0xFF, and hand back what comes in.
    Transfer(usize),
    /// Wait, in milliseconds.
    DelayMs(u32),
    /// Wait, in microseconds.
    DelayUs(u32),
    /// From here on, the operation has this many milliseconds. If they pass, the reply
    /// to whatever is pending then is that they have.
    Enter(u32),
    /// The time that was last set no longer runs.
    Leave,
}

/// What came of a [`BusOp`].
#[derive(Debug, PartialEq, Eq)]
pub enum BusReply {
    /// It is done; there is nothing to hand back.
    Done,
    /// The bytes that came in.
    Bytes(Vec<u8>),
    /// It failed.
    Failed,
    /// It was given up, because the time of the operation has passed.
    Expired,
}

/// A [`BusOp`], over mathematical bytes.
pub enum Act {
    Acquire,
    SelectLow,
    SelectHigh,
    Release,
    Write(Seq<u8>),
    Transfer(nat),
    Delay(nat),
    Enter(u32),
    Leave,
}

/// A [`BusReply`], over mathematical bytes.
pub enum Answer {
    Done,
    Bytes(Seq<u8>),
    Failed,
    Expired,
}

impl View for BusOp {
    type V = Act;

    /// Waits are counted in microseconds.
    open spec fn view(&self) -> Act {
        match *self {
            BusOp::Acquire => Act::Acquire,
            BusOp::SelectLow => Act::SelectLow,
            BusOp::SelectHigh => Act::SelectHigh,
            BusOp::Release => Act::Release,
            BusOp::Write(bytes) => Act::Write(bytes@),
            BusOp::Transfer(n) => Act::Transfer(n as nat),
            BusOp::DelayMs(ms) => Act::Delay((ms * 1000) as nat),
            BusOp::DelayUs(us) => Act::Delay(us as nat),
            BusOp::Enter(ms) => Act::Enter(ms),
            BusOp::Leave => Act::Leave,
        }
    }
}

impl View for BusReply {
    type V = Answer;

    open spec fn view(&self) -> Answer {
        match *self {
            BusReply::Done => Answer::Done,
            BusReply::Bytes(bytes) => Answer::Bytes(bytes@),
            BusReply::Failed => Answer::Failed,
            BusReply::Expired => Answer::Expired,
        }
    }
}

/// `n` bytes of 0xFF: what an idle line reads as.
pub open spec fn idle_bytes(n: nat) -> Seq<u8> {
    Seq::new(n, |i: int| 0xFFu8)
}

/// The bus, seen over a whole operation. Bytes go out and come in at the same time.
pub struct BusState {
    /// What the card drives the line to, byte by byte.
    pub line: spec_fn(int) -> u8,
    /// The number of bytes that have gone out, and come in.
    pub pos: int,
    /// What was sent.
    pub sent: Seq<u8>,
    /// The bus is taken.
    pub held: bool,
    /// The card is selected.
    pub selected: bool,
    /// The times that run, in milliseconds.
    pub bounds: Seq<u32>,
    /// The time that was waited, in microseconds.
    pub waited: nat,
}

impl BusState {
    /// The bytes that the card drives the line to, from byte `from` to byte `to`.
    pub open spec fn incoming(self, from: int, to: int) -> Seq<u8> {
        Seq::new((to - from) as nat, |i: int| (self.line)(from + i))
    }

    /// The bus after these bytes were sent.
    pub open spec fn after_sending(self, bytes: Seq<u8>) -> BusState {
        BusState { pos: self.pos + bytes.len(), sent: self.sent + bytes, ..self }
    }

    /// What a bus that never fails, and where no time runs out, makes of an operation.
    pub open spec fn serve(self, act: Act) -> (BusState, Answer) {
        match act {
            Act::Acquire => (BusState { held: true, ..self }, Answer::Done),
            Act::SelectLow => (BusState { selected: true, ..self }, Answer::Done),
            Act::SelectHigh => (BusState { selected: false, ..self }, Answer::Done),
            Act::Release => (BusState { held: false, selected: false, ..self }, Answer::Done),
            Act::Write(bytes) => (self.after_sending(bytes), Answer::Done),
            Act::Transfer(n) => (
                self.after_sending(idle_bytes(n)),
                Answer::Bytes(self.incoming(self.pos, self.pos + n)),
            ),
            Act::Delay(us) => (BusState { waited: self.waited + us, ..self }, Answer::Done),
            Act::Enter(ms) => (BusState { bounds: self.bounds.push(ms), ..self }, Answer::Done),
            Act::Leave => (BusState { bounds: self.bounds.drop_last(), ..self }, Answer::Done),
        }
    }

    /// A card can be talked to: the bus is taken and the card selected.
    pub open spec fn can_talk(self) -> bool {
        self.held && self.selected
    }
}

/// Bytes that are sent after others are sent together with them.
pub proof fn lemma_sent(start: BusState, first: Seq<u8>, then: Seq<u8>)
    ensures
        start.after_sending(first).after_sending(then) == start.after_sending(first + then),
{
    assert(start.sent + first + then =~= start.sent + (first + then));
}

/// Idle bytes that come after others.
pub proof fn lemma_idle_bytes(n: nat, m: nat)
    ensures
        idle_bytes(n) + idle_bytes(m) == idle_bytes(n + m),
{
    assert(idle_bytes(n) + idle_bytes(m) =~= idle_bytes(n + m));
}

/// An operation drives the bus.
pub open spec fn drives(act: Act) -> bool {
    act is Write || act is Transfer
}

/// A reply is one that the operation can have.
pub open spec fn answers(act: Act, reply: Answer) -> bool {
    match reply {
        Answer::Done => !(act is Transfer),
        Answer::Bytes(bytes) => act matches Act::Transfer(n) && bytes.len() == n,
        Answer::Failed => drives(act) || act is Acquire || act is SelectLow || act
            is SelectHigh,
        Answer::Expired => true,
    }
}

/// The error of an operation on the bus that failed.
pub open spec fn failure(act: Act) -> Error {
    match act {
        Act::Acquire => Error::BusUnavailable,
        Act::SelectLow => Error::ChipSelect,
        Act::SelectHigh => Error::ChipSelect,
        _ => Error::SpiError,
    }
}

/// How an operation goes on.
pub enum BusStep<M, V> {
    /// Perform this, and step the machine with the reply.
    Do(M, BusOp),
    /// The operation is over.
    Done(Result<V, Error>),
}

/// An operation that is stepped over the bus.
pub trait BusMachine: Sized {
    /// What it was asked to do.
    type Task;

    /// What it gives.
    type Value;

    /// The task stays the same from step to step.
    spec fn task(self) -> Self::Task;

    /// It is one that such an operation comes to, whatever the replies.
    spec fn wf(self) -> bool;

    /// What it is waiting for.
    spec fn pending(self) -> Act;

    /// It began at `start` and has come to `now`.
    spec fn reached(self, start: BusState, now: BusState) -> bool;

    /// A time that it has set runs.
    spec fn bounded(self) -> bool;

    /// A time that it has set runs.
    fn is_bounded(&self) -> (b: bool)
        ensures
            b == self.bounded(),
    ;

    /// The times that run are those that it has set, and those that ran before.
    proof fn lemma_bounds(self, start: BusState, now: BusState)
        requires
            self.reached(start, now),
        ensures
            now.bounds.len() == start.bounds.len() + if self.bounded() {
                1int
            } else {
                0int
            },
    ;

    /// The error of the operation where its time has passed.
    spec fn overdue(task: Self::Task) -> Error;

    /// A value that the task can give, whatever the replies.
    spec fn possible(task: Self::Task, value: Self::Value) -> bool;

    /// What the task comes to, from the bus before it to the bus after it.
    spec fn outcome(
        task: Self::Task,
        start: BusState,
        end: BusState,
        out: Result<Self::Value, Error>,
    ) -> bool;

    /// Take the reply to what was pending.
    ///
    /// Over a bus that never fails, and where no time runs out, an operation that comes
    /// to its end gives the outcome. A failure of the bus ends it with the error of
    /// what failed, and the time that has passed with the error for that.
    fn step(self, reply: BusReply) -> (next: BusStep<Self, Self::Value>)
        requires
            self.wf(),
            answers(self.pending(), reply@),
        ensures
            match next {
                BusStep::Do(m, op) => m.wf() && m.task() == self.task() && m.pending() == op@,
                BusStep::Done(Ok(value)) => Self::possible(self.task(), value),
                BusStep::Done(Err(_)) => true,
            },
            reply@ is Failed ==> (next matches BusStep::Done(Err(e)) && e == failure(
                self.pending(),
            )),
            reply@ is Expired ==> (next matches BusStep::Done(Err(e)) && e == Self::overdue(
                self.task(),
            )),
            forall|start: BusState, now: BusState|
                #![trigger self.reached(start, now)]
                self.reached(start, now) && reply@ == now.serve(self.pending()).1 ==> {
                    let after = now.serve(self.pending()).0;
                    match next {
                        BusStep::Do(m, _) => m.reached(start, after),
                        BusStep::Done(out) => Self::outcome(self.task(), start, after, out),
                    }
                },
    ;
}

/// What fails on the bus is told apart: a bus that is not handed over, a chip-select that cannot
/// be driven, and a transfer.
pub proof fn law_what_fails_is_told_apart(act: Act)
    ensures
        act is Acquire ==> failure(act) == Error::BusUnavailable,
        act is SelectLow || act is SelectHigh ==> failure(act) == Error::ChipSelect,
        act is Write || act is Transfer ==> failure(act) == Error::SpiError,
{
}

/// Bytes go out and come in at the same time, as many as were asked for and in order, and no
/// operation does anything else to the bus than what it is for.
pub proof fn law_the_bus_does_what_it_is_told(s: BusState, act: Act)
    ensures
        ({
            let (then, answer) = s.serve(act);
            &&& then.line == s.line
            &&& match act {
                Act::Acquire => answer is Done && then == (BusState { held: true, ..s }),
                Act::SelectLow => answer is Done && then == (BusState { selected: true, ..s }),
                Act::SelectHigh => answer is Done && then == (BusState { selected: false, ..s }),
                Act::Release => answer is Done && then == (BusState {
                    held: false,
                    selected: false,
                    ..s
                }),
                Act::Write(bytes) => answer is Done && then == (BusState {
                    pos: s.pos + bytes.len(),
                    sent: s.sent + bytes,
                    ..s
                }),
                Act::Transfer(n) => {
                    &&& answer matches Answer::Bytes(bytes) && bytes.len() == n && (forall|i: int|
                        0 <= i < n ==> #[trigger] bytes[i] == (s.line)(s.pos + i))
                    &&& then.sent.len() == s.sent.len() + n && then.sent.take(s.sent.len() as int)
                        == s.sent
                    &&& forall|i: int|
                        0 <= i < n ==> #[trigger] then.sent[s.sent.len() + i] == 0xFF
                    &&& then == (BusState { pos: s.pos + n, sent: then.sent, ..s })
                },
                Act::Delay(us) => answer is Done && then == (BusState {
                    waited: s.waited + us,
                    ..s
                }),
                Act::Enter(ms) => answer is Done && then == (BusState {
                    bounds: s.bounds.push(ms),
                    ..s
                }),
                Act::Leave => answer is Done && then == (BusState {
                    bounds: s.bounds.drop_last(),
                    ..s
                }),
            }
        }),
{
    if let Act::Transfer(n) = act {
        assert(s.serve(act).0.sent.take(s.sent.len() as int) =~= s.sent);
    }
}

/// An operation on the bus is what it says: waits are the same whether they are counted in
/// milliseconds or in microseconds.
pub proof fn law_an_operation_is_what_it_says(op: BusOp)
    ensures
        match op {
            BusOp::Write(bytes) => op@ == Act::Write(bytes@),
            BusOp::Transfer(n) => op@ == Act::Transfer(n as nat),
            BusOp::DelayMs(ms) => op@ == Act::Delay((1000 * ms) as nat),
            BusOp::DelayUs(us) => op@ == Act::Delay(us as nat),
            BusOp::Enter(ms) => op@ == Act::Enter(ms),
            BusOp::Acquire => op@ is Acquire,
            BusOp::SelectLow => op@ is SelectLow,
            BusOp::SelectHigh => op@ is SelectHigh,
            BusOp::Release => op@ is Release,
            BusOp::Leave => op@ is Leave,
        },
{
}

/// The bus is driven by what sends bytes, and a card can be talked to only on a bus that is
/// taken and while it is selected.
pub proof fn law_talking_needs_the_bus_and_the_card(s: BusState, act: Act)
    ensures
        drives(act) <==> act is Write || act is Transfer,
        s.can_talk() <==> s.held && s.selected,
{
}

/// A reply is what it says.
pub proof fn law_a_reply_is_what_it_says(reply: BusReply)
    ensures
        match reply {
            BusReply::Done => reply@ is Done,
            BusReply::Bytes(bytes) => reply@ == Answer::Bytes(bytes@),
            BusReply::Failed => reply@ is Failed,
            BusReply::Expired => reply@ is Expired,
        },
{
}

/// Taking bytes in gives as many of them as were asked for, and everything else is done. What
/// goes over the bus, taking it and selecting the card can fail; waiting, letting go of the bus
/// and setting a time cannot. The time can pass whatever is done.
pub proof fn law_a_bus_can_answer_as_it_likes(act: Act, bytes: Seq<u8>)
    ensures
        answers(act, Answer::Expired),
        answers(act, Answer::Done) <==> !(act is Transfer),
        answers(act, Answer::Bytes(bytes)) <==> act == Act::Transfer(bytes.len()),
        answers(act, Answer::Failed) <==> !(act is Delay) && !(act is Release) && !(act is Enter)
            && !(act is Leave),
{
}

} // verus!
