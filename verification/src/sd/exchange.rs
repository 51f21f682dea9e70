//! What an operation on a card is made of, one level above the bus.
//!
//! Where the operations of [`crate::sd::bus`] move bytes, those here are whole
//! exchanges with a card: a command and its status, a data block, a wait.

use vstd::prelude::*;

use crate::sd::card::Command;
use crate::sd::response::Error;

verus! {

/// One thing to do with a card.
#[derive(Copy, Clone, Debug, PartialEq, Eq)]
pub enum CardOp {
    /// Wait for the card to go idle, without holding the bus.
    WaitIdle { timeout_ms: u32, sustained: u32 },
    /// Take the bus.
    Acquire,
    /// Select the card.
    SelectLow,
    /// Deselect the card and give the bus back.
    Release,
    /// Send a command, and hand back the status.
    Command(Command),
    /// Hand back this many bytes of a response.
    Transfer(usize),
    /// Receive a data block of this many bytes, and hand it back.
    Receive(usize),
    /// Receive a data block into the block of this number.
    ReceiveInto(usize),
    /// Send the block of this number as a data block.
    SendFrom(usize),
    /// Wait, in milliseconds.
    DelayMs(u32),
    /// From here on, the operation has this many milliseconds. If they pass, the reply
    /// to whatever is pending then is that they have.
    Enter(u32),
    /// The time that was set no longer runs.
    Leave,
}

/// What came of a [`CardOp`].
#[derive(Debug, PartialEq, Eq)]
pub enum CardReply {
    /// It is done; there is nothing to hand back.
    Done,
    /// The status of a command.
    Status(u8),
    /// The bytes that came in.
    Bytes(Vec<u8>),
    /// The exchange failed.
    Failed(Error),
    /// The bus failed.
    BusFailed,
    /// It was given up, because the time of the operation has passed.
    Expired,
}

/// A reply is one that the operation can have.
pub open spec fn fits(op: CardOp, reply: CardReply) -> bool {
    match reply {
        CardReply::Status(_) => op is Command,
        CardReply::Bytes(bytes) => match op {
            CardOp::Transfer(n) => bytes@.len() == n,
            CardOp::Receive(n) => bytes@.len() == n,
            _ => false,
        },
        CardReply::Done => !(op is Command || op is Transfer || op is Receive),
        CardReply::Failed(_) => true,
        CardReply::BusFailed => op is Acquire || op is SelectLow || op is Transfer,
        CardReply::Expired => true,
    }
}

/// The error of an operation that did not come to what it was for: the error of the
/// exchange, that of what failed on the bus, or that its time has passed.
pub open spec fn mishap(op: CardOp, reply: CardReply) -> Option<Error> {
    match reply {
        CardReply::Failed(e) => Some(e),
        CardReply::BusFailed => Some(
            match op {
                CardOp::Acquire => Error::BusUnavailable,
                CardOp::SelectLow => Error::ChipSelect,
                _ => Error::SpiError,
            },
        ),
        CardReply::Expired => Some(Error::Timeout),
        _ => None,
    }
}

/// The error of an operation that did not come to what it was for.
pub fn mishap_of(op: CardOp, reply: &CardReply) -> (e: Option<Error>)
    ensures
        e == mishap(op, *reply),
{
    match reply {
        CardReply::Failed(e) => Some(*e),
        CardReply::BusFailed => Some(
            match op {
                CardOp::Acquire => Error::BusUnavailable,
                CardOp::SelectLow => Error::ChipSelect,
                _ => Error::SpiError,
            },
        ),
        CardReply::Expired => Some(Error::Timeout),
        _ => None,
    }
}

/// Talking to the card.
pub open spec fn talks(op: CardOp) -> bool {
    op is Command || op is Transfer || op is Receive || op is ReceiveInto || op is SendFrom
}

/// Whether the bus is taken, and whether the card is selected, after an operation.
pub open spec fn held_after(held: (bool, bool), op: CardOp) -> (bool, bool) {
    match op {
        CardOp::Acquire => (true, held.1),
        CardOp::SelectLow => (held.0, true),
        CardOp::Release => (false, false),
        _ => held,
    }
}

/// An operation may be performed: the card is talked to only while the bus is taken and
/// the card selected, and waited for only while the bus is free.
pub open spec fn allowed(held: (bool, bool), op: CardOp) -> bool {
    &&& talks(op) ==> held == (true, true)
    &&& op is WaitIdle ==> held == (false, false)
}

/// How an operation goes on.
pub enum CardStep<M, V> {
    /// Perform what it is waiting for, and step it with the reply.
    Do(M),
    /// The operation is over. The bus is given back, if it is still taken.
    Done(Result<V, Error>),
}

/// An operation on a card that is stepped from one exchange to the next.
pub trait CardMachine: Sized {
    /// What it gives.
    type Value;

    /// It is one that such an operation comes to.
    spec fn wf(self) -> bool;

    /// What it is waiting for.
    spec fn pending(self) -> CardOp;

    /// Whether it holds the bus, and whether it has selected the card.
    spec fn holds(self) -> (bool, bool);

    /// The number of blocks that it works on.
    spec fn blocks(self) -> int;

    /// How it goes on after a reply.
    spec fn follows(self, reply: CardReply, next: CardStep<Self, Self::Value>) -> bool;

    /// It waits only for what may be performed.
    proof fn lemma_allowed(self)
        requires
            self.wf(),
        ensures
            allowed(self.holds(), self.pending()),
            self.pending() matches CardOp::ReceiveInto(i) ==> i < self.blocks(),
            self.pending() matches CardOp::SendFrom(i) ==> i < self.blocks(),
    ;

    /// What it is waiting for.
    fn operation(&self) -> (op: CardOp)
        requires
            self.wf(),
        ensures
            op == self.pending(),
    ;

    /// Take the reply to what was pending. Where that did not come to what it was for,
    /// the operation ends with the error.
    fn step(self, reply: CardReply) -> (next: CardStep<Self, Self::Value>)
        requires
            self.wf(),
            fits(self.pending(), reply),
        ensures
            self.follows(reply, next),
            mishap(self.pending(), reply) matches Some(e) ==> (next matches CardStep::Done(
                Err(given),
            ) && given == e),
            next matches CardStep::Do(m) ==> {
                &&& m.wf()
                &&& m.blocks() == self.blocks()
                &&& m.holds() == held_after(self.holds(), self.pending())
            },
    ;
}

/// What goes wrong in an exchange is an error: the one that it failed with, the one of what
/// failed on the bus, or that its time has passed. Nothing else is one.
pub proof fn law_every_mishap_is_an_error(op: CardOp, reply: CardReply)
    ensures
        reply matches CardReply::Failed(e) ==> mishap(op, reply) == Some(e),
        reply is BusFailed && op is Acquire ==> mishap(op, reply) == Some(Error::BusUnavailable),
        reply is BusFailed && op is SelectLow ==> mishap(op, reply) == Some(Error::ChipSelect),
        reply is BusFailed && !(op is Acquire) && !(op is SelectLow) ==> mishap(op, reply) == Some(
            Error::SpiError,
        ),
        reply is Expired ==> mishap(op, reply) == Some(Error::Timeout),
        reply is Done || reply is Status || reply is Bytes ==> mishap(op, reply) is None,
{
}

/// A command is answered with a status, and bytes that are taken in come as many as were asked
/// for. Everything else is done. Every exchange can fail, with any error, and the time can pass
/// whatever is done.
pub proof fn law_an_exchange_can_be_answered(op: CardOp, status: u8, bytes: Vec<u8>, e: Error)
    ensures
        fits(op, CardReply::Failed(e)),
        fits(op, CardReply::Expired),
        fits(op, CardReply::BusFailed) <==> op is Acquire || op is SelectLow || op is Transfer,
        fits(op, CardReply::Status(status)) <==> op is Command,
        fits(op, CardReply::Bytes(bytes)) <==> {
            ||| op matches CardOp::Transfer(n) && bytes@.len() == n
            ||| op matches CardOp::Receive(n) && bytes@.len() == n
        },
        fits(op, CardReply::Done) <==> !(op is Command) && !(op is Transfer) && !(op is Receive),
{
}

/// The bus is held from taking it until it is let go, and the card is selected from selecting
/// it until the bus is let go. Only with both may the card be talked to, and only with neither
/// may it be waited for.
pub proof fn law_what_is_held_is_held_until_it_is_let_go(held: (bool, bool), op: CardOp)
    ensures
        held_after(held, op).0 <==> op is Acquire || (held.0 && !(op is Release)),
        held_after(held, op).1 <==> op is SelectLow || (held.1 && !(op is Release)),
        allowed(held, op) <==> {
            &&& op is Command || op is Transfer || op is Receive || op is ReceiveInto || op
                is SendFrom ==> held.0 && held.1
            &&& op is WaitIdle ==> !held.0 && !held.1
        },
{
}

} // verus!
