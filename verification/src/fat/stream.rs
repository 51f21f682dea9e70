//! The stream that a table lies in, and operations that are stepped over it.
//!
//! An operation on a table seeks, reads and writes. It does none of that itself:
//! it is a [`StreamMachine`], which names one [`StreamOp`] at a time and is
//! stepped with the [`StreamReply`] to it. Whoever holds the stream performs the
//! operations, waiting for as long as it takes.
//!
//! [`MemStream`] is a stream in memory, and [`run`] carries an operation out on
//! it.

use vstd::prelude::*;

use crate::fat::entry;

verus! {

/// Why an operation on a table failed.
#[derive(Eq, PartialEq, Debug)]
pub enum FatError<E> {
    /// The stream failed.
    Io(E),
    /// The stream ended before the operation did.
    UnexpectedEof,
    /// No cluster is free.
    NotEnoughSpace,
    /// An entry points to a cluster that cannot hold data.
    CorruptedFileSystem,
}

/// One thing to do with a stream.
#[derive(Copy, Clone, Debug)]
pub enum StreamOp {
    /// Move to a position.
    SeekTo(u64),
    /// Move by a distance.
    SeekBy(i64),
    /// Read a byte.
    ReadU8,
    /// Read two bytes, little-endian.
    ReadU16,
    /// Read four bytes, little-endian.
    ReadU32,
    /// Write two bytes, little-endian.
    WriteU16(u16),
    /// Write four bytes, little-endian.
    WriteU32(u32),
    /// Write a block.
    WriteBlock([u8; 512]),
    /// Write this many zeros.
    WriteZeros(usize),
    /// Tell the user that `done` of `total` bytes are written.
    Report { done: u64, total: u64 },
}

/// What came of a [`StreamOp`].
#[derive(Debug)]
pub enum StreamReply<E> {
    /// It is done; there is nothing to hand back.
    Done,
    /// The byte that was read.
    U8(u8),
    /// The two bytes that were read.
    U16(u16),
    /// The four bytes that were read.
    U32(u32),
    /// It failed.
    Failed(FatError<E>),
}

/// A reply is one that the operation can have.
pub open spec fn answers<E>(op: StreamOp, reply: StreamReply<E>) -> bool {
    match reply {
        StreamReply::Failed(_) => true,
        StreamReply::U8(_) => op is ReadU8,
        StreamReply::U16(_) => op is ReadU16,
        StreamReply::U32(_) => op is ReadU32,
        StreamReply::Done => !(op is ReadU8 || op is ReadU16 || op is ReadU32),
    }
}

/// A stream of a fixed number of bytes: what it holds, the position in it, and
/// what was reported to the user.
#[verifier::ext_equal]
pub struct StreamState {
    pub bytes: Seq<u8>,
    pub pos: int,
    pub reports: Seq<(u64, u64)>,
}

/// Bytes with others written over them from `at` on.
pub open spec fn overwrite(bytes: Seq<u8>, at: int, with: Seq<u8>) -> Seq<u8> {
    Seq::new(
        bytes.len(),
        |i: int|
            if at <= i < at + with.len() {
                with[i - at]
            } else {
                bytes[i]
            },
    )
}

/// `n` zeros.
pub open spec fn zeros(n: nat) -> Seq<u8> {
    Seq::new(n, |i: int| 0u8)
}

impl StreamState {
    /// `n` bytes can be read or written at the position.
    pub open spec fn has(self, n: int) -> bool {
        0 <= self.pos && self.pos + n <= self.bytes.len()
    }

    /// The stream moved to a position.
    pub open spec fn at(self, pos: int) -> StreamState {
        StreamState { pos, ..self }
    }

    /// The stream with other bytes, moved on by a distance.
    pub open spec fn with(self, bytes: Seq<u8>, n: int) -> StreamState {
        StreamState { bytes, pos: self.pos + n, ..self }
    }

    /// A stream that can be worked on: clusters are numbered by a `u32`, so that
    /// a table is not longer than these can count.
    pub open spec fn wf(self) -> bool {
        &&& 0 <= self.pos <= u64::MAX
        &&& self.bytes.len() <= u32::MAX
    }

    /// What a stream that never fails makes of an operation. Where the bytes do
    /// not reach, it says that they end and nothing is changed.
    pub open spec fn serve<E>(self, op: StreamOp) -> (StreamState, StreamReply<E>) {
        let eof = (self, StreamReply::Failed(FatError::UnexpectedEof));
        match op {
            StreamOp::SeekTo(pos) => (self.at(pos as int), StreamReply::Done),
            StreamOp::SeekBy(by) => if 0 <= self.pos + by <= u64::MAX {
                (self.at(self.pos + by), StreamReply::Done)
            } else {
                eof
            },
            StreamOp::ReadU8 => if self.has(1) {
                (self.at(self.pos + 1), StreamReply::U8(self.bytes[self.pos]))
            } else {
                eof
            },
            StreamOp::ReadU16 => if self.has(2) {
                (
                    self.at(self.pos + 2),
                    StreamReply::U16(entry::le16(self.bytes, self.pos) as u16),
                )
            } else {
                eof
            },
            StreamOp::ReadU32 => if self.has(4) {
                (
                    self.at(self.pos + 4),
                    StreamReply::U32(entry::le32(self.bytes, self.pos) as u32),
                )
            } else {
                eof
            },
            StreamOp::WriteU16(word) => if self.has(2) {
                (
                    self.with(entry::store16(self.bytes, self.pos, word as int), 2),
                    StreamReply::Done,
                )
            } else {
                eof
            },
            StreamOp::WriteU32(word) => if self.has(4) {
                (
                    self.with(entry::store32(self.bytes, self.pos, word as int), 4),
                    StreamReply::Done,
                )
            } else {
                eof
            },
            StreamOp::WriteBlock(block) => if self.has(512) {
                (self.with(overwrite(self.bytes, self.pos, block@), 512), StreamReply::Done)
            } else {
                eof
            },
            StreamOp::WriteZeros(n) => if self.has(n as int) {
                (
                    self.with(overwrite(self.bytes, self.pos, zeros(n as nat)), n as int),
                    StreamReply::Done,
                )
            } else {
                eof
            },
            StreamOp::Report { done, total } => (
                StreamState { reports: self.reports.push((done, total)), ..self },
                StreamReply::Done,
            ),
        }
    }
}

/// How an operation goes on.
pub enum Step<M, O> {
    /// Perform this, and step the machine with the reply.
    Do(M, StreamOp),
    /// The operation is over.
    Done(O),
}

/// An operation ends with this error.
pub open spec fn gives_up<M, V, E>(next: Step<M, Result<V, FatError<E>>>, e: FatError<E>) -> bool {
    next matches Step::Done(Err(given)) && given == e
}

/// An operation that is stepped over a stream.
pub trait StreamMachine<E>: Sized {
    /// What it was asked to do.
    type Task;

    /// What comes of it.
    type Out;

    /// The task stays the same from step to step.
    spec fn task(self) -> Self::Task;

    /// What it is waiting for.
    spec fn pending(self) -> StreamOp;

    /// It began at `start` and has come to `now`.
    spec fn reached(self, start: StreamState, now: StreamState) -> bool;

    /// How many replies may still come, for a stream that began at `start`.
    spec fn remaining(self, start: StreamState) -> nat;

    /// What the task comes to, from the stream before it to the stream after it.
    spec fn outcome(
        task: Self::Task,
        start: StreamState,
        end: StreamState,
        out: Self::Out,
    ) -> bool;

    /// Take the reply to what was pending.
    ///
    /// Over a stream that never fails, it comes closer to the outcome with every
    /// reply, and gives it.
    fn step(self, reply: StreamReply<E>) -> (next: Step<Self, Self::Out>)
        requires
            answers(self.pending(), reply),
        ensures
            forall|start: StreamState, now: StreamState|
                #![trigger self.reached(start, now)]
                start.wf() && now.wf() && self.reached(start, now) && reply == now.serve::<E>(
                    self.pending(),
                ).1 ==> {
                    let after = now.serve::<E>(self.pending()).0;
                    match next {
                        Step::Do(m, op) => {
                            &&& m.task() == self.task()
                            &&& m.pending() == op
                            &&& m.reached(start, after)
                            &&& m.remaining(start) < self.remaining(start)
                        },
                        Step::Done(out) => Self::outcome(self.task(), start, after, out),
                    }
                },
    ;
}

/// A stream of a fixed number of bytes in memory. It fails only where the bytes
/// end.
pub struct MemStream {
    bytes: Vec<u8>,
    pos: u64,
    reports: Vec<(u64, u64)>,
}

impl View for MemStream {
    type V = StreamState;

    closed spec fn view(&self) -> StreamState {
        StreamState { bytes: self.bytes@, pos: self.pos as int, reports: self.reports@ }
    }
}

impl MemStream {
    /// A stream over these bytes, at its start.
    pub fn new(bytes: Vec<u8>) -> (stream: MemStream)
        requires
            bytes@.len() <= u32::MAX,
        ensures
            stream@ == (StreamState { bytes: bytes@, pos: 0, reports: Seq::empty() }),
            stream@.wf(),
    {
        MemStream { bytes, pos: 0, reports: Vec::new() }
    }

    /// What the stream holds.
    pub fn bytes(&self) -> (bytes: &Vec<u8>)
        ensures
            bytes@ == self@.bytes,
    {
        &self.bytes
    }

    /// Where the stream stands.
    pub fn position(&self) -> (pos: u64)
        ensures
            pos == self@.pos,
    {
        self.pos
    }

    /// What was reported, in order: bytes done, and bytes in all.
    pub fn reports(&self) -> (reports: &Vec<(u64, u64)>)
        ensures
            reports@ == self@.reports,
    {
        &self.reports
    }

    /// `n` bytes can be read or written at the position.
    fn has(&self, n: usize) -> (b: bool)
        ensures
            b == self@.has(n as int),
    {
        self.pos <= self.bytes.len() as u64 && n <= self.bytes.len() - self.pos as usize
    }

    /// Perform an operation.
    pub fn perform<E>(&mut self, op: StreamOp) -> (reply: StreamReply<E>)
        requires
            old(self)@.wf(),
        ensures
            final(self)@.wf(),
            (final(self)@, reply) == old(self)@.serve::<E>(op),
            answers(op, reply),
    {
        let eof: StreamReply<E> = StreamReply::Failed(FatError::UnexpectedEof);
        match op {
            StreamOp::SeekTo(pos) => {
                self.pos = pos;
                StreamReply::Done
            },
            StreamOp::SeekBy(by) => match self.pos.checked_add_signed(by) {
                Some(pos) => {
                    self.pos = pos;
                    StreamReply::Done
                },
                None => eof,
            },
            StreamOp::ReadU8 => {
                if !self.has(1) {
                    return eof;
                }
                let at: usize = self.pos as usize;
                let byte: u8 = self.bytes[at];
                self.pos = self.pos + 1;
                StreamReply::U8(byte)
            },
            StreamOp::ReadU16 => {
                if !self.has(2) {
                    return eof;
                }
                let at: usize = self.pos as usize;
                let word: u16 = self.bytes[at] as u16 + 0x100 * self.bytes[at + 1] as u16;
                self.pos = self.pos + 2;
                StreamReply::U16(word)
            },
            StreamOp::ReadU32 => {
                if !self.has(4) {
                    return eof;
                }
                let at: usize = self.pos as usize;
                let word: u32 = self.bytes[at] as u32 + 0x100 * self.bytes[at + 1] as u32 + 0x1_0000
                    * self.bytes[at + 2] as u32 + 0x100_0000 * self.bytes[at + 3] as u32;
                self.pos = self.pos + 4;
                StreamReply::U32(word)
            },
            StreamOp::WriteU16(word) => {
                if !self.has(2) {
                    return eof;
                }
                let at: usize = self.pos as usize;
                self.bytes[at] = (word % 0x100) as u8;
                self.bytes[at + 1] = (word / 0x100 % 0x100) as u8;
                self.pos = self.pos + 2;
                StreamReply::Done
            },
            StreamOp::WriteU32(word) => {
                if !self.has(4) {
                    return eof;
                }
                let at: usize = self.pos as usize;
                self.bytes[at] = (word % 0x100) as u8;
                self.bytes[at + 1] = (word / 0x100 % 0x100) as u8;
                self.bytes[at + 2] = (word / 0x1_0000 % 0x100) as u8;
                self.bytes[at + 3] = (word / 0x100_0000 % 0x100) as u8;
                self.pos = self.pos + 4;
                StreamReply::Done
            },
            StreamOp::WriteBlock(block) => {
                if !self.has(512) {
                    return eof;
                }
                let at: usize = self.pos as usize;
                let mut i: usize = 0;
                while i < 512
                    invariant
                        i <= 512,
                        at + 512 <= self.bytes.len(),
                        at == old(self)@.pos,
                        self.pos == old(self).pos,
                        self.reports == old(self).reports,
                        self.bytes@ == overwrite(old(self)@.bytes, at as int, block@.take(i as int)),
                    decreases 512 - i,
                {
                    self.bytes[at + i] = block[i];
                    i = i + 1;
                }
                assert(block@.take(512) =~= block@);
                self.pos = self.pos + 512;
                StreamReply::Done
            },
            StreamOp::WriteZeros(n) => {
                if !self.has(n) {
                    return eof;
                }
                let at: usize = self.pos as usize;
                let mut i: usize = 0;
                while i < n
                    invariant
                        i <= n,
                        at + n <= self.bytes.len(),
                        at == old(self)@.pos,
                        self.pos == old(self).pos,
                        self.reports == old(self).reports,
                        self.bytes@ == overwrite(old(self)@.bytes, at as int, zeros(i as nat)),
                    decreases n - i,
                {
                    self.bytes[at + i] = 0;
                    i = i + 1;
                }
                self.pos = self.pos + n as u64;
                StreamReply::Done
            },
            StreamOp::Report { done, total } => {
                self.reports.push((done, total));
                StreamReply::Done
            },
        }
    }
}

/// Carry an operation out on a stream in memory.
pub fn run<E, M: StreamMachine<E>>(first: Step<M, M::Out>, stream: &mut MemStream) -> (out: M::Out)
    requires
        old(stream)@.wf(),
        first matches Step::Do(m, op) ==> m.pending() == op && m.reached(
            old(stream)@,
            old(stream)@,
        ),
    ensures
        final(stream)@.wf(),
        match first {
            Step::Do(m, _) => M::outcome(m.task(), old(stream)@, final(stream)@, out),
            Step::Done(r) => out == r && final(stream)@ == old(stream)@,
        },
{
    match first {
        Step::Done(out) => out,
        Step::Do(machine, op) => {
            let ghost task = machine.task();
            let mut machine: M = machine;
            let mut op: StreamOp = op;
            loop
                invariant
                    old(stream)@.wf(),
                    stream@.wf(),
                    machine.task() == task,
                    machine.pending() == op,
                    machine.reached(old(stream)@, stream@),
                    first matches Step::Do(m, _) && m.task() == task,
                decreases machine.remaining(old(stream)@),
            {
                let reply: StreamReply<E> = stream.perform::<E>(op);
                match machine.step(reply) {
                    Step::Done(out) => {
                        return out;
                    },
                    Step::Do(next, next_op) => {
                        machine = next;
                        op = next_op;
                    },
                }
            }
        },
    }
}

/// A stream holds what was written to it and gives it back byte for byte, the least significant
/// byte of a number first. What does not fit is refused as a whole, and reading changes nothing.
#[verifier::rlimit(30)]
pub proof fn law_a_stream_keeps_its_bytes<E>(s: StreamState, op: StreamOp)
    ensures
        ({
            let (then, reply) = s.serve::<E>(op);
            let refused = reply == StreamReply::<E>::Failed(FatError::UnexpectedEof) && then == s;
            let at = s.pos;
            let inside = |n: int| 0 <= at && at + n <= s.bytes.len();
            match op {
                StreamOp::SeekTo(pos) => reply is Done && then == (StreamState {
                    pos: pos as int,
                    ..s
                }),
                StreamOp::SeekBy(by) => if at + by < 0 || at + by > u64::MAX {
                    refused
                } else {
                    reply is Done && then == (StreamState { pos: at + by, ..s })
                },
                StreamOp::ReadU8 => if inside(1) {
                    reply == StreamReply::<E>::U8(s.bytes[at]) && then == (StreamState {
                        pos: at + 1,
                        ..s
                    })
                } else {
                    refused
                },
                StreamOp::ReadU16 => if inside(2) {
                    &&& reply matches StreamReply::U16(n)
                    &&& n == s.bytes[at] + 0x100 * s.bytes[at + 1]
                    &&& then == (StreamState { pos: at + 2, ..s })
                } else {
                    refused
                },
                StreamOp::ReadU32 => if inside(4) {
                    &&& reply matches StreamReply::U32(n)
                    &&& n == s.bytes[at] + 0x100 * s.bytes[at + 1] + 0x1_0000 * s.bytes[at + 2]
                        + 0x100_0000 * s.bytes[at + 3]
                    &&& then == (StreamState { pos: at + 4, ..s })
                } else {
                    refused
                },
                StreamOp::WriteU16(n) => if inside(2) {
                    &&& reply is Done
                    &&& then.pos == at + 2 && then.reports == s.reports
                    &&& then.bytes.len() == s.bytes.len()
                    &&& then.bytes[at] + 0x100 * then.bytes[at + 1] == n
                    &&& forall|i: int|
                        0 <= i < s.bytes.len() && !(at <= i < at + 2) ==> #[trigger] then.bytes[i]
                            == s.bytes[i]
                } else {
                    refused
                },
                StreamOp::WriteU32(n) => if inside(4) {
                    &&& reply is Done
                    &&& then.pos == at + 4 && then.reports == s.reports
                    &&& then.bytes.len() == s.bytes.len()
                    &&& then.bytes[at] + 0x100 * then.bytes[at + 1] + 0x1_0000 * then.bytes[at + 2]
                        + 0x100_0000 * then.bytes[at + 3] == n
                    &&& forall|i: int|
                        0 <= i < s.bytes.len() && !(at <= i < at + 4) ==> #[trigger] then.bytes[i]
                            == s.bytes[i]
                } else {
                    refused
                },
                StreamOp::WriteBlock(block) => if inside(512) {
                    &&& reply is Done
                    &&& then.pos == at + 512 && then.reports == s.reports
                    &&& then.bytes.len() == s.bytes.len()
                    &&& forall|i: int|
                        0 <= i < s.bytes.len() ==> #[trigger] then.bytes[i] == if at <= i < at
                            + 512 {
                            block@[i - at]
                        } else {
                            s.bytes[i]
                        }
                } else {
                    refused
                },
                StreamOp::WriteZeros(n) => if inside(n as int) {
                    &&& reply is Done
                    &&& then.pos == at + n && then.reports == s.reports
                    &&& then.bytes.len() == s.bytes.len()
                    &&& forall|i: int|
                        0 <= i < s.bytes.len() ==> #[trigger] then.bytes[i] == if at <= i < at + n {
                            0u8
                        } else {
                            s.bytes[i]
                        }
                } else {
                    refused
                },
                StreamOp::Report { done, total } => {
                    &&& reply is Done
                    &&& then == (StreamState { reports: s.reports.push((done, total)), ..s })
                },
            }
        }),
{
}

/// An operation that gives up is over, with the error that it gives up for.
pub proof fn law_giving_up_is_an_error<M, V, E>(
    next: Step<M, Result<V, FatError<E>>>,
    e: FatError<E>,
)
    ensures
        gives_up(next, e) <==> next == Step::<M, Result<V, FatError<E>>>::Done(Err(e)),
{
}

/// What is read comes back as it is asked for, everything else is done, and everything can
/// fail, with any error.
pub proof fn law_a_stream_can_answer_as_it_likes<E>(op: StreamOp, e: FatError<E>, n: u32)
    ensures
        answers(op, StreamReply::<E>::Failed(e)),
        answers(op, StreamReply::<E>::U8(n as u8)) <==> op is ReadU8,
        answers(op, StreamReply::<E>::U16(n as u16)) <==> op is ReadU16,
        answers(op, StreamReply::<E>::U32(n)) <==> op is ReadU32,
        answers(op, StreamReply::<E>::Done) <==> !(op is ReadU8) && !(op is ReadU16) && !(
        op is ReadU32),
{
}

} // verus!
