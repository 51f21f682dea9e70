//! Sending a command to a card, and finding the status that it answers with.

use vstd::prelude::*;

use crate::sd::bus;
use crate::sd::bus::{Act, BusMachine, BusOp, BusReply, BusState, BusStep};
use crate::sd::card::{stop_transmission, Command};
use crate::sd::crc;
use crate::sd::crc::crc7;
use crate::sd::response;
use crate::sd::response::{Error, R1Status};

verus! {

/// The time that a card has to answer behind the response window, in milliseconds.
/// The window itself covers every card that answers in time.
pub const NCR_GRACE_MS: u32 = 200;

/// The five bytes of a command before its checksum.
pub open spec fn header(c: Command) -> Seq<u8> {
    seq![
        0x40 | c.index,
        (c.arg / 0x100_0000) as u8,
        (c.arg / 0x1_0000 % 0x100) as u8,
        (c.arg / 0x100 % 0x100) as u8,
        (c.arg % 0x100) as u8,
    ]
}

/// The six bytes of a command.
pub open spec fn frame(c: Command) -> Seq<u8> {
    header(c).push(crc::checksum7(header(c)))
}

/// The bytes of a command.
pub fn command_frame(c: Command) -> (bytes: Vec<u8>)
    ensures
        bytes@ == frame(c),
{
    let mut bytes: Vec<u8> = Vec::new();
    bytes.push(0x40 | c.index);
    bytes.push((c.arg / 0x100_0000) as u8);
    bytes.push((c.arg / 0x1_0000 % 0x100) as u8);
    bytes.push((c.arg / 0x100 % 0x100) as u8);
    bytes.push((c.arg % 0x100) as u8);
    assert(bytes@ =~= header(c));
    let sum: u8 = crc7(bytes.as_slice());
    bytes.push(sum);
    bytes
}

/// The command that ends a transmission is answered behind one stuff byte.
pub open spec fn has_stuff_byte(index: u8) -> bool {
    index == 12
}

/// The commands whose status is followed by more of the response, or by a data block,
/// which must not be taken in together with it.
pub open spec fn has_trailing_bytes(index: u8) -> bool {
    index == 8 || index == 9 || index == 10 || index == 13 || index == 17 || index == 18 || index
        == 58
}

/// The number of bytes that are taken in at once to find the status.
pub open spec fn window(index: u8) -> nat {
    if has_stuff_byte(index) || has_trailing_bytes(index) {
        1
    } else {
        8
    }
}

/// What is sent before the status is looked for: the gap behind the last response, the
/// command, and the stuff byte where there is one.
pub open spec fn preamble(c: Command) -> Seq<u8> {
    bus::idle_bytes(4) + frame(c) + bus::idle_bytes(
        if has_stuff_byte(c.index) {
            1
        } else {
            0
        },
    )
}

/// Where the status is looked for.
pub open spec fn response_at(c: Command, start: BusState) -> int {
    start.pos + preamble(c).len()
}

/// The card says nothing from byte `from` to byte `to`.
pub open spec fn silent(line: spec_fn(int) -> u8, from: int, to: int) -> bool {
    forall|i: int| from <= i < to ==> #[trigger] line(i) >= 0x80
}

/// The first byte from byte `from` on that is a status is byte `at`.
pub open spec fn answered(line: spec_fn(int) -> u8, from: int, at: int) -> bool {
    from <= at && line(at) < 0x80 && silent(line, from, at)
}

/// What a command gives for the status that came in: a fault that is wrong in every
/// card state is an error.
pub open spec fn judged(status: u8) -> Result<u8, Error> {
    match response::hard_fault(status) {
        Some(e) => Err(e),
        None => Ok(status),
    }
}

/// The bus after the command and its window, this many polls of one byte, and this many
/// waits of a millisecond between them.
pub open spec fn polled(c: Command, start: BusState, polls: int, waits: int) -> BusState {
    BusState {
        waited: (start.waited + 1000 * waits) as nat,
        ..start.after_sending(preamble(c) + bus::idle_bytes((window(c.index) + polls) as nat))
    }
}

/// The status came at byte `at`: what the bus has come to, and what the command gives.
pub open spec fn command_ends(
    c: Command,
    start: BusState,
    end: BusState,
    out: Result<u8, Error>,
    at: int,
) -> bool {
    let behind = at + 1 - response_at(c, start) - window(c.index);
    &&& answered(start.line, response_at(c, start), at)
    &&& out == judged((start.line)(at))
    &&& end == if behind <= 0 {
        polled(c, start, 0, 0)
    } else {
        polled(c, start, behind, behind - 1)
    }
}

/// Where sending a command stands.
pub enum CommandPhase {
    /// Clocking the gap behind the last response.
    Gap,
    /// Sending the command.
    Frame,
    /// Taking in the stuff byte.
    Stuff,
    /// Taking in the window.
    Window,
    /// Allowing for a card that is late.
    Enter,
    /// Polling one byte.
    Poll,
    /// Waiting before the next poll.
    Wait,
    /// A late card has answered with this.
    Leave(u8),
}

/// Sends a command.
pub struct SendCommand {
    pub command: Command,
    pub phase: CommandPhase,
}

impl SendCommand {
    /// Begin: clock the gap behind the last response.
    pub fn begin(command: Command) -> (first: (SendCommand, BusOp))
        ensures
            first.0.wf(),
            first.0.task() == command,
            first.1@ == Act::Transfer(4),
            first.0.pending() == first.1@,
            forall|s: BusState| #[trigger] first.0.reached(s, s),
    {
        (SendCommand { command, phase: CommandPhase::Gap }, BusOp::Transfer(4))
    }
}

/// What a command gives for the status that came in.
fn judge(status: u8) -> (out: Result<u8, Error>)
    ensures
        out == judged(status),
{
    match R1Status(status).to_hard_error() {
        Some(e) => Err(e),
        None => Ok(status),
    }
}

/// The first status among some bytes.
fn find_status(bytes: &Vec<u8>) -> (found: Option<u8>)
    ensures
        match found {
            Some(status) => exists|i: int|
                0 <= i < bytes@.len() && bytes@[i] == status && status < 0x80 && (forall|k: int|
                    0 <= k < i ==> bytes@[k] >= 0x80),
            None => forall|k: int| 0 <= k < bytes@.len() ==> bytes@[k] >= 0x80,
        },
{
    let mut i: usize = 0;
    while i < bytes.len()
        invariant
            i <= bytes@.len(),
            forall|k: int| 0 <= k < i ==> bytes@[k] >= 0x80,
        decreases bytes@.len() - i,
    {
        if R1Status(bytes[i]).is_valid() {
            return Some(bytes[i]);
        }
        i = i + 1;
    }
    None
}

/// The command is sent, and the stuff byte where there is one.
proof fn lemma_preamble(c: Command, start: BusState)
    ensures
        ({
            let gap = start.after_sending(bus::idle_bytes(4));
            let sent = gap.after_sending(frame(c));
            &&& sent == start.after_sending(bus::idle_bytes(4) + frame(c))
            &&& if has_stuff_byte(c.index) {
                sent.after_sending(bus::idle_bytes(1)) == start.after_sending(preamble(c))
            } else {
                sent == start.after_sending(preamble(c))
            }
        }),
{
    bus::lemma_sent(start, bus::idle_bytes(4), frame(c));
    bus::lemma_sent(start, bus::idle_bytes(4) + frame(c), bus::idle_bytes(1));
    if !has_stuff_byte(c.index) {
        assert(preamble(c) =~= bus::idle_bytes(4) + frame(c));
    }
}

/// One more poll, and the window before the first one.
proof fn lemma_polled(c: Command, start: BusState, polls: int, waits: int)
    requires
        polls >= 0,
    ensures
        start.after_sending(preamble(c)).after_sending(bus::idle_bytes(window(c.index))) == polled(
            c,
            start,
            0,
            0,
        ),
        polled(c, start, polls, waits).after_sending(bus::idle_bytes(1)) == polled(
            c,
            start,
            polls + 1,
            waits,
        ),
{
    let w = window(c.index);
    bus::lemma_sent(start, preamble(c), bus::idle_bytes(w));
    let before = preamble(c) + bus::idle_bytes((w + polls) as nat);
    bus::lemma_sent(start, before, bus::idle_bytes(1));
    bus::lemma_idle_bytes((w + polls) as nat, 1);
    assert(before + bus::idle_bytes(1) =~= preamble(c) + (bus::idle_bytes((w + polls) as nat)
        + bus::idle_bytes(1)));
}

/// What the bytes of the window, or of a poll behind it, say: the card has answered at
/// one of them, or is still silent.
proof fn lemma_taken_in(
    line: spec_fn(int) -> u8,
    from: int,
    at: int,
    bytes: Seq<u8>,
    found: Option<u8>,
) -> (i: int)
    requires
        from <= at,
        silent(line, from, at),
        forall|k: int| 0 <= k < bytes.len() ==> bytes[k] == #[trigger] line(at + k),
        match found {
            Some(status) => exists|i: int|
                0 <= i < bytes.len() && bytes[i] == status && status < 0x80 && (forall|k: int|
                    0 <= k < i ==> bytes[k] >= 0x80),
            None => forall|k: int| 0 <= k < bytes.len() ==> bytes[k] >= 0x80,
        },
    ensures
        match found {
            Some(status) => 0 <= i < bytes.len() && answered(line, from, at + i) && line(at + i)
                == status,
            None => silent(line, from, at + bytes.len()),
        },
{
    match found {
        Some(status) => {
            let i = choose|i: int|
                0 <= i < bytes.len() && bytes[i] == status && status < 0x80 && (forall|k: int|
                    0 <= k < i ==> bytes[k] >= 0x80);
            assert(bytes[i] == line(at + i));
            assert forall|j: int| from <= j < at + i implies #[trigger] line(j) >= 0x80 by {
                if j >= at {
                    assert(bytes[j - at] == line(at + (j - at)));
                }
            }
            i
        },
        None => {
            assert forall|j: int| from <= j < at + bytes.len() implies #[trigger] line(j)
                >= 0x80 by {
                if j >= at {
                    assert(bytes[j - at] == line(at + (j - at)));
                }
            }
            0
        },
    }
}

impl BusMachine for SendCommand {
    type Task = Command;

    type Value = u8;

    open spec fn task(self) -> Command {
        self.command
    }

    open spec fn wf(self) -> bool {
        true
    }

    open spec fn pending(self) -> Act {
        match self.phase {
            CommandPhase::Gap => Act::Transfer(4),
            CommandPhase::Frame => Act::Write(frame(self.command)),
            CommandPhase::Stuff => Act::Transfer(1),
            CommandPhase::Window => Act::Transfer(window(self.command.index)),
            CommandPhase::Enter => Act::Enter(NCR_GRACE_MS),
            CommandPhase::Poll => Act::Transfer(1),
            CommandPhase::Wait => Act::Delay(1000),
            CommandPhase::Leave(_) => Act::Leave,
        }
    }

    open spec fn reached(self, start: BusState, now: BusState) -> bool {
        let c = self.command;
        let from = response_at(c, start);
        let polls = now.pos - from - window(c.index);
        let bounded = start.bounds.push(NCR_GRACE_MS);
        match self.phase {
            CommandPhase::Gap => now == start,
            CommandPhase::Frame => now == start.after_sending(bus::idle_bytes(4)),
            CommandPhase::Stuff => has_stuff_byte(c.index) && now == start.after_sending(
                bus::idle_bytes(4) + frame(c),
            ),
            CommandPhase::Window => now == start.after_sending(preamble(c)),
            CommandPhase::Enter => {
                &&& now == polled(c, start, 0, 0)
                &&& silent(start.line, from, now.pos)
            },
            CommandPhase::Poll => {
                &&& polls >= 0
                &&& now == (BusState { bounds: bounded, ..polled(c, start, polls, polls) })
                &&& silent(start.line, from, now.pos)
            },
            CommandPhase::Wait => {
                &&& polls >= 1
                &&& now == (BusState { bounds: bounded, ..polled(c, start, polls, polls - 1) })
                &&& silent(start.line, from, now.pos)
            },
            CommandPhase::Leave(status) => {
                &&& polls >= 1
                &&& now == (BusState { bounds: bounded, ..polled(c, start, polls, polls - 1) })
                &&& answered(start.line, from, now.pos - 1)
                &&& status == (start.line)(now.pos - 1)
            },
        }
    }

    open spec fn bounded(self) -> bool {
        match self.phase {
            CommandPhase::Poll | CommandPhase::Wait | CommandPhase::Leave(_) => true,
            _ => false,
        }
    }

    fn is_bounded(&self) -> (b: bool) {
        match self.phase {
            CommandPhase::Poll | CommandPhase::Wait | CommandPhase::Leave(_) => true,
            _ => false,
        }
    }

    proof fn lemma_bounds(self, start: BusState, now: BusState) {
    }

    open spec fn overdue(task: Command) -> Error {
        Error::NoResponseTo(task.index)
    }

    open spec fn possible(task: Command, value: u8) -> bool {
        value < 0x80
    }

    open spec fn outcome(
        task: Command,
        start: BusState,
        end: BusState,
        out: Result<u8, Error>,
    ) -> bool {
        exists|at: int| command_ends(task, start, end, out, at)
    }

    fn step(self, reply: BusReply) -> (next: BusStep<Self, u8>) {
        let command: Command = self.command;
        let bytes: Vec<u8> = match reply {
            BusReply::Failed => {
                return BusStep::Done(Err(Error::SpiError));
            },
            BusReply::Expired => {
                return BusStep::Done(Err(Error::NoResponseTo(command.index)));
            },
            BusReply::Bytes(bytes) => bytes,
            BusReply::Done => Vec::new(),
        };
        let stops: bool = command.index == stop_transmission().index;
        let trailing: bool = matches!(command.index, 8 | 9 | 10 | 13 | 17 | 18 | 58);
        let ghost window_len = window(command.index);
        let window: usize = if stops || trailing {
            1
        } else {
            8
        };
        proof {
            assert forall|start: BusState, now: BusState|
                #![trigger self.reached(start, now)]
                self.reached(start, now) implies ({
                let gap = start.after_sending(bus::idle_bytes(4));
                let sent = gap.after_sending(frame(command));
                let polls = now.pos - response_at(command, start) - window_len;
                &&& sent == start.after_sending(bus::idle_bytes(4) + frame(command))
                &&& start.after_sending(preamble(command)).after_sending(
                    bus::idle_bytes(window_len),
                ) == polled(command, start, 0, 0)
                &&& if has_stuff_byte(command.index) {
                    sent.after_sending(bus::idle_bytes(1)) == start.after_sending(preamble(command))
                } else {
                    sent == start.after_sending(preamble(command))
                }
                &&& self.phase is Poll ==> polled(command, start, polls, polls).after_sending(
                    bus::idle_bytes(1),
                ) == polled(command, start, polls + 1, polls)
            }) by {
                let polls = now.pos - response_at(command, start) - window_len;
                lemma_preamble(command, start);
                lemma_polled(command, start, 0, 0);
                if self.phase is Poll {
                    lemma_polled(command, start, polls, polls);
                }
            }
        }
        match self.phase {
            CommandPhase::Gap => BusStep::Do(
                SendCommand { command, phase: CommandPhase::Frame },
                BusOp::Write(command_frame(command)),
            ),
            CommandPhase::Frame => {
                if stops {
                    return BusStep::Do(
                        SendCommand { command, phase: CommandPhase::Stuff },
                        BusOp::Transfer(1),
                    );
                }
                BusStep::Do(
                    SendCommand { command, phase: CommandPhase::Window },
                    BusOp::Transfer(window),
                )
            },
            CommandPhase::Stuff => BusStep::Do(
                SendCommand { command, phase: CommandPhase::Window },
                BusOp::Transfer(window),
            ),
            CommandPhase::Window => {
                let found: Option<u8> = find_status(&bytes);
                assert forall|start: BusState, now: BusState|
                    #![trigger self.reached(start, now)]
                    self.reached(start, now) && bytes@ == now.incoming(
                        now.pos,
                        now.pos + window_len,
                    ) implies match found {
                    Some(status) => Self::outcome(
                        command,
                        start,
                        polled(command, start, 0, 0),
                        judged(status),
                    ),
                    None => silent(
                        start.line,
                        response_at(command, start),
                        response_at(command, start) + window_len,
                    ),
                } by {
                    let from = response_at(command, start);
                    let i = lemma_taken_in(start.line, from, from, bytes@, found);
                    if let Some(status) = found {
                        assert(command_ends(
                            command,
                            start,
                            polled(command, start, 0, 0),
                            judged(status),
                            from + i,
                        ));
                    }
                }
                match found {
                    Some(status) => BusStep::Done(judge(status)),
                    None => BusStep::Do(
                        SendCommand { command, phase: CommandPhase::Enter },
                        BusOp::Enter(NCR_GRACE_MS),
                    ),
                }
            },
            CommandPhase::Enter => BusStep::Do(
                SendCommand { command, phase: CommandPhase::Poll },
                BusOp::Transfer(1),
            ),
            CommandPhase::Poll => {
                let found: Option<u8> = find_status(&bytes);
                assert forall|start: BusState, now: BusState|
                    #![trigger self.reached(start, now)]
                    self.reached(start, now) && bytes@ == now.incoming(
                        now.pos,
                        now.pos + 1,
                    ) implies ({
                    let from = response_at(command, start);
                    match found {
                        Some(status) => answered(start.line, from, now.pos) && status == (
                        start.line)(now.pos),
                        None => silent(start.line, from, now.pos + 1),
                    }
                }) by {
                    let from = response_at(command, start);
                    let i = lemma_taken_in(start.line, from, now.pos, bytes@, found);
                }
                match found {
                    Some(status) => BusStep::Do(
                        SendCommand { command, phase: CommandPhase::Leave(status) },
                        BusOp::Leave,
                    ),
                    None => BusStep::Do(
                        SendCommand { command, phase: CommandPhase::Wait },
                        BusOp::DelayMs(1),
                    ),
                }
            },
            CommandPhase::Wait => BusStep::Do(
                SendCommand { command, phase: CommandPhase::Poll },
                BusOp::Transfer(1),
            ),
            CommandPhase::Leave(status) => {
                assert forall|start: BusState, now: BusState|
                    #![trigger self.reached(start, now)]
                    self.reached(start, now) implies Self::outcome(
                    command,
                    start,
                    now.serve(Act::Leave).0,
                    judged(status),
                ) by {
                    assert(start.bounds.push(NCR_GRACE_MS).drop_last() =~= start.bounds);
                    assert(command_ends(
                        command,
                        start,
                        now.serve(Act::Leave).0,
                        judged(status),
                        now.pos - 1,
                    ));
                }
                BusStep::Done(judge(status))
            },
        }
    }
}

/// A command goes out as six bytes that carry it: the first one is its index with the bit above
/// it set, the next four are its argument as a big-endian number, and the last one is the
/// checksum of these. So two commands that differ go out as bytes that differ.
pub proof fn law_a_frame_carries_the_command(c: Command)
    ensures
        ({
            let bytes = frame(c);
            &&& bytes.len() == 6
            &&& c.index < 64 ==> bytes[0] == 64 + c.index
            &&& bytes[0] == 64u8 | c.index
            &&& bytes[1] * 0x100_0000 + bytes[2] * 0x1_0000 + bytes[3] * 0x100 + bytes[4] == c.arg
            &&& bytes[5] == crc::checksum7(bytes.take(5))
        }),
{
    let index = c.index;
    assert(index < 64 ==> (0x40u8 | index) == 64 + index) by (bit_vector);
    assert(frame(c).take(5) =~= header(c));
}

/// Commands that go out as the same bytes are the same.
pub proof fn law_commands_are_told_apart(a: Command, b: Command)
    requires
        a.index < 64,
        b.index < 64,
        frame(a) == frame(b),
    ensures
        a == b,
{
    law_a_frame_carries_the_command(a);
    law_a_frame_carries_the_command(b);
}

/// What a command comes to. Behind four idle bytes and the six of the command, and behind one
/// more for the command that stops a transmission, the first byte with a clear topmost bit is
/// the status. One byte is taken in at once where something follows the status that must stay
/// in the card, and eight otherwise; from there on it is one byte each millisecond. The command
/// gives the status, unless that is a fault in every card state, and leaves the bus as it was.
pub proof fn law_a_command_gives_the_first_status(
    c: Command,
    start: BusState,
    end: BusState,
    out: Result<u8, Error>,
)
    requires
        SendCommand::outcome(c, start, end, out),
    ensures
        exists|at: int|
            #![trigger (start.line)(at)]
            {
                let from = start.pos + if c.index == 12 {
                    11int
                } else {
                    10int
                };
                let once = if c.index == 8 || c.index == 9 || c.index == 10 || c.index == 12
                    || c.index == 13 || c.index == 17 || c.index == 18 || c.index == 58 {
                    1int
                } else {
                    8int
                };
                let status = (start.line)(at);
                &&& from <= at && status < 128
                &&& forall|i: int| from <= i < at ==> #[trigger] (start.line)(i) >= 128
                &&& out == match response::hard_fault(status) {
                    Some(e) => Err::<u8, Error>(e),
                    None => Ok(status),
                }
                &&& end.pos == if at < from + once {
                    from + once
                } else {
                    at + 1
                }
                &&& end.waited == start.waited + if at < from + once {
                    0
                } else {
                    1000 * (at - from - once)
                }
                &&& end.sent.len() == start.sent.len() + (end.pos - start.pos)
                &&& end.sent.take(start.sent.len() as int) == start.sent
                &&& forall|i: int|
                    0 <= i < end.pos - start.pos ==> #[trigger] end.sent[start.sent.len() + i]
                        == if 4 <= i < 10 {
                        frame(c)[i - 4]
                    } else {
                        0xFF
                    }
                &&& end.line == start.line && end.held == start.held
                &&& end.selected == start.selected && end.bounds == start.bounds
            },
{
    let at = choose|at: int| command_ends(c, start, end, out, at);
    assert(command_ends(c, start, end, out, at));
    assert(frame(c).len() == 6);
    assert(end.sent.take(start.sent.len() as int) =~= start.sent);
    assert((start.line)(at) < 0x80);
}

/// A card that is late has 200 ms, and is polled each millisecond. One that has not answered
/// then is named by the command.
pub proof fn law_a_late_card_has_its_time(c: Command)
    ensures
        (SendCommand { command: c, phase: CommandPhase::Enter }).pending() == Act::Enter(200),
        (SendCommand { command: c, phase: CommandPhase::Wait }).pending() == Act::Delay(1000),
        (SendCommand { command: c, phase: CommandPhase::Poll }).pending() == Act::Transfer(1),
        SendCommand::overdue(c) == Error::NoResponseTo(c.index),
        (SendCommand { command: c, phase: CommandPhase::Poll }).bounded(),
        (SendCommand { command: c, phase: CommandPhase::Wait }).bounded(),
        !(SendCommand { command: c, phase: CommandPhase::Enter }).bounded(),
        !(SendCommand { command: c, phase: CommandPhase::Window }).bounded(),
{
}

/// A command is waited on only while the card is silent: where it still polls, no byte behind
/// the command had a clear topmost bit, and where it is about to end, the last one had.
pub proof fn law_a_command_waits_only_for_a_silent_card(
    m: SendCommand,
    start: BusState,
    now: BusState,
)
    requires
        m.reached(start, now),
    ensures
        ({
            let from = start.pos + if m.command.index == 12 {
                11int
            } else {
                10int
            };
            &&& m.phase is Gap ==> now == start
            &&& m.phase is Frame ==> now.pos == start.pos + 4
            &&& m.phase is Stuff ==> now.pos == start.pos + 10 && m.command.index == 12
            &&& m.phase is Window ==> now.pos == from
            &&& m.phase is Enter || m.phase is Poll || m.phase is Wait ==> forall|i: int|
                from <= i < now.pos ==> #[trigger] (start.line)(i) >= 128
            &&& m.phase matches CommandPhase::Leave(status) ==> status == (start.line)(now.pos - 1)
                && status < 128
        }),
{
}

} // verus!
