//! Receiving a data block from a card, and sending one.

use vstd::prelude::*;

use crate::sd::bus;
use crate::sd::bus::{Act, BusMachine, BusOp, BusReply, BusState, BusStep};
use crate::sd::crc;
use crate::sd::crc::crc16;
use crate::sd::response;
use crate::sd::response::{DataErrorToken, DataResponse, Error, DATA_START_BLOCK};

verus! {

/// The number of bytes that are taken in at once to find a token.
pub const WINDOW: usize = 8;

/// The time that a card has to start a data block, in milliseconds.
pub const TOKEN_MS: u32 = 1000;

/// The line is idle from byte `from` to byte `to`.
pub open spec fn quiet(line: spec_fn(int) -> u8, from: int, to: int) -> bool {
    forall|i: int| from <= i < to ==> #[trigger] line(i) == 0xFF
}

/// The first byte from byte `from` on that is not idle is byte `at`: a token.
pub open spec fn token_at(line: spec_fn(int) -> u8, from: int, at: int) -> bool {
    from <= at && line(at) != 0xFF && quiet(line, from, at)
}

/// The end of the window that the token at byte `at` is found in.
pub open spec fn window_end(from: int, at: int) -> int {
    from + ((at - from) / 8 + 1) * 8
}

/// The error for a token that does not start a data block.
pub open spec fn refused(token: u8) -> Error {
    match response::refusal(token) {
        Some(e) => e,
        None => Error::RegisterError(token),
    }
}

/// Where the checksum of a block is read: behind the block, or behind the window where
/// all of the block was in it.
pub open spec fn checksum_at(from: int, at: int, len: int) -> int {
    if at + 1 + len < window_end(from, at) {
        window_end(from, at)
    } else {
        at + 1 + len
    }
}

/// A big-endian number.
pub open spec fn be16(high: u8, low: u8) -> u16 {
    (high * 0x100 + low) as u16
}

/// The bus after this many bytes were taken in, with this many waits between them.
pub open spec fn taken_in(start: BusState, n: int, waits: int) -> BusState {
    BusState {
        waited: (start.waited + 100 * waits) as nat,
        ..start.after_sending(bus::idle_bytes(n as nat))
    }
}

/// The token came at byte `at`: what the bus has come to, and what receiving a block
/// gives.
pub open spec fn reception_ends(
    len: int,
    start: BusState,
    end: BusState,
    out: Result<Vec<u8>, Error>,
    at: int,
) -> bool {
    let from = start.pos;
    let waits = (at - from) / 8;
    let sum_at = checksum_at(from, at, len);
    let payload = start.incoming(at + 1, at + 1 + len);
    let sum = be16((start.line)(sum_at), (start.line)(sum_at + 1));
    &&& token_at(start.line, from, at)
    &&& if (start.line)(at) != DATA_START_BLOCK {
        &&& end == taken_in(start, window_end(from, at) - from, waits)
        &&& out matches Err(e) && e == refused((start.line)(at))
    } else {
        &&& end == taken_in(start, sum_at + 2 - from, waits)
        &&& if sum == crc::checksum16(payload) {
            out matches Ok(bytes) && bytes@ == payload
        } else {
            out matches Err(e) && e == Error::CrcMismatch(sum, crc::checksum16(payload))
        }
    }
}

/// Where receiving a block stands.
pub enum ReceivePhase {
    /// Setting the time that the card has.
    Enter,
    /// Taking in a window.
    Window,
    /// Waiting before the next window.
    Wait,
    /// This token was found at this place of the window, and these bytes of the block
    /// behind it.
    Leave { found: usize, token: u8, carried: Vec<u8> },
    /// Taking in the rest of the block behind these bytes.
    Rest { found: usize, carried: Vec<u8> },
    /// Taking in the checksum of this block. So many bytes of it came behind the
    /// window.
    Checksum { found: usize, rest: usize, payload: Vec<u8> },
}

/// Receives a block.
pub struct ReceiveBlock {
    pub len: usize,
    pub phase: ReceivePhase,
}

impl ReceiveBlock {
    /// Begin: set the time that the card has.
    pub fn begin(len: usize) -> (first: (ReceiveBlock, BusOp))
        ensures
            first.0.wf(),
            first.0.task() == len,
            first.1@ == Act::Enter(TOKEN_MS),
            first.0.pending() == first.1@,
            forall|s: BusState| #[trigger] first.0.reached(s, s),
    {
        (ReceiveBlock { len, phase: ReceivePhase::Enter }, BusOp::Enter(TOKEN_MS))
    }

    /// What a block holds that is not received to its end from here on: the bytes of it that
    /// have come in, and idle ones for the rest. It is left alone before its first byte is
    /// known to be one of it.
    pub open spec fn left(self) -> Option<Seq<u8>> {
        match self.phase {
            ReceivePhase::Rest { carried, .. } => Some(
                carried@ + bus::idle_bytes((self.len - carried@.len()) as nat),
            ),
            ReceivePhase::Checksum { payload, .. } => Some(payload@),
            _ => None,
        }
    }

    /// What a block holds that is not received to its end from here on.
    pub fn leave(&self) -> (left: Option<Vec<u8>>)
        requires
            self.wf(),
        ensures
            match left {
                Some(bytes) => self.left() == Some(bytes@),
                None => self.left() is None,
            },
    {
        match &self.phase {
            ReceivePhase::Rest { carried, .. } => {
                let bytes: Vec<u8> = padded(carried, self.len);
                Some(bytes)
            },
            ReceivePhase::Checksum { payload, .. } => {
                let bytes: Vec<u8> = padded(payload, self.len);
                assert(payload@ + bus::idle_bytes(0) =~= payload@);
                Some(bytes)
            },
            _ => None,
        }
    }
}

/// Some bytes, and idle ones behind them up to a length.
fn padded(bytes: &Vec<u8>, len: usize) -> (all: Vec<u8>)
    requires
        bytes@.len() <= len,
    ensures
        all@ == bytes@ + bus::idle_bytes((len - bytes@.len()) as nat),
{
    let mut all: Vec<u8> = Vec::new();
    let mut i: usize = 0;
    while i < len
        invariant
            bytes@.len() <= len,
            i <= len,
            all@.len() == i,
            forall|k: int|
                0 <= k < i ==> #[trigger] all@[k] == if k < bytes@.len() {
                    bytes@[k]
                } else {
                    0xFF
                },
        decreases len - i,
    {
        if i < bytes.len() {
            all.push(bytes[i]);
        } else {
            all.push(0xFF);
        }
        i = i + 1;
    }
    assert(all@ =~= bytes@ + bus::idle_bytes((len - bytes@.len()) as nat));
    all
}

/// The first byte of a window that is not idle.
fn find_token(window: &Vec<u8>) -> (found: Option<usize>)
    ensures
        match found {
            Some(i) => i < window@.len() && window@[i as int] != 0xFF && (forall|k: int|
                0 <= k < i ==> window@[k] == 0xFF),
            None => forall|k: int| 0 <= k < window@.len() ==> window@[k] == 0xFF,
        },
{
    let mut i: usize = 0;
    while i < window.len()
        invariant
            i <= window@.len(),
            forall|k: int| 0 <= k < i ==> window@[k] == 0xFF,
        decreases window@.len() - i,
    {
        if window[i] != 0xFF {
            return Some(i);
        }
        i = i + 1;
    }
    None
}

/// The bytes behind a place of a window, but no more than a block holds.
fn carry(window: &Vec<u8>, found: usize, len: usize) -> (carried: Vec<u8>)
    requires
        found < window@.len(),
    ensures
        ({
            let behind = window@.len() - found - 1;
            let n = if behind < len {
                behind
            } else {
                len as int
            };
            carried@ == window@.subrange(found + 1, found + 1 + n)
        }),
{
    let mut carried: Vec<u8> = Vec::new();
    let n: usize = window.len();
    let mut i: usize = found + 1;
    while i < n && carried.len() < len
        invariant
            n == window@.len(),
            found < window@.len(),
            found + 1 <= i <= window@.len(),
            carried@ == window@.subrange(found + 1, i as int),
            carried@.len() <= len,
        decreases window@.len() - i,
    {
        carried.push(window[i]);
        i = i + 1;
    }
    carried
}

/// Bytes that are taken in after others are taken in together with them.
proof fn lemma_taken_in(start: BusState, n: int, m: nat, waits: int)
    requires
        n >= 0,
    ensures
        taken_in(start, n, waits).after_sending(bus::idle_bytes(m)) == taken_in(
            start,
            n + m,
            waits,
        ),
{
    bus::lemma_sent(start, bus::idle_bytes(n as nat), bus::idle_bytes(m));
    bus::lemma_idle_bytes(n as nat, m);
}

/// Before the first window nothing is taken in.
proof fn lemma_nothing_taken_in(start: BusState)
    ensures
        taken_in(start, 0, 0) == start,
{
    assert(start.sent + bus::idle_bytes(0) =~= start.sent);
}

/// The place of a token, from the end of its window.
proof fn lemma_window_end(from: int, n: int, found: int)
    requires
        n >= 8,
        n % 8 == 0,
        0 <= found < 8,
    ensures
        window_end(from, from + n - 8 + found) == from + n,
        (n - 8 + found) / 8 == n / 8 - 1,
{
}

/// What a window says: the token is one of its bytes, or the line is still idle.
proof fn lemma_window(m: ReceiveBlock, bytes: Seq<u8>, found: Option<usize>, start: BusState, now: BusState)
    requires
        m.reached(start, now),
        m.phase is Window,
        bytes == now.incoming(now.pos, now.pos + 8),
        match found {
            Some(i) => i < bytes.len() && bytes[i as int] != 0xFF && (forall|k: int|
                0 <= k < i ==> bytes[k] == 0xFF),
            None => forall|k: int| 0 <= k < bytes.len() ==> bytes[k] == 0xFF,
        },
    ensures
        ({
            let n = now.pos + 8 - start.pos;
            &&& n % 8 == 0
            &&& now.serve(Act::Transfer(8)).0 == (BusState {
                bounds: start.bounds.push(TOKEN_MS),
                ..taken_in(start, n, n / 8 - 1)
            })
        }),
        match found {
            Some(i) => {
                let at = now.pos + i;
                &&& token_at(start.line, start.pos, at)
                &&& (start.line)(at) == bytes[i as int]
                &&& forall|c: int|
                    0 <= c <= 7 - i ==> #[trigger] bytes.subrange(i + 1, i + 1 + c)
                        == start.incoming(at + 1, at + 1 + c)
            },
            None => quiet(start.line, start.pos, now.pos + 8),
        },
{
    let n = now.pos - start.pos;
    lemma_taken_in(start, n, 8, n / 8);
    assert forall|j: int| now.pos <= j < now.pos + 8 implies #[trigger] (start.line)(j) == bytes[j
        - now.pos] by {}
    if let Some(i) = found {
        let at = now.pos + i;
        assert forall|c: int| 0 <= c <= 7 - i implies #[trigger] bytes.subrange(i + 1, i + 1 + c)
            == start.incoming(at + 1, at + 1 + c) by {
            assert(bytes.subrange(i + 1, i + 1 + c) =~= start.incoming(at + 1, at + 1 + c));
        }
    }
}

/// The time that was set no longer runs.
proof fn lemma_leave(start: BusState, n: int, waits: int)
    ensures
        (BusState { bounds: start.bounds.push(TOKEN_MS), ..taken_in(start, n, waits) }).serve(
            Act::Leave,
        ).0 == taken_in(start, n, waits),
{
    assert(start.bounds.push(TOKEN_MS).drop_last() =~= start.bounds);
}

impl BusMachine for ReceiveBlock {
    type Task = usize;

    type Value = Vec<u8>;

    open spec fn task(self) -> usize {
        self.len
    }

    open spec fn wf(self) -> bool {
        match self.phase {
            ReceivePhase::Leave { carried, .. } => carried@.len() <= self.len,
            ReceivePhase::Rest { carried, .. } => carried@.len() < self.len,
            ReceivePhase::Checksum { payload, .. } => payload@.len() == self.len,
            _ => true,
        }
    }

    open spec fn pending(self) -> Act {
        match self.phase {
            ReceivePhase::Enter => Act::Enter(TOKEN_MS),
            ReceivePhase::Window => Act::Transfer(8),
            ReceivePhase::Wait => Act::Delay(100),
            ReceivePhase::Leave { .. } => Act::Leave,
            ReceivePhase::Rest { carried, .. } => Act::Transfer(
                (self.len - carried@.len()) as nat,
            ),
            ReceivePhase::Checksum { .. } => Act::Transfer(2),
        }
    }

    open spec fn reached(self, start: BusState, now: BusState) -> bool {
        let line = start.line;
        let from = start.pos;
        let n = now.pos - from;
        let bounded = start.bounds.push(TOKEN_MS);
        match self.phase {
            ReceivePhase::Enter => now == start,
            ReceivePhase::Window => {
                &&& n >= 0 && n % 8 == 0
                &&& quiet(line, from, now.pos)
                &&& now == (BusState { bounds: bounded, ..taken_in(start, n, n / 8) })
            },
            ReceivePhase::Wait => {
                &&& n >= 8 && n % 8 == 0
                &&& quiet(line, from, now.pos)
                &&& now == (BusState { bounds: bounded, ..taken_in(start, n, n / 8 - 1) })
            },
            ReceivePhase::Leave { found, token, carried } => {
                let at = now.pos - 8 + found;
                let behind = now.pos - at - 1;
                let c = if behind < self.len {
                    behind
                } else {
                    self.len as int
                };
                &&& n >= 8 && n % 8 == 0
                &&& found < 8
                &&& token_at(line, from, at)
                &&& token == line(at)
                &&& carried@ == start.incoming(at + 1, at + 1 + c)
                &&& now == (BusState { bounds: bounded, ..taken_in(start, n, n / 8 - 1) })
            },
            ReceivePhase::Rest { found, carried } => {
                let at = now.pos - 8 + found;
                &&& n >= 8 && n % 8 == 0
                &&& found < 8
                &&& token_at(line, from, at)
                &&& line(at) == DATA_START_BLOCK
                &&& carried@ == start.incoming(at + 1, now.pos)
                &&& carried@.len() < self.len
                &&& now == taken_in(start, n, n / 8 - 1)
            },
            ReceivePhase::Checksum { found, rest, payload } => {
                let seen = now.pos - rest;
                let at = seen - 8 + found;
                let w = seen - from;
                &&& w >= 8 && w % 8 == 0
                &&& found < 8
                &&& token_at(line, from, at)
                &&& line(at) == DATA_START_BLOCK
                &&& payload@ == start.incoming(at + 1, at + 1 + self.len)
                &&& now.pos == checksum_at(from, at, self.len as int)
                &&& now == taken_in(start, n, w / 8 - 1)
            },
        }
    }

    open spec fn bounded(self) -> bool {
        match self.phase {
            ReceivePhase::Window | ReceivePhase::Wait | ReceivePhase::Leave { .. } => true,
            _ => false,
        }
    }

    fn is_bounded(&self) -> (b: bool) {
        match self.phase {
            ReceivePhase::Window | ReceivePhase::Wait | ReceivePhase::Leave { .. } => true,
            _ => false,
        }
    }

    proof fn lemma_bounds(self, start: BusState, now: BusState) {
    }

    open spec fn overdue(task: usize) -> Error {
        Error::Timeout
    }

    open spec fn possible(task: usize, value: Vec<u8>) -> bool {
        value@.len() == task
    }

    open spec fn outcome(
        task: usize,
        start: BusState,
        end: BusState,
        out: Result<Vec<u8>, Error>,
    ) -> bool {
        exists|at: int| reception_ends(task as int, start, end, out, at)
    }

    fn step(self, reply: BusReply) -> (next: BusStep<Self, Vec<u8>>) {
        let ghost m = self;
        let len: usize = self.len;
        let mut bytes: Vec<u8> = match reply {
            BusReply::Failed => {
                return BusStep::Done(Err(Error::SpiError));
            },
            BusReply::Expired => {
                return BusStep::Done(Err(Error::Timeout));
            },
            BusReply::Bytes(bytes) => bytes,
            BusReply::Done => Vec::new(),
        };
        match self.phase {
            ReceivePhase::Enter => {
                assert forall|start: BusState, now: BusState|
                    #![trigger m.reached(start, now)]
                    m.reached(start, now) implies now == taken_in(start, 0, 0) by {
                    lemma_nothing_taken_in(start);
                }
                BusStep::Do(
                    ReceiveBlock { len, phase: ReceivePhase::Window },
                    BusOp::Transfer(WINDOW),
                )
            },
            ReceivePhase::Window => match find_token(&bytes) {
                Some(found) => {
                    let token: u8 = bytes[found];
                    let carried: Vec<u8> = carry(&bytes, found, len);
                    let ghost c = if 7 - found < len {
                        7 - found
                    } else {
                        len as int
                    };
                    assert forall|start: BusState, now: BusState|
                        #![trigger m.reached(start, now)]
                        m.reached(start, now) && bytes@ == now.incoming(
                            now.pos,
                            now.pos + 8,
                        ) implies ({
                        let n = now.pos + 8 - start.pos;
                        let at = now.pos + found;
                        &&& n % 8 == 0
                        &&& now.serve(Act::Transfer(8)).0 == (BusState {
                            bounds: start.bounds.push(TOKEN_MS),
                            ..taken_in(start, n, n / 8 - 1)
                        })
                        &&& token_at(start.line, start.pos, at)
                        &&& (start.line)(at) == token
                        &&& carried@ == start.incoming(at + 1, at + 1 + c)
                    }) by {
                        lemma_window(m, bytes@, Some(found), start, now);
                        assert(carried@ == bytes@.subrange(found + 1, found + 1 + c));
                    }
                    BusStep::Do(
                        ReceiveBlock { len, phase: ReceivePhase::Leave { found, token, carried } },
                        BusOp::Leave,
                    )
                },
                None => {
                    assert forall|start: BusState, now: BusState|
                        #![trigger m.reached(start, now)]
                        m.reached(start, now) && bytes@ == now.incoming(
                            now.pos,
                            now.pos + 8,
                        ) implies ({
                        let n = now.pos + 8 - start.pos;
                        &&& n % 8 == 0
                        &&& now.serve(Act::Transfer(8)).0 == (BusState {
                            bounds: start.bounds.push(TOKEN_MS),
                            ..taken_in(start, n, n / 8 - 1)
                        })
                        &&& quiet(start.line, start.pos, now.pos + 8)
                    }) by {
                        lemma_window(m, bytes@, None, start, now);
                    }
                    BusStep::Do(
                        ReceiveBlock { len, phase: ReceivePhase::Wait },
                        BusOp::DelayUs(100),
                    )
                },
            },
            ReceivePhase::Wait => BusStep::Do(
                ReceiveBlock { len, phase: ReceivePhase::Window },
                BusOp::Transfer(WINDOW),
            ),
            ReceivePhase::Leave { found, token, carried } => {
                assert forall|start: BusState, now: BusState|
                    #![trigger m.reached(start, now)]
                    m.reached(start, now) implies ({
                    let n = now.pos - start.pos;
                    let at = now.pos - 8 + found;
                    &&& now.serve(Act::Leave).0 == taken_in(start, n, n / 8 - 1)
                    &&& window_end(start.pos, at) == now.pos
                    &&& (at - start.pos) / 8 == n / 8 - 1
                }) by {
                    let n = now.pos - start.pos;
                    lemma_leave(start, n, n / 8 - 1);
                    lemma_window_end(start.pos, n, found as int);
                }
                if token != DATA_START_BLOCK {
                    let e: Error = match DataErrorToken(token).to_error() {
                        Some(e) => e,
                        None => Error::RegisterError(token),
                    };
                    assert forall|start: BusState, now: BusState|
                        #![trigger m.reached(start, now)]
                        m.reached(start, now) implies Self::outcome(
                        len,
                        start,
                        now.serve(Act::Leave).0,
                        Err(e),
                    ) by {
                        assert(reception_ends(
                            len as int,
                            start,
                            now.serve(Act::Leave).0,
                            Err(e),
                            now.pos - 8 + found,
                        ));
                    }
                    return BusStep::Done(Err(e));
                }
                if carried.len() < len {
                    let rest: usize = len - carried.len();
                    BusStep::Do(
                        ReceiveBlock { len, phase: ReceivePhase::Rest { found, carried } },
                        BusOp::Transfer(rest),
                    )
                } else {
                    BusStep::Do(
                        ReceiveBlock {
                            len,
                            phase: ReceivePhase::Checksum { found, rest: 0, payload: carried },
                        },
                        BusOp::Transfer(2),
                    )
                }
            },
            ReceivePhase::Rest { found, carried } => {
                let rest: usize = bytes.len();
                let ghost taken = bytes@;
                let ghost before = carried@;
                let mut payload: Vec<u8> = carried;
                payload.append(&mut bytes);
                assert forall|start: BusState, now: BusState|
                    #![trigger m.reached(start, now)]
                    m.reached(start, now) && taken == now.incoming(
                        now.pos,
                        now.pos + rest,
                    ) implies ({
                    let n = now.pos - start.pos;
                    let at = now.pos - 8 + found;
                    &&& window_end(start.pos, at) == now.pos
                    &&& now.serve(Act::Transfer(rest as nat)).0 == taken_in(
                        start,
                        n + rest,
                        n / 8 - 1,
                    )
                    &&& payload@ == start.incoming(at + 1, at + 1 + len)
                }) by {
                    let n = now.pos - start.pos;
                    let at = now.pos - 8 + found;
                    lemma_window_end(start.pos, n, found as int);
                    lemma_taken_in(start, n, rest as nat, n / 8 - 1);
                    assert(before + taken =~= start.incoming(at + 1, at + 1 + len));
                }
                BusStep::Do(
                    ReceiveBlock { len, phase: ReceivePhase::Checksum { found, rest, payload } },
                    BusOp::Transfer(2),
                )
            },
            ReceivePhase::Checksum { found, rest, payload } => {
                let crc: u16 = bytes[0] as u16 * 0x100 + bytes[1] as u16;
                let calc_crc: u16 = crc16(payload.as_slice());
                let out: Result<Vec<u8>, Error> = if crc != calc_crc {
                    Err(Error::CrcMismatch(crc, calc_crc))
                } else {
                    Ok(payload)
                };
                assert forall|start: BusState, now: BusState|
                    #![trigger m.reached(start, now)]
                    m.reached(start, now) && bytes@ == now.incoming(
                        now.pos,
                        now.pos + 2,
                    ) implies Self::outcome(len, start, now.serve(Act::Transfer(2)).0, out) by {
                    let seen = now.pos - rest;
                    let at = seen - 8 + found;
                    let n = now.pos - start.pos;
                    let w = seen - start.pos;
                    lemma_window_end(start.pos, w, found as int);
                    lemma_taken_in(start, n, 2, w / 8 - 1);
                    assert(bytes@[0] == (start.line)(now.pos));
                    assert(bytes@[1] == (start.line)(now.pos + 1));
                    assert(reception_ends(
                        len as int,
                        start,
                        now.serve(Act::Transfer(2)).0,
                        out,
                        at,
                    ));
                }
                BusStep::Done(out)
            },
        }
    }
}

/// A block that is not received, though nothing fails on the bus, is left with what the card
/// has sent for it where it was started, and alone otherwise.
pub proof fn lemma_left(m: ReceiveBlock, start: BusState, now: BusState, e: Error) -> (at: int)
    requires
        m.wf(),
        m.reached(start, now),
        ReceiveBlock::outcome(m.task(), start, now.serve(m.pending()).0, Err(e)),
    ensures
        reception_ends(m.len as int, start, now.serve(m.pending()).0, Err(e), at),
        m.left() == if (start.line)(at) == DATA_START_BLOCK {
            Some(start.incoming(at + 1, at + 1 + m.len))
        } else {
            None
        },
{
    let after = now.serve(m.pending()).0;
    let n = now.pos - start.pos;
    let at = choose|at: int| reception_ends(m.len as int, start, after, Err(e), at);
    match m.phase {
        ReceivePhase::Leave { found, .. } => {
            lemma_one_token(start.line, start.pos, at, now.pos - 8 + found);
            lemma_window_end(start.pos, n, found as int);
        },
        ReceivePhase::Rest { found, .. } => {
            lemma_one_token(start.line, start.pos, at, now.pos - 8 + found);
        },
        ReceivePhase::Checksum { found, rest, .. } => {
            lemma_one_token(start.line, start.pos, at, now.pos - rest - 8 + found);
        },
        _ => {
            assert(after.bounds.len() == start.bounds.len() + 1);
        },
    }
    at
}

/// A block to be sent behind a token.
pub struct BlockTask {
    pub token: u8,
    pub payload: Seq<u8>,
}

/// The bytes of a number, high byte first.
pub open spec fn be_bytes(n: u16) -> Seq<u8> {
    seq![(n / 0x100) as u8, (n % 0x100) as u8]
}

/// A block as it goes over the bus: the token, the bytes, the checksum.
pub open spec fn data_frame(token: u8, payload: Seq<u8>) -> Seq<u8> {
    seq![token] + payload + be_bytes(crc::checksum16(payload))
}

/// What the response to a block says: its first byte that is not idle is the card's
/// verdict, and there must be one.
pub open spec fn verdict(response: Seq<u8>) -> Result<(), Error>
    decreases response.len(),
{
    if response.len() == 0 {
        Err(Error::WriteError)
    } else if response[0] == 0xFF {
        verdict(response.skip(1))
    } else {
        match response::rejection(response[0]) {
            Some(e) => Err(e),
            None => Ok(()),
        }
    }
}

/// Where sending a block stands.
pub enum SendPhase {
    /// Sending the token, with these bytes to follow.
    Token(Vec<u8>),
    /// Sending the bytes.
    Payload,
    /// Sending the checksum.
    Checksum,
    /// Taking in the response.
    Response,
}

/// Sends a block.
pub struct SendBlock {
    pub token: u8,
    pub payload: Ghost<Seq<u8>>,
    /// The checksum of the bytes.
    pub sum: u16,
    pub phase: SendPhase,
}

impl SendBlock {
    /// Begin: send the token.
    pub fn begin(token: u8, payload: Vec<u8>) -> (first: (SendBlock, BusOp))
        ensures
            first.0.wf(),
            first.0.task() == (BlockTask { token, payload: payload@ }),
            first.1@ == Act::Write(seq![token]),
            first.0.pending() == first.1@,
            forall|s: BusState| #[trigger] first.0.reached(s, s),
    {
        let sum: u16 = crc16(payload.as_slice());
        let ghost bytes = payload@;
        let mut first: Vec<u8> = Vec::new();
        first.push(token);
        assert(first@ =~= seq![token]);
        (
            SendBlock { token, payload: Ghost(bytes), sum, phase: SendPhase::Token(payload) },
            BusOp::Write(first),
        )
    }
}

/// What the response to a block says.
fn judge_response(response: &Vec<u8>) -> (out: Result<(), Error>)
    ensures
        out == verdict(response@),
{
    let mut i: usize = 0;
    assert(response@.skip(0) =~= response@);
    while i < response.len()
        invariant
            i <= response@.len(),
            verdict(response@.skip(i as int)) == verdict(response@),
        decreases response@.len() - i,
    {
        if response[i] != 0xFF {
            return match DataResponse(response[i]).to_error() {
                Some(e) => Err(e),
                None => Ok(()),
            };
        }
        assert(response@.skip(i as int).skip(1) =~= response@.skip(i + 1));
        i = i + 1;
    }
    Err(Error::WriteError)
}

impl BusMachine for SendBlock {
    type Task = BlockTask;

    type Value = ();

    open spec fn task(self) -> BlockTask {
        BlockTask { token: self.token, payload: self.payload@ }
    }

    open spec fn wf(self) -> bool {
        &&& self.sum == crc::checksum16(self.payload@)
        &&& self.phase matches SendPhase::Token(payload) ==> payload@ == self.payload@
    }

    open spec fn pending(self) -> Act {
        match self.phase {
            SendPhase::Token(_) => Act::Write(seq![self.token]),
            SendPhase::Payload => Act::Write(self.payload@),
            SendPhase::Checksum => Act::Write(be_bytes(self.sum)),
            SendPhase::Response => Act::Transfer(8),
        }
    }

    open spec fn reached(self, start: BusState, now: BusState) -> bool {
        match self.phase {
            SendPhase::Token(_) => now == start,
            SendPhase::Payload => now == start.after_sending(seq![self.token]),
            SendPhase::Checksum => now == start.after_sending(seq![self.token] + self.payload@),
            SendPhase::Response => now == start.after_sending(
                data_frame(self.token, self.payload@),
            ),
        }
    }

    open spec fn bounded(self) -> bool {
        false
    }

    fn is_bounded(&self) -> (b: bool) {
        false
    }

    proof fn lemma_bounds(self, start: BusState, now: BusState) {
    }

    open spec fn overdue(task: BlockTask) -> Error {
        Error::Timeout
    }

    open spec fn possible(task: BlockTask, value: ()) -> bool {
        true
    }

    open spec fn outcome(
        task: BlockTask,
        start: BusState,
        end: BusState,
        out: Result<(), Error>,
    ) -> bool {
        let frame = data_frame(task.token, task.payload);
        let at = start.pos + frame.len();
        &&& end == start.after_sending(frame).after_sending(bus::idle_bytes(8))
        &&& out == verdict(start.incoming(at, at + 8))
    }

    fn step(self, reply: BusReply) -> (next: BusStep<Self, ()>) {
        let ghost m = self;
        let bytes: Vec<u8> = match reply {
            BusReply::Failed => {
                return BusStep::Done(Err(Error::SpiError));
            },
            BusReply::Expired => {
                return BusStep::Done(Err(Error::Timeout));
            },
            BusReply::Bytes(bytes) => bytes,
            BusReply::Done => Vec::new(),
        };
        let token: u8 = self.token;
        let payload: Ghost<Seq<u8>> = self.payload;
        let sum: u16 = self.sum;
        proof {
            assert forall|start: BusState, now: BusState|
                #![trigger m.reached(start, now)]
                m.reached(start, now) implies ({
                let first = seq![token];
                &&& start.after_sending(first).after_sending(payload@) == start.after_sending(
                    first + payload@,
                )
                &&& start.after_sending(first + payload@).after_sending(be_bytes(sum))
                    == start.after_sending(data_frame(token, payload@))
            }) by {
                bus::lemma_sent(start, seq![token], payload@);
                bus::lemma_sent(start, seq![token] + payload@, be_bytes(sum));
            }
        }
        match self.phase {
            SendPhase::Token(data) => BusStep::Do(
                SendBlock { token, payload, sum, phase: SendPhase::Payload },
                BusOp::Write(data),
            ),
            SendPhase::Payload => {
                let mut crc_bytes: Vec<u8> = Vec::new();
                crc_bytes.push((sum / 0x100) as u8);
                crc_bytes.push((sum % 0x100) as u8);
                assert(crc_bytes@ =~= be_bytes(sum));
                BusStep::Do(
                    SendBlock { token, payload, sum, phase: SendPhase::Checksum },
                    BusOp::Write(crc_bytes),
                )
            },
            SendPhase::Checksum => BusStep::Do(
                SendBlock { token, payload, sum, phase: SendPhase::Response },
                BusOp::Transfer(WINDOW),
            ),
            SendPhase::Response => BusStep::Done(judge_response(&bytes)),
        }
    }
}

/// The card sends these bytes from byte `at` on.
pub open spec fn carries(line: spec_fn(int) -> u8, at: int, bytes: Seq<u8>) -> bool {
    forall|i: int| 0 <= i < bytes.len() ==> #[trigger] line(at + i) == bytes[i]
}

/// There is one place where the first token can be.
proof fn lemma_one_token(line: spec_fn(int) -> u8, from: int, a: int, b: int)
    requires
        token_at(line, from, a),
        token_at(line, from, b),
    ensures
        a == b,
{
    if a < b {
        assert(line(a) == 0xFF);
    } else if b < a {
        assert(line(b) == 0xFF);
    }
}

/// What is received is what was sent: a card that answers with a block as this library
/// sends it, after it was silent for however long, has the block received from it.
///
/// A block must be no shorter than what a window can hold behind the token: of a
/// shorter one, the checksum may be lost with the rest of the window.
pub proof fn law_a_sent_block_is_received(
    start: BusState,
    end: BusState,
    out: Result<Vec<u8>, Error>,
    payload: Seq<u8>,
    at: int,
)
    requires
        start.pos <= at,
        quiet(start.line, start.pos, at),
        carries(start.line, at, data_frame(DATA_START_BLOCK, payload)),
        7 <= payload.len() <= usize::MAX,
        ReceiveBlock::outcome(payload.len() as usize, start, end, out),
    ensures
        out matches Ok(bytes) && bytes@ == payload,
{
    let len = payload.len() as int;
    let frame = data_frame(DATA_START_BLOCK, payload);
    let sum = crc::checksum16(payload);
    assert((start.line)(at + 0) == frame[0]);
    let found = choose|a: int| reception_ends(len, start, end, out, a);
    lemma_one_token(start.line, start.pos, at, found);
    assert(start.incoming(at + 1, at + 1 + len) =~= payload) by {
        assert forall|i: int| 0 <= i < len implies (start.line)(at + 1 + i) == payload[i] by {
            assert((start.line)(at + (i + 1)) == frame[i + 1]);
        }
    }
    assert((start.line)(at + (len + 1)) == frame[len + 1]);
    assert((start.line)(at + (len + 2)) == frame[len + 2]);
    assert(be16((sum / 0x100) as u8, (sum % 0x100) as u8) == sum);
}

/// A block with one changed byte is not received: the checksum does not fit it.
pub proof fn law_a_changed_block_is_rejected(
    start: BusState,
    end: BusState,
    out: Result<Vec<u8>, Error>,
    payload: Seq<u8>,
    at: int,
    i: int,
    byte: u8,
)
    requires
        start.pos <= at,
        quiet(start.line, start.pos, at),
        0 <= i < payload.len(),
        byte != payload[i],
        carries(
            start.line,
            at,
            seq![DATA_START_BLOCK] + payload.update(i, byte) + be_bytes(crc::checksum16(payload)),
        ),
        7 <= payload.len() <= usize::MAX,
        ReceiveBlock::outcome(payload.len() as usize, start, end, out),
    ensures
        out matches Err(e) && e == Error::CrcMismatch(
            crc::checksum16(payload),
            crc::checksum16(payload.update(i, byte)),
        ),
{
    let len = payload.len() as int;
    let other = payload.update(i, byte);
    let sum = crc::checksum16(payload);
    let frame = seq![DATA_START_BLOCK] + other + be_bytes(sum);
    crc::law_crc16_sees_a_changed_byte(payload, i, byte);
    assert((start.line)(at + 0) == frame[0]);
    let found = choose|a: int| reception_ends(len, start, end, out, a);
    lemma_one_token(start.line, start.pos, at, found);
    assert(start.incoming(at + 1, at + 1 + len) =~= other) by {
        assert forall|k: int| 0 <= k < len implies (start.line)(at + 1 + k) == other[k] by {
            assert((start.line)(at + (k + 1)) == frame[k + 1]);
        }
    }
    assert((start.line)(at + (len + 1)) == frame[len + 1]);
    assert((start.line)(at + (len + 2)) == frame[len + 2]);
    assert(be16((sum / 0x100) as u8, (sum % 0x100) as u8) == sum);
}

/// What receiving a block comes to. The line is taken in eight bytes at a time, with 100
/// microseconds between them, until a byte is not idle: the token. Where it starts a block, the
/// bytes behind it are the block, and the two behind these, or behind the eight where the block
/// ends before them, its checksum as a big-endian number. The block is received exactly where
/// that is the checksum of its bytes. Every other token is an error, that of the token or the
/// token itself. The bus is left as it was.
pub proof fn law_a_block_is_what_follows_the_token(
    len: usize,
    start: BusState,
    end: BusState,
    out: Result<Vec<u8>, Error>,
)
    requires
        ReceiveBlock::outcome(len, start, end, out),
    ensures
        exists|at: int|
            #![trigger (start.line)(at)]
            {
                let token = (start.line)(at);
                let seen = at - (at - start.pos) % 8 + 8;
                let behind = at + 1 + len;
                let sum_at = if behind < seen {
                    seen
                } else {
                    behind
                };
                &&& start.pos <= at && token != 0xFF
                &&& forall|i: int| start.pos <= i < at ==> #[trigger] (start.line)(i) == 0xFF
                &&& if token == 0xFE {
                    let sum = (start.line)(sum_at) * 0x100 + (start.line)(sum_at + 1);
                    let payload = Seq::new(len as nat, |i: int| (start.line)(at + 1 + i));
                    &&& end.pos == sum_at + 2
                    &&& sum == crc::checksum16(payload) ==> (out matches Ok(bytes) && bytes@
                        == payload)
                    &&& sum != crc::checksum16(payload) ==> (out matches Err(Error::CrcMismatch(
                        sent,
                        made,
                    )) && sent == sum && made == crc::checksum16(payload))
                } else {
                    &&& end.pos == seen
                    &&& out matches Err(e) && e == match response::refusal(token) {
                        Some(reason) => reason,
                        None => Error::RegisterError(token),
                    }
                }
                &&& end.waited == start.waited + 100 * ((at - start.pos) / 8)
                &&& end.sent.len() == start.sent.len() + (end.pos - start.pos)
                &&& end.sent.take(start.sent.len() as int) == start.sent
                &&& forall|i: int|
                    0 <= i < end.pos - start.pos ==> #[trigger] end.sent[start.sent.len() + i]
                        == 0xFF
                &&& end.line == start.line && end.held == start.held
                &&& end.selected == start.selected && end.bounds == start.bounds
            },
{
    let at = choose|at: int| reception_ends(len as int, start, end, out, at);
    assert(reception_ends(len as int, start, end, out, at));
    assert((start.line)(at) != 0xFF);
    assert(window_end(start.pos, at) == at - (at - start.pos) % 8 + 8);
    assert(start.incoming(at + 1, at + 1 + len) =~= Seq::new(
        len as nat,
        |i: int| (start.line)(at + 1 + i),
    ));
    assert(end.sent.take(start.sent.len() as int) =~= start.sent);
}

/// A card has a second to start a block, and a block that does not start in time is timed out.
pub proof fn law_a_block_has_its_time(len: usize)
    ensures
        (ReceiveBlock { len, phase: ReceivePhase::Enter }).pending() == Act::Enter(1000),
        (ReceiveBlock { len, phase: ReceivePhase::Window }).pending() == Act::Transfer(8),
        (ReceiveBlock { len, phase: ReceivePhase::Wait }).pending() == Act::Delay(100),
        (ReceiveBlock { len, phase: ReceivePhase::Window }).bounded(),
        (ReceiveBlock { len, phase: ReceivePhase::Wait }).bounded(),
        !(ReceiveBlock { len, phase: ReceivePhase::Enter }).bounded(),
        ReceiveBlock::overdue(len) == Error::Timeout,
{
}

/// A block that is given up holds what has come in of it.
pub proof fn law_a_block_keeps_what_has_come_in(m: ReceiveBlock)
    requires
        m.wf(),
    ensures
        match m.phase {
            ReceivePhase::Rest { carried, .. } => m.left() matches Some(bytes) && bytes.len()
                == m.len && (forall|i: int|
                0 <= i < m.len ==> #[trigger] bytes[i] == if i < carried@.len() {
                    carried@[i]
                } else {
                    0xFF
                }),
            ReceivePhase::Checksum { payload, .. } => m.left() == Some(payload@),
            _ => m.left() is None,
        },
{
}

/// What sending a block comes to: the token, the bytes, and their checksum with its high byte
/// first go out, and eight idle bytes behind them. Of what comes in with these eight, the first
/// byte that is not idle is what the card makes of the block; it must be among them.
pub proof fn law_a_block_goes_out_with_its_checksum(
    task: BlockTask,
    start: BusState,
    end: BusState,
    out: Result<(), Error>,
)
    requires
        SendBlock::outcome(task, start, end, out),
    ensures
        ({
            let len = task.payload.len();
            let sum = crc::checksum16(task.payload);
            let from = start.pos + len + 3;
            let old = start.sent.len();
            &&& end.pos == start.pos + len + 11
            &&& end.sent.len() == old + len + 11
            &&& end.sent.take(old as int) == start.sent
            &&& end.sent[old as int] == task.token
            &&& forall|i: int|
                0 <= i < len ==> #[trigger] end.sent[old + 1 + i] == task.payload[i]
            &&& end.sent[(old + len + 1) as int] * 0x100 + end.sent[(old + len + 2) as int] == sum
            &&& forall|i: int| 0 <= i < 8 ==> #[trigger] end.sent[old + len + 3 + i] == 0xFF
            &&& end.line == start.line && end.held == start.held && end.waited == start.waited
            &&& end.selected == start.selected && end.bounds == start.bounds
            &&& (forall|i: int| from <= i < from + 8 ==> #[trigger] (start.line)(i) == 0xFF)
                ==> out == Err::<(), Error>(Error::WriteError)
            &&& forall|at: int|
                #![trigger (start.line)(at)]
                from <= at < from + 8 && (start.line)(at) != 0xFF && (forall|i: int|
                    from <= i < at ==> #[trigger] (start.line)(i) == 0xFF) ==> out
                    == match response::rejection((start.line)(at)) {
                    Some(e) => Err::<(), Error>(e),
                    None => Ok(()),
                }
        }),
{
    let len = task.payload.len();
    let from = start.pos + len + 3;
    let sum = crc::checksum16(task.payload);
    let frame = data_frame(task.token, task.payload);
    let heard = start.incoming(from, from + 8);
    assert(frame.len() == len + 3);
    assert(end.sent.take(start.sent.len() as int) =~= start.sent);
    assert(forall|k: int| 0 <= k < 8 ==> heard[k] == #[trigger] (start.line)(from + k));
    if forall|i: int| from <= i < from + 8 ==> #[trigger] (start.line)(i) == 0xFF {
        lemma_verdict(heard, 8);
    }
    assert forall|at: int|
        #![trigger (start.line)(at)]
        from <= at < from + 8 && (start.line)(at) != 0xFF && (forall|i: int|
            from <= i < at ==> #[trigger] (start.line)(i) == 0xFF) implies out
        == match response::rejection((start.line)(at)) {
        Some(e) => Err::<(), Error>(e),
        None => Ok(()),
    } by {
        assert(heard[at - from] == (start.line)(from + (at - from)));
        lemma_verdict(heard, at - from);
    }
}

/// The first byte that is not idle is the one that counts.
proof fn lemma_verdict(response: Seq<u8>, k: int)
    requires
        0 <= k <= response.len(),
        forall|i: int| 0 <= i < k ==> response[i] == 0xFF,
        k < response.len() ==> response[k] != 0xFF,
    ensures
        k == response.len() ==> verdict(response) == Err::<(), Error>(Error::WriteError),
        k < response.len() ==> verdict(response) == match response::rejection(response[k]) {
            Some(e) => Err::<(), Error>(e),
            None => Ok(()),
        },
    decreases k,
{
    if k > 0 {
        lemma_verdict(response.skip(1), k - 1);
    }
}

/// A block is waited for only while the line is idle: where no token was found yet, every byte
/// so far was idle.
pub proof fn law_a_block_is_waited_for_on_an_idle_line(
    m: ReceiveBlock,
    start: BusState,
    now: BusState,
)
    requires
        m.reached(start, now),
        m.phase is Enter || m.phase is Window || m.phase is Wait,
    ensures
        forall|i: int| start.pos <= i < now.pos ==> #[trigger] (start.line)(i) == 0xFF,
        m.phase is Enter ==> now == start,
{
}

/// A block is sent in one go: its token, its bytes and its checksum, and then the response is
/// taken in, each of them once.
pub proof fn law_a_block_is_sent_in_one_go(m: SendBlock, start: BusState, now: BusState)
    requires
        m.wf(),
        m.reached(start, now),
    ensures
        ({
            let len = m.payload@.len();
            match m.phase {
                SendPhase::Token(_) => now == start && m.pending() == Act::Write(seq![m.token]),
                SendPhase::Payload => now.pos == start.pos + 1 && m.pending() == Act::Write(
                    m.payload@,
                ),
                SendPhase::Checksum => now.pos == start.pos + 1 + len && (m.pending() matches
                    Act::Write(sum) && sum.len() == 2 && sum[0] * 0x100 + sum[1]
                    == crc::checksum16(m.payload@)),
                SendPhase::Response => now.pos == start.pos + 3 + len && m.pending()
                    == Act::Transfer(8),
            }
        }),
        m.task().token == m.token && m.task().payload == m.payload@,
{
}

/// Behind the token that starts a block, the rest of the block and its checksum are taken in,
/// each of them once.
pub proof fn law_a_block_is_received_in_one_go(m: ReceiveBlock, start: BusState, now: BusState)
    requires
        m.wf(),
        m.reached(start, now),
    ensures
        match m.phase {
            ReceivePhase::Leave { found, token, carried } => {
                &&& found < 8
                &&& token == (start.line)(now.pos - 8 + found) && token != 0xFF
                &&& forall|i: int|
                    start.pos <= i < now.pos - 8 + found ==> #[trigger] (start.line)(i) == 0xFF
                &&& carried@.len() == if 7 - found < m.len {
                    7 - found
                } else {
                    m.len as int
                }
                &&& forall|i: int|
                    0 <= i < carried@.len() ==> #[trigger] carried@[i] == (start.line)(
                        now.pos - 7 + found + i,
                    )
            },
            ReceivePhase::Rest { found, carried } => {
                &&& found < 8 && (start.line)(now.pos - 8 + found) == 0xFE
                &&& carried@.len() == 7 - found && carried@.len() < m.len
                &&& m.pending() == Act::Transfer((m.len - carried@.len()) as nat)
            },
            ReceivePhase::Checksum { found, rest, payload } => {
                let at = now.pos - rest - 8 + found;
                &&& found < 8 && (start.line)(at) == 0xFE
                &&& payload@.len() == m.len
                &&& forall|i: int|
                    0 <= i < m.len ==> #[trigger] payload@[i] == (start.line)(at + 1 + i)
                &&& now.pos == if at + 1 + m.len < now.pos - rest {
                    now.pos - rest
                } else {
                    at + 1 + m.len
                }
                &&& m.pending() == Act::Transfer(2)
            },
            _ => true,
        },
{
    if let ReceivePhase::Checksum { found, rest, .. } = m.phase {
        lemma_window_end(start.pos, now.pos - rest - start.pos, found as int);
    }
}

} // verus!
