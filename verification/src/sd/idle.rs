//! Waiting for a card to go idle.
//!
//! A card that programs or erases holds the line low. The wait probes the line and
//! gives the bus back between the probes, so that others on the bus are served. The
//! caller must not hold the bus.

use vstd::prelude::*;

use crate::sd::bus;
use crate::sd::bus::{Act, BusMachine, BusOp, BusReply, BusState, BusStep};
use crate::sd::data;
use crate::sd::response::Error;

verus! {

/// A wait: the time that it may take, in milliseconds, and the number of probes in a row
/// that must find the line idle.
#[derive(Copy, Clone)]
pub struct IdleTask {
    pub timeout_ms: u32,
    pub sustained: u32,
}

impl IdleTask {
    /// One idle probe is needed at least.
    pub open spec fn target(self) -> int {
        if self.sustained == 0 {
            1
        } else {
            self.sustained as int
        }
    }
}

/// Probe `k`, from byte `from` on, finds the line idle for all of its eight bytes.
pub open spec fn idle_probe(line: spec_fn(int) -> u8, from: int, k: int) -> bool {
    data::quiet(line, from + 8 * k, from + 8 * k + 8)
}

/// The last `target` probes up to probe `k` have found the line idle.
pub open spec fn settled(line: spec_fn(int) -> u8, from: int, k: int, target: int) -> bool {
    &&& target <= k + 1
    &&& forall|i: int| k - target < i <= k ==> #[trigger] idle_probe(line, from, i)
}

/// Probe `k` is the first one at which the card has settled.
pub open spec fn settles_at(line: spec_fn(int) -> u8, from: int, k: int, target: int) -> bool {
    &&& settled(line, from, k, target)
    &&& forall|j: int| 0 <= j < k ==> !#[trigger] settled(line, from, j, target)
}

/// The bus after this many probes, and this many waits of a millisecond between them.
pub open spec fn probed(start: BusState, probes: int, waits: int) -> BusState {
    BusState {
        waited: (start.waited + 1000 * waits) as nat,
        ..start.after_sending(bus::idle_bytes((8 * probes) as nat))
    }
}

/// The card settles at probe `k`, and the wait ends with it.
pub open spec fn wait_ends(task: IdleTask, start: BusState, end: BusState, k: int) -> bool {
    &&& 0 <= k
    &&& settles_at(start.line, start.pos, k, task.target())
    &&& end == probed(start, k + 1, k)
}

/// Where a wait stands.
pub enum IdlePhase {
    /// Setting the time that it may take.
    Enter,
    /// Taking the bus for a probe.
    Acquire,
    /// Selecting the card.
    Select,
    /// Probing the line.
    Probe,
    /// Giving the bus back: the line was idle, or was not.
    Release(bool),
    /// Waiting before the next probe.
    Wait,
    /// The card has settled.
    Leave,
}

/// Waits for a card to go idle.
pub struct WaitIdle {
    pub limits: IdleTask,
    /// The idle probes in a row.
    pub consec: u32,
    pub phase: IdlePhase,
}

impl WaitIdle {
    /// Begin: set the time that the wait may take.
    pub fn begin(timeout_ms: u32, sustained_count: u32) -> (first: (WaitIdle, BusOp))
        ensures
            first.0.wf(),
            first.0.task() == (IdleTask { timeout_ms, sustained: sustained_count }),
            first.1@ == Act::Enter(timeout_ms),
            first.0.pending() == first.1@,
            forall|s: BusState| !s.held && !s.selected ==> #[trigger] first.0.reached(s, s),
    {
        (
            WaitIdle {
                limits: IdleTask { timeout_ms, sustained: sustained_count },
                consec: 0,
                phase: IdlePhase::Enter,
            },
            BusOp::Enter(timeout_ms),
        )
    }

    /// Of `n` probes, the last `consec` ones and no more have found the line idle, and
    /// the card has not settled at any of them.
    pub open spec fn counts(self, start: BusState, n: int) -> bool {
        let line = start.line;
        let from = start.pos;
        &&& self.consec < self.limits.target()
        &&& self.consec <= n
        &&& forall|i: int| n - self.consec <= i < n ==> #[trigger] idle_probe(line, from, i)
        &&& self.consec < n ==> !idle_probe(line, from, n - self.consec - 1)
        &&& forall|j: int| 0 <= j < n ==> !#[trigger] settled(line, from, j, self.limits.target())
    }
}

/// All bytes of a probe are idle.
fn all_idle(probe: &Vec<u8>) -> (idle: bool)
    ensures
        idle == forall|k: int| 0 <= k < probe@.len() ==> probe@[k] == 0xFF,
{
    let mut i: usize = 0;
    while i < probe.len()
        invariant
            i <= probe@.len(),
            forall|k: int| 0 <= k < i ==> probe@[k] == 0xFF,
        decreases probe@.len() - i,
    {
        if probe[i] != 0xFF {
            return false;
        }
        i = i + 1;
    }
    true
}

/// One more probe.
proof fn lemma_probed(start: BusState, n: int, waits: int)
    requires
        n >= 0,
    ensures
        probed(start, 0, 0) == start,
        probed(start, n, waits).after_sending(bus::idle_bytes(8)) == probed(start, n + 1, waits),
{
    assert(start.sent + bus::idle_bytes(0) =~= start.sent);
    bus::lemma_sent(start, bus::idle_bytes((8 * n) as nat), bus::idle_bytes(8));
    bus::lemma_idle_bytes((8 * n) as nat, 8);
}

/// One more probe is counted: the card has settled now, or the count goes on.
proof fn lemma_counted(m: WaitIdle, start: BusState, n: int, idle: bool)
    requires
        n >= 0,
        m.counts(start, n),
        idle == idle_probe(start.line, start.pos, n),
    ensures
        idle && m.consec + 1 >= m.limits.target() ==> settles_at(
            start.line,
            start.pos,
            n,
            m.limits.target(),
        ),
        idle && m.consec + 1 < m.limits.target() ==> (WaitIdle {
            consec: (m.consec + 1) as u32,
            ..m
        }).counts(start, n + 1),
        !idle ==> (WaitIdle { consec: 0, ..m }).counts(start, n + 1),
{
    let line = start.line;
    let from = start.pos;
    let target = m.limits.target();
    if idle && m.consec + 1 >= target {
        assert(settled(line, from, n, target));
    } else if idle {
        if settled(line, from, n, target) {
            assert(n - target < n - m.consec - 1);
            assert(idle_probe(line, from, n - m.consec - 1));
        }
        assert forall|j: int| 0 <= j < n + 1 implies !#[trigger] settled(line, from, j, target) by {
        }
    } else {
        assert(settled(line, from, n, target) ==> idle_probe(line, from, n));
        assert forall|j: int| 0 <= j < n + 1 implies !#[trigger] settled(line, from, j, target) by {
        }
    }
}

impl BusMachine for WaitIdle {
    type Task = IdleTask;

    type Value = ();

    open spec fn task(self) -> IdleTask {
        self.limits
    }

    open spec fn wf(self) -> bool {
        true
    }

    open spec fn pending(self) -> Act {
        match self.phase {
            IdlePhase::Enter => Act::Enter(self.limits.timeout_ms),
            IdlePhase::Acquire => Act::Acquire,
            IdlePhase::Select => Act::SelectLow,
            IdlePhase::Probe => Act::Transfer(8),
            IdlePhase::Release(_) => Act::Release,
            IdlePhase::Wait => Act::Delay(1000),
            IdlePhase::Leave => Act::Leave,
        }
    }

    open spec fn reached(self, start: BusState, now: BusState) -> bool {
        let n = (now.pos - start.pos) / 8;
        let bounds = start.bounds.push(self.limits.timeout_ms);
        let free = BusState { bounds, ..probed(start, n, n) };
        let tried = BusState { bounds, ..probed(start, n, n - 1) };
        &&& !start.held && !start.selected
        &&& n >= 0
        &&& match self.phase {
            IdlePhase::Enter => now == start && self.consec == 0,
            IdlePhase::Acquire => now == free && self.counts(start, n),
            IdlePhase::Select => now == (BusState { held: true, ..free }) && self.counts(start, n),
            IdlePhase::Probe => now == (BusState { held: true, selected: true, ..free })
                && self.counts(start, n),
            IdlePhase::Release(idle) => {
                &&& n >= 1
                &&& now == (BusState { held: true, selected: true, ..tried })
                &&& self.counts(start, n - 1)
                &&& idle == idle_probe(start.line, start.pos, n - 1)
            },
            IdlePhase::Wait => n >= 1 && now == tried && self.counts(start, n),
            IdlePhase::Leave => n >= 1 && now == tried && settles_at(
                start.line,
                start.pos,
                n - 1,
                self.limits.target(),
            ),
        }
    }

    open spec fn bounded(self) -> bool {
        match self.phase {
            IdlePhase::Enter => false,
            _ => true,
        }
    }

    fn is_bounded(&self) -> (b: bool) {
        match self.phase {
            IdlePhase::Enter => false,
            _ => true,
        }
    }

    proof fn lemma_bounds(self, start: BusState, now: BusState) {
    }

    open spec fn overdue(task: IdleTask) -> Error {
        Error::Timeout
    }

    open spec fn possible(task: IdleTask, value: ()) -> bool {
        true
    }

    open spec fn outcome(
        task: IdleTask,
        start: BusState,
        end: BusState,
        out: Result<(), Error>,
    ) -> bool {
        &&& out is Ok
        &&& exists|k: int| wait_ends(task, start, end, k)
    }

    fn step(self, reply: BusReply) -> (next: BusStep<Self, ()>) {
        let ghost m = self;
        let limits: IdleTask = self.limits;
        let consec: u32 = self.consec;
        let bytes: Vec<u8> = match reply {
            BusReply::Failed => {
                return BusStep::Done(
                    Err(
                        match self.phase {
                            IdlePhase::Acquire => Error::BusUnavailable,
                            IdlePhase::Select => Error::ChipSelect,
                            _ => Error::SpiError,
                        },
                    ),
                );
            },
            BusReply::Expired => {
                return BusStep::Done(Err(Error::Timeout));
            },
            BusReply::Bytes(bytes) => bytes,
            BusReply::Done => Vec::new(),
        };
        match self.phase {
            IdlePhase::Enter => {
                assert forall|start: BusState, now: BusState|
                    #![trigger m.reached(start, now)]
                    m.reached(start, now) implies probed(start, 0, 0) == start by {
                    lemma_probed(start, 0, 0);
                }
                BusStep::Do(
                    WaitIdle { limits, consec, phase: IdlePhase::Acquire },
                    BusOp::Acquire,
                )
            },
            IdlePhase::Acquire => BusStep::Do(
                WaitIdle { limits, consec, phase: IdlePhase::Select },
                BusOp::SelectLow,
            ),
            IdlePhase::Select => BusStep::Do(
                WaitIdle { limits, consec, phase: IdlePhase::Probe },
                BusOp::Transfer(8),
            ),
            IdlePhase::Probe => {
                let idle: bool = all_idle(&bytes);
                assert forall|start: BusState, now: BusState|
                    #![trigger m.reached(start, now)]
                    m.reached(start, now) && bytes@ == now.incoming(
                        now.pos,
                        now.pos + 8,
                    ) implies ({
                    let n = (now.pos - start.pos) / 8;
                    &&& probed(start, n, n).after_sending(bus::idle_bytes(8)) == probed(
                        start,
                        n + 1,
                        n,
                    )
                    &&& now.pos == start.pos + 8 * n
                    &&& idle == idle_probe(start.line, start.pos, n)
                }) by {
                    let n = (now.pos - start.pos) / 8;
                    lemma_probed(start, n, n);
                    assert forall|i: int| now.pos <= i < now.pos + 8 implies #[trigger] (start.line)(
                        i,
                    ) == bytes@[i - now.pos] by {}
                    if !idle {
                        let k = choose|k: int| 0 <= k < 8 && bytes@[k] != 0xFF;
                        assert((start.line)(now.pos + k) == bytes@[k]);
                    }
                }
                BusStep::Do(
                    WaitIdle { limits, consec, phase: IdlePhase::Release(idle) },
                    BusOp::Release,
                )
            },
            IdlePhase::Release(idle) => {
                assert forall|start: BusState, now: BusState|
                    #![trigger m.reached(start, now)]
                    m.reached(start, now) implies ({
                    let n = (now.pos - start.pos) / 8;
                    &&& idle && m.consec + 1 >= m.limits.target() ==> settles_at(
                        start.line,
                        start.pos,
                        n - 1,
                        m.limits.target(),
                    )
                    &&& idle && m.consec + 1 < m.limits.target() ==> (WaitIdle {
                        consec: (m.consec + 1) as u32,
                        ..m
                    }).counts(start, n)
                    &&& !idle ==> (WaitIdle { consec: 0, ..m }).counts(start, n)
                }) by {
                    let n = (now.pos - start.pos) / 8;
                    lemma_counted(m, start, n - 1, idle);
                }
                if !idle {
                    return BusStep::Do(
                        WaitIdle { limits, consec: 0, phase: IdlePhase::Wait },
                        BusOp::DelayMs(1),
                    );
                }
                let target: u32 = if limits.sustained == 0 {
                    1
                } else {
                    limits.sustained
                };
                let consec: u32 = consec.wrapping_add(1);
                if consec >= target {
                    return BusStep::Do(
                        WaitIdle { limits, consec, phase: IdlePhase::Leave },
                        BusOp::Leave,
                    );
                }
                BusStep::Do(
                    WaitIdle { limits, consec, phase: IdlePhase::Wait },
                    BusOp::DelayMs(1),
                )
            },
            IdlePhase::Wait => BusStep::Do(
                WaitIdle { limits, consec, phase: IdlePhase::Acquire },
                BusOp::Acquire,
            ),
            IdlePhase::Leave => {
                assert forall|start: BusState, now: BusState|
                    #![trigger m.reached(start, now)]
                    m.reached(start, now) implies Self::outcome(
                    limits,
                    start,
                    now.serve(Act::Leave).0,
                    Ok(()),
                ) by {
                    let n = (now.pos - start.pos) / 8;
                    assert(start.bounds.push(limits.timeout_ms).drop_last() =~= start.bounds);
                    assert(wait_ends(limits, start, now.serve(Act::Leave).0, n - 1));
                }
                BusStep::Done(Ok(()))
            },
        }
    }
}

/// What a wait comes to: the line is probed eight bytes at a time, with a millisecond between
/// the probes, until as many of them in a row as are asked for, and one at least, have read
/// nothing but idle bytes. It ends with the first probe at which that is so, and leaves the bus
/// as it was.
pub proof fn law_a_wait_ends_when_the_line_was_idle(
    task: IdleTask,
    start: BusState,
    end: BusState,
    out: Result<(), Error>,
)
    requires
        WaitIdle::outcome(task, start, end, out),
    ensures
        out is Ok,
        ({
            let needed = 8 * if task.sustained == 0 {
                1int
            } else {
                task.sustained as int
            };
            let taken = end.pos - start.pos;
            &&& taken % 8 == 0 && needed <= taken
            &&& forall|i: int| end.pos - needed <= i < end.pos ==> #[trigger] (start.line)(i) == 0xFF
            &&& forall|n: int|
                #![trigger idle_run(start, needed, n)]
                n % 8 == 0 && needed <= n < taken ==> !idle_run(start, needed, n)
            &&& end.waited == start.waited + 1000 * (taken / 8 - 1)
            &&& end.sent.len() == start.sent.len() + taken
            &&& end.sent.take(start.sent.len() as int) == start.sent
            &&& forall|i: int|
                0 <= i < taken ==> #[trigger] end.sent[start.sent.len() + i] == 0xFF
            &&& end.line == start.line && end.held == start.held
            &&& end.selected == start.selected && end.bounds == start.bounds
        }),
{
    let target = task.target();
    let k = choose|k: int| wait_ends(task, start, end, k);
    assert(wait_ends(task, start, end, k));
    assert(end.sent.take(start.sent.len() as int) =~= start.sent);
    assert forall|i: int| end.pos - 8 * target <= i < end.pos implies #[trigger] (start.line)(i)
        == 0xFF by {
        let p = (i - start.pos) / 8;
        assert(idle_probe(start.line, start.pos, p));
    }
    assert forall|n: int|
        #![trigger idle_run(start, 8 * target, n)]
        n % 8 == 0 && 8 * target <= n < end.pos - start.pos implies !idle_run(
        start,
        8 * target,
        n,
    ) by {
        let j = n / 8 - 1;
        assert(!settled(start.line, start.pos, j, target));
        let i = choose|i: int|
            j - target < i <= j && !#[trigger] idle_probe(start.line, start.pos, i);
        let b = choose|b: int|
            start.pos + 8 * i <= b < start.pos + 8 * i + 8 && #[trigger] (start.line)(b) != 0xFF;
        assert(start.pos + n - 8 * target <= b < start.pos + n);
        assert((start.line)(b) != 0xFF);
    }
}

/// The last `needed` of the first `n` bytes are idle.
pub open spec fn idle_run(start: BusState, needed: int, n: int) -> bool {
    forall|i: int|
        start.pos + n - needed <= i < start.pos + n ==> #[trigger] (start.line)(i) == 0xFF
}

/// A wait has the time that it was given, takes the bus and selects the card for each probe, and
/// gives the bus back behind it.
pub proof fn law_a_wait_has_its_time(task: IdleTask, consec: u32, idle: bool)
    ensures
        (WaitIdle { limits: task, consec, phase: IdlePhase::Enter }).pending() == Act::Enter(
            task.timeout_ms,
        ),
        (WaitIdle { limits: task, consec, phase: IdlePhase::Acquire }).pending() == Act::Acquire,
        (WaitIdle { limits: task, consec, phase: IdlePhase::Select }).pending() == Act::SelectLow,
        (WaitIdle { limits: task, consec, phase: IdlePhase::Probe }).pending() == Act::Transfer(8),
        (WaitIdle { limits: task, consec, phase: IdlePhase::Release(idle) }).pending()
            == Act::Release,
        (WaitIdle { limits: task, consec, phase: IdlePhase::Wait }).pending() == Act::Delay(1000),
        WaitIdle::overdue(task) == Error::Timeout,
        !(WaitIdle { limits: task, consec, phase: IdlePhase::Enter }).bounded(),
        (WaitIdle { limits: task, consec, phase: IdlePhase::Acquire }).bounded(),
        (WaitIdle { limits: task, consec, phase: IdlePhase::Probe }).bounded(),
        (WaitIdle { limits: task, consec, phase: IdlePhase::Wait }).bounded(),
{
}

/// A wait goes on only while the line was not idle for long enough: where it still probes, no
/// probes so far have been what it waits for.
pub proof fn law_a_wait_goes_on_only_while_the_card_is_busy(
    m: WaitIdle,
    start: BusState,
    now: BusState,
    n: int,
)
    requires
        m.reached(start, now),
        m.phase is Acquire || m.phase is Select || m.phase is Probe || m.phase is Wait,
        n % 8 == 0,
        n <= now.pos - start.pos,
        n >= 8 * if m.limits.sustained == 0 {
            1int
        } else {
            m.limits.sustained as int
        },
    ensures
        !idle_run(
            start,
            8 * if m.limits.sustained == 0 {
                1int
            } else {
                m.limits.sustained as int
            },
            n,
        ),
{
    let target = m.limits.target();
    let j = n / 8 - 1;
    assert(!settled(start.line, start.pos, j, target));
    let i = choose|i: int| j - target < i <= j && !#[trigger] idle_probe(start.line, start.pos, i);
    let b = choose|b: int|
        start.pos + 8 * i <= b < start.pos + 8 * i + 8 && #[trigger] (start.line)(b) != 0xFF;
    assert(start.pos + n - 8 * target <= b < start.pos + n);
    assert((start.line)(b) != 0xFF);
}

} // verus!
