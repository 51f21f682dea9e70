//! The driver of a card.

use vstd::prelude::*;

use crate::sd::bus;
use crate::sd::bus::{Act, BusMachine, BusOp, BusReply, BusState, BusStep};
use crate::sd::card;
use crate::sd::card::Card;
use crate::sd::errand::{Errand, ErrandRun};
use crate::sd::exchange::CardMachine;
use crate::sd::init::{InitRun, InitStage};
use crate::sd::response::Error;
use crate::sd::session;
use crate::sd::session::{Origin, Session, SessionStep};

verus! {

/// Stretch a wall-clock bound when the program is being interpreted.
///
/// Every timeout of the driver measures real time, which is no measure of progress where
/// a program runs a hundred times slower.
pub fn wall(ms: u32, interpreted: bool) -> (bound: u32)
    ensures
        bound == if !interpreted {
            ms as int
        } else if ms * 100 > u32::MAX {
            u32::MAX as int
        } else {
            ms * 100
        },
{
    if !interpreted {
        return ms;
    }
    match ms.checked_mul(100) {
        Some(bound) => bound,
        None => u32::MAX,
    }
}

/// Where powering a card on stands.
pub enum PowerPhase {
    /// Deselecting the card.
    Deselect,
    /// Clocking the bus.
    Clock,
}

/// Clocks the bus with the card deselected, which a card needs behind power-up.
pub struct PowerOn {
    pub phase: PowerPhase,
}

/// The number of bytes that a card is clocked for.
pub const FLUSH: usize = 256;

/// Must be run between powerup and bringing the card up with [`SdSpi::init`].
pub fn sd_init() -> (first: (PowerOn, BusOp))
    ensures
        first.0.wf(),
        first.1@ == Act::SelectHigh,
        first.0.pending() == first.1@,
        forall|s: BusState| #[trigger] first.0.reached(s, s),
{
    (PowerOn { phase: PowerPhase::Deselect }, BusOp::SelectHigh)
}

/// Idle bytes to be sent.
fn make_idle_bytes(n: usize) -> (bytes: Vec<u8>)
    ensures
        bytes@ == bus::idle_bytes(n as nat),
{
    let mut bytes: Vec<u8> = Vec::new();
    let mut i: usize = 0;
    while i < n
        invariant
            i <= n,
            bytes@ == bus::idle_bytes(i as nat),
        decreases n - i,
    {
        bytes.push(0xFF);
        i = i + 1;
        assert(bytes@ =~= bus::idle_bytes(i as nat));
    }
    bytes
}

impl BusMachine for PowerOn {
    type Task = ();

    type Value = ();

    open spec fn task(self) -> () {
        ()
    }

    open spec fn wf(self) -> bool {
        true
    }

    open spec fn pending(self) -> Act {
        match self.phase {
            PowerPhase::Deselect => Act::SelectHigh,
            PowerPhase::Clock => Act::Write(bus::idle_bytes(FLUSH as nat)),
        }
    }

    open spec fn reached(self, start: BusState, now: BusState) -> bool {
        match self.phase {
            PowerPhase::Deselect => now == start,
            PowerPhase::Clock => now == (BusState { selected: false, ..start }),
        }
    }

    open spec fn bounded(self) -> bool {
        false
    }

    fn is_bounded(&self) -> (b: bool) {
        false
    }

    proof fn lemma_bounds(self, start: BusState, now: BusState) {
    }

    open spec fn overdue(task: ()) -> Error {
        Error::Timeout
    }

    open spec fn possible(task: (), value: ()) -> bool {
        true
    }

    open spec fn outcome(task: (), start: BusState, end: BusState, out: Result<(), Error>) -> bool {
        &&& out is Ok
        &&& end == (BusState { selected: false, ..start }).after_sending(
            bus::idle_bytes(FLUSH as nat),
        )
    }

    fn step(self, reply: BusReply) -> (next: BusStep<Self, ()>) {
        match (self.phase, reply) {
            (PowerPhase::Deselect, BusReply::Failed) => BusStep::Done(Err(Error::ChipSelect)),
            (PowerPhase::Clock, BusReply::Failed) => BusStep::Done(Err(Error::SpiError)),
            (_, BusReply::Expired) => BusStep::Done(Err(Error::Timeout)),
            (PowerPhase::Deselect, _) => BusStep::Do(
                PowerOn { phase: PowerPhase::Clock },
                BusOp::Write(make_idle_bytes(FLUSH)),
            ),
            (PowerPhase::Clock, _) => BusStep::Done(Ok(())),
        }
    }
}

/// The driver: the arbiter of the bus, a timer, and the card that was brought up.
pub struct SdSpi<A, D> {
    bus: A,
    delay: D,
    card: Option<Card>,
}

/// A session has begun, with these blocks: it can be run from any state in which the bus is
/// free.
pub open spec fn begun<M: CardMachine>(m: Session<M>, op: BusOp, blocks: Seq<Seq<u8>>) -> bool {
    &&& m.wf()
    &&& m.pending() == op@
    &&& session::contents(m.blocks@) == blocks
    &&& forall|s: BusState|
        !s.held && !s.selected ==> #[trigger] m.reached(
            Origin { machine: m.outer, state: s, blocks },
            s,
        )
}

/// Blocks to be received into.
fn make_blocks(count: usize) -> (blocks: Vec<Vec<u8>>)
    ensures
        blocks@.len() == count,
        session::contents(blocks@) == Seq::new(count as nat, |i: int| Seq::<u8>::empty()),
{
    let mut blocks: Vec<Vec<u8>> = Vec::new();
    let mut i: usize = 0;
    while i < count
        invariant
            i <= count,
            blocks@.len() == i,
            forall|k: int| 0 <= k < i ==> (#[trigger] blocks@[k])@ == Seq::<u8>::empty(),
        decreases count - i,
    {
        blocks.push(Vec::new());
        i = i + 1;
    }
    assert(session::contents(blocks@) =~= Seq::new(count as nat, |i: int| Seq::<u8>::empty()));
    blocks
}

impl<A, D> SdSpi<A, D> {
    /// The arbiter of the bus.
    pub closed spec fn arbiter(self) -> A {
        self.bus
    }

    /// The timer.
    pub closed spec fn timer(self) -> D {
        self.delay
    }

    /// The card that was brought up.
    pub closed spec fn known(self) -> Option<Card> {
        self.card
    }

    /// A driver without a card.
    pub fn new(bus: A, delay: D) -> (driver: SdSpi<A, D>)
        ensures
            driver.arbiter() == bus,
            driver.timer() == delay,
            driver.known() is None,
    {
        SdSpi { bus, delay, card: None }
    }

    /// The arbiter, NOT the bus: callers can reach board-level settings without gaining a
    /// way to talk to the card unlocked.
    pub fn bus(&self) -> (bus: &A)
        ensures
            *bus == self.arbiter(),
    {
        &self.bus
    }

    /// The timer.
    pub fn delay(&self) -> (delay: &D)
        ensures
            *delay == self.timer(),
    {
        &self.delay
    }

    /// The card that was brought up.
    pub fn card(&self) -> (card: Option<Card>)
        ensures
            card == self.known(),
    {
        self.card
    }

    /// Bring the card up. What comes of it is handed to [`SdSpi::finish_init`].
    ///
    /// [`sd_init`] must be run between powerup and this.
    pub fn init(&mut self) -> (first: (Session<InitRun>, BusOp))
        ensures
            *final(self) == *old(self),
            first.0.outer == (InitRun {
                rca: match old(self).known() {
                    Some(card) => card.rca as u16,
                    None => 0,
                },
                stage: InitStage::Settle,
                card: card::blank_card(),
            }),
            begun(first.0, first.1, Seq::empty()),
    {
        let rca: u16 = match self.card {
            Some(card) => #[verifier::truncate] (card.rca as u16),
            None => 0,
        };
        let blocks: Vec<Vec<u8>> = Vec::new();
        assert(session::contents(blocks@) =~= Seq::empty());
        Session::begin(InitRun::begin(rca), blocks, 0)
    }

    /// Keep the card that was brought up. A card that was there before stays where
    /// bringing it up has failed.
    pub fn finish_init(&mut self, out: Result<Card, Error>) -> (done: Result<(), Error>)
        ensures
            final(self).arbiter() == old(self).arbiter(),
            final(self).timer() == old(self).timer(),
            match out {
                Ok(card) => final(self).known() == Some(card) && done is Ok,
                Err(e) => final(self).known() == old(self).known() && done == Err::<(), Error>(e),
            },
    {
        match out {
            Ok(card) => {
                self.card = Some(card);
                Ok(())
            },
            Err(e) => Err(e),
        }
    }

    /// Read `count` blocks of `size` bytes, from `block_address` on.
    pub fn read(&mut self, block_address: u32, count: usize, size: usize) -> (first: (
        Session<ErrandRun>,
        BusOp,
    ))
        requires
            block_address + count <= 0x1_0000_0000,
        ensures
            *final(self) == *old(self),
            first.0.outer.errand == (Errand::Read { address: block_address, count }),
            first.0.outer.at() == 0,
            first.0.size == size,
            begun(first.0, first.1, Seq::new(count as nat, |i: int| Seq::empty())),
    {
        let blocks: Vec<Vec<u8>> = make_blocks(count);
        let errand: Errand = Errand::Read { address: block_address, count };
        Session::begin(ErrandRun::begin(errand), blocks, size)
    }

    /// Write blocks, from `block_address` on.
    pub fn write(&mut self, block_address: u32, data: Vec<Vec<u8>>) -> (first: (
        Session<ErrandRun>,
        BusOp,
    ))
        requires
            block_address + data@.len() <= 0x1_0000_0000,
        ensures
            *final(self) == *old(self),
            first.0.outer.errand == (Errand::Write {
                address: block_address,
                count: data@.len() as usize,
            }),
            first.0.outer.at() == 0,
            begun(first.0, first.1, session::contents(data@)),
    {
        let errand: Errand = Errand::Write { address: block_address, count: data.len() };
        Session::begin(ErrandRun::begin(errand), data, 0)
    }

    /// The size of the card, in bytes.
    pub fn size(&mut self) -> (bytes: Result<u64, Error>)
        ensures
            *final(self) == *old(self),
            match old(self).known() {
                Some(card) => bytes matches Ok(n) && n == card::blocks_of(card.csd) * 512,
                None => bytes == Err::<u64, Error>(Error::NotInitialized),
            },
    {
        match self.card {
            Some(card) => Ok(card.size()),
            None => Err(Error::NotInitialized),
        }
    }

    /// Erase blocks in the range `[start_block, end_block]` (inclusive).
    ///
    /// After the erase, blocks contain 0x00 or 0xFF depending on the card.
    pub fn erase(&mut self, start_block: u32, end_block: u32) -> (first: SessionStep<
        ErrandRun,
        (),
    >)
        ensures
            *final(self) == *old(self),
            match old(self).known() {
                Some(_) => first matches SessionStep::Do(m, op) && {
                    &&& m.outer.errand == (Errand::Erase { first: start_block, last: end_block })
                    &&& m.outer.at() == 0
                    &&& begun(m, op, Seq::empty())
                },
                None => first matches SessionStep::Done(Err(e), _) && e == Error::NotInitialized,
            },
    {
        let blocks: Vec<Vec<u8>> = Vec::new();
        assert(session::contents(blocks@) =~= Seq::empty());
        match self.card {
            Some(_) => {
                let errand: Errand = Errand::Erase { first: start_block, last: end_block };
                let (session, op): (Session<ErrandRun>, BusOp) = Session::begin(
                    ErrandRun::begin(errand),
                    blocks,
                    0,
                );
                SessionStep::Do(session, op)
            },
            None => SessionStep::Done(Err(Error::NotInitialized), blocks),
        }
    }
}

/// Powering a card on deselects it and sends it 256 idle bytes, and does nothing else.
pub proof fn law_power_on_sends_idle_bytes(start: BusState, end: BusState, out: Result<(), Error>)
    requires
        PowerOn::outcome((), start, end, out),
    ensures
        out is Ok,
        !end.selected,
        end.pos == start.pos + 256,
        end.sent.len() == start.sent.len() + 256,
        end.sent.take(start.sent.len() as int) == start.sent,
        forall|i: int| 0 <= i < 256 ==> #[trigger] end.sent[start.sent.len() + i] == 0xFF,
        end.line == start.line && end.held == start.held && end.bounds == start.bounds,
        end.waited == start.waited,
{
    assert(end.sent.take(start.sent.len() as int) =~= start.sent);
}

/// Powering a card on is two operations.
pub proof fn law_power_on_is_two_operations(m: PowerOn, start: BusState, now: BusState)
    requires
        m.reached(start, now),
    ensures
        now.pos == start.pos && now.sent == start.sent,
        m.phase is Deselect ==> now == start && m.pending() is SelectHigh,
        m.phase is Clock ==> !now.selected && (m.pending() matches Act::Write(bytes) && bytes.len()
            == 256 && (forall|i: int| 0 <= i < 256 ==> #[trigger] bytes[i] == 0xFF)),
{
}

/// A session can be begun whenever the bus is free and the card is not selected, whatever has
/// gone over the bus before, and its first operation is the one that it was handed out with.
pub proof fn law_a_session_can_begin_on_every_free_bus<M: CardMachine>(
    m: Session<M>,
    op: BusOp,
    blocks: Seq<Seq<u8>>,
    s: BusState,
)
    requires
        begun(m, op, blocks),
        !s.held,
        !s.selected,
    ensures
        m.wf(),
        m.reached(Origin { machine: m.outer, state: s, blocks }, s),
        m.pending() == op@,
        m.blocks@.len() == blocks.len(),
        forall|i: int| 0 <= i < blocks.len() ==> (#[trigger] m.blocks@[i])@ == blocks[i],
{
    assert forall|i: int| 0 <= i < blocks.len() implies (#[trigger] m.blocks@[i])@
        == blocks[i] by {
        assert(session::contents(m.blocks@)[i] == m.blocks@[i]@);
    }
}

} // verus!
