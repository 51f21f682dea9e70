//! Walking along a chain of clusters, and setting it free.

use vstd::prelude::*;

use crate::fat::access;
use crate::fat::access::{
    get_next_cluster, EntryTask, GetRaw, NextCluster, ReadFat, WriteFat, WriteTask,
};
use crate::fat::entry;
use crate::fat::entry::{entry_offset, FatType, FatValue, RESERVED_FAT_ENTRIES};
use crate::fat::laws;
use crate::fat::scan;
use crate::fat::scan::CountTask;
use crate::fat::stream;
use crate::fat::stream::{
    run, FatError, MemStream, Step, StreamMachine, StreamOp, StreamReply, StreamState,
};

verus! {

/// The number of clusters below `end` whose entry points to another one.
pub open spec fn links(fat_type: FatType, bytes: Seq<u8>, end: int) -> nat
    decreases end,
{
    if end <= 0 {
        0
    } else if entry::fits(fat_type, bytes.len(), end - 1) && entry::value(
        fat_type,
        bytes,
        end - 1,
    ) is Data {
        links(fat_type, bytes, end - 1) + 1
    } else {
        links(fat_type, bytes, end - 1)
    }
}

/// Writing to an entry that points to another one takes away one link, if what is
/// written is no link.
pub proof fn lemma_unlink(
    fat_type: FatType,
    bytes: Seq<u8>,
    cluster: int,
    written: FatValue,
    end: int,
)
    requires
        0 <= cluster,
        entry::fits(fat_type, bytes.len(), cluster),
        entry::value(fat_type, bytes, cluster) is Data,
        written is Free || written is EndOfChain,
    ensures
        links(fat_type, entry::put(fat_type, bytes, cluster, written), end) == if cluster < end {
            links(fat_type, bytes, end) - 1
        } else {
            links(fat_type, bytes, end) as int
        },
    decreases end,
{
    if end > 0 {
        lemma_unlink(fat_type, bytes, cluster, written, end - 1);
        let after = entry::put(fat_type, bytes, cluster, written);
        if end - 1 == cluster {
            laws::law_read_gives_what_was_written(fat_type, bytes, cluster, written);
            assert(after.len() == bytes.len()) by {
                laws::lemma_put_keeps_len(fat_type, bytes, cluster, written);
            }
        } else {
            laws::lemma_put_keeps_len(fat_type, bytes, cluster, written);
            if entry::fits(fat_type, bytes.len(), end - 1) {
                laws::law_write_keeps_the_other_entries(
                    fat_type,
                    bytes,
                    cluster,
                    written,
                    end - 1,
                );
            }
        }
    }
}

/// What is left of a table after a chain of it was set free.
pub struct Freed {
    pub bytes: Seq<u8>,
    /// The clusters that were set free.
    pub count: nat,
    /// The cluster outside the table that the chain led to.
    pub stray: Option<u32>,
}

/// Setting the chain free that begins at a cluster.
///
/// It goes on without end where an entry points to one of the reserved clusters, and
/// it is not allowed where the chain leads to a cluster that is never set free: there
/// is no result then.
pub open spec fn freed(fat_type: FatType, bytes: Seq<u8>, at: u32) -> Option<Freed>
    decreases links(fat_type, bytes, bytes.len() as int),
{
    let c = at as int;
    if !entry::fits(fat_type, bytes.len(), c) {
        Some(Freed { bytes, count: 0, stray: Some(at) })
    } else if !access::may_write(fat_type, at, FatValue::Free) {
        None
    } else {
        let after = entry::put(fat_type, bytes, c, FatValue::Free);
        match entry::value(fat_type, bytes, c) {
            FatValue::Data(n) => if n < 2 {
                None
            } else {
                proof {
                    laws::lemma_put_keeps_len(fat_type, bytes, c, FatValue::Free);
                    lemma_unlink(fat_type, bytes, c, FatValue::Free, bytes.len() as int);
                }
                match freed(fat_type, after, n) {
                    Some(rest) => Some(Freed { count: rest.count + 1, ..rest }),
                    None => None,
                }
            },
            _ => Some(Freed { bytes: after, count: 1, stray: None }),
        }
    }
}

/// Cutting a chain off behind a cluster: the cluster ends the chain, and the rest of
/// it is set free.
pub open spec fn cut_off(fat_type: FatType, bytes: Seq<u8>, at: u32) -> Option<Freed> {
    let c = at as int;
    if !entry::fits(fat_type, bytes.len(), c) {
        Some(Freed { bytes, count: 0, stray: Some(at) })
    } else {
        let after = entry::put(fat_type, bytes, c, FatValue::EndOfChain);
        match entry::value(fat_type, bytes, c) {
            FatValue::Data(n) => if n < 2 {
                None
            } else {
                freed(fat_type, after, n)
            },
            _ => Some(Freed { bytes: after, count: 0, stray: None }),
        }
    }
}

/// No more clusters are set free than a table holds.
proof fn lemma_links_bound(fat_type: FatType, bytes: Seq<u8>, end: int)
    ensures
        links(fat_type, bytes, end) <= if end <= 0 {
            0
        } else {
            end
        },
    decreases end,
{
    if end > 0 {
        lemma_links_bound(fat_type, bytes, end - 1);
    }
}

/// No more clusters are set free than there are links, and the last one of a chain.
proof fn lemma_freed_links(fat_type: FatType, bytes: Seq<u8>, at: u32)
    ensures
        freed(fat_type, bytes, at) matches Some(f) ==> {
            &&& f.bytes.len() == bytes.len()
            &&& f.count <= links(fat_type, bytes, bytes.len() as int) + 1
        },
    decreases links(fat_type, bytes, bytes.len() as int),
{
    let c = at as int;
    if entry::fits(fat_type, bytes.len(), c) {
        let after = entry::put(fat_type, bytes, c, FatValue::Free);
        laws::lemma_put_keeps_len(fat_type, bytes, c, FatValue::Free);
        if let FatValue::Data(n) = entry::value(fat_type, bytes, c) {
            lemma_unlink(fat_type, bytes, c, FatValue::Free, bytes.len() as int);
            lemma_freed_links(fat_type, after, n);
        }
    }
}

/// The clusters that are set free can be counted by a `u32`.
proof fn lemma_freed_bound(fat_type: FatType, bytes: Seq<u8>, at: u32)
    requires
        bytes.len() <= u32::MAX,
    ensures
        freed(fat_type, bytes, at) matches Some(f) ==> f.count <= u32::MAX,
        cut_off(fat_type, bytes, at) matches Some(f) ==> f.count <= u32::MAX,
{
    let len = bytes.len() as int;
    if entry::fits(fat_type, bytes.len(), at as int) {
        lemma_freed_links(fat_type, bytes, at);
        lemma_links_bound(fat_type, bytes, len - 1);
        assert(!entry::fits(fat_type, bytes.len(), len - 1));
        assert(links(fat_type, bytes, len) == links(fat_type, bytes, len - 1));
        let after = entry::put(fat_type, bytes, at as int, FatValue::EndOfChain);
        laws::lemma_put_keeps_len(fat_type, bytes, at as int, FatValue::EndOfChain);
        lemma_links_bound(fat_type, after, len - 1);
        assert(links(fat_type, after, len) == links(fat_type, after, len - 1));
        if let FatValue::Data(n) = entry::value(fat_type, bytes, at as int) {
            lemma_freed_links(fat_type, after, n);
        }
    }
}

/// A chain to be set free, or to be cut off behind its first cluster.
#[derive(Copy, Clone)]
pub struct ReleaseTask {
    pub fat_type: FatType,
    pub from: u32,
    /// The first cluster stays, as the end of its chain.
    pub keep: bool,
    /// Reading the entry of the first cluster has failed before.
    pub err: bool,
}

impl ReleaseTask {
    /// What is left of a table. There is no result where the chain cannot be set
    /// free, and where its first entry can be written but was not readable: that
    /// entry would be written without end.
    pub open spec fn plan(self, bytes: Seq<u8>) -> Option<Freed> {
        if self.err {
            if entry::fits(self.fat_type, bytes.len(), self.from as int) {
                None
            } else {
                Some(Freed { bytes, count: 0, stray: Some(self.from) })
            }
        } else if self.keep {
            cut_off(self.fat_type, bytes, self.from)
        } else {
            freed(self.fat_type, bytes, self.from)
        }
    }
}

/// What comes of setting a chain free.
pub enum Released<E> {
    /// It is over: the number of clusters that were set free, or why it stopped, the
    /// cluster where it stopped, and whether an entry could not be read.
    Ended { result: Result<u32, FatError<E>>, cluster: Option<u32>, err: bool },
    /// The chain has come to this cluster, which is never set free.
    Forbidden(u32),
}

/// How a plan is reported.
pub open spec fn report<E>(plan: Freed) -> Released<E> {
    Released::Ended {
        result: if plan.stray is None {
            Ok(plan.count as u32)
        } else {
            Err(FatError::UnexpectedEof)
        },
        cluster: plan.stray,
        err: plan.stray is Some,
    }
}

/// Where setting a chain free stands.
pub enum ReleasePhase {
    /// Reading where the chain goes on.
    Next(NextCluster),
    /// Writing the entry of the cluster.
    Write(WriteFat),
    /// Reading an entry that is never set free.
    Probe(GetRaw),
}

/// How far setting a chain free has come.
#[derive(Copy, Clone)]
pub struct ReleaseState {
    pub task: ReleaseTask,
    /// The cluster that is dealt with.
    pub cluster: u32,
    /// It stays, as the end of its chain.
    pub keeping: bool,
    /// The cluster after it.
    pub next: Option<u32>,
    /// An entry could not be read.
    pub err: bool,
    pub num_free: u32,
}

/// Sets a chain free.
pub struct ReleaseChain {
    pub state: ReleaseState,
    pub phase: ReleasePhase,
}

impl ReleaseState {
    /// What is written to the entry.
    pub open spec fn value(self) -> FatValue {
        if self.keeping {
            FatValue::EndOfChain
        } else {
            FatValue::Free
        }
    }

    /// What is left of a table, from the cluster on.
    pub open spec fn rest(self, bytes: Seq<u8>) -> Option<Freed> {
        if self.keeping {
            cut_off(self.task.fat_type, bytes, self.cluster)
        } else {
            freed(self.task.fat_type, bytes, self.cluster)
        }
    }

    /// What was planned for the table as it was at first is what is done so far and
    /// what is left.
    pub open spec fn on_plan(self, first: Seq<u8>, now: Seq<u8>) -> bool {
        let rest = if self.err {
            Some(Freed { bytes: now, count: 0, stray: Some(self.cluster) })
        } else {
            self.rest(now)
        };
        &&& now.len() == first.len()
        &&& self.err ==> !entry::fits(self.task.fat_type, now.len(), self.cluster as int)
        &&& self.task.plan(first) matches Some(all)
        &&& rest matches Some(left)
        &&& all == (Freed { count: left.count + self.num_free as nat, ..left })
    }

    /// The entry of the cluster is to be written next. One that is never set free is only
    /// read.
    pub open spec fn begins_to_write<E>(self, step: Step<ReleaseChain, Released<E>>) -> bool {
        &&& step matches Step::Do(m, op)
        &&& m.state == self
        &&& op == StreamOp::SeekTo(entry::offset(self.task.fat_type, self.cluster as int) as u64)
        &&& <ReleaseChain as StreamMachine<E>>::pending(m) == op
        &&& match m.phase {
            ReleasePhase::Next(_) => false,
            ReleasePhase::Write(write) => {
                &&& access::may_write(self.task.fat_type, self.cluster, self.value())
                &&& <WriteFat as StreamMachine<E>>::task(write) == WriteTask {
                    fat_type: self.task.fat_type,
                    cluster: self.cluster,
                    value: self.value(),
                }
                &&& forall|s: StreamState| #[trigger]
                    <WriteFat as StreamMachine<E>>::reached(write, s, s)
                &&& forall|s: StreamState| #[trigger]
                    <WriteFat as StreamMachine<E>>::remaining(write, s) <= 4
            },
            ReleasePhase::Probe(probe) => {
                &&& !access::may_write(self.task.fat_type, self.cluster, self.value())
                &&& probe == (GetRaw {
                    fat_type: self.task.fat_type,
                    cluster: self.cluster,
                    sought: false,
                })
            },
        }
    }

    /// Write the entry of the cluster.
    fn write<E>(self) -> (step: Step<ReleaseChain, Released<E>>)
        ensures
            self.begins_to_write(step),
    {
        let fat_type: FatType = self.task.fat_type;
        let cluster: u32 = self.cluster;
        let value: FatValue = if self.keeping {
            FatValue::EndOfChain
        } else {
            FatValue::Free
        };
        let special: bool = match fat_type {
            FatType::Fat32 => 0x0FFF_FFF7 <= cluster && cluster <= 0x0FFF_FFFF,
            _ => false,
        };
        if special && !self.keeping {
            return Step::Do(
                ReleaseChain {
                    state: self,
                    phase: ReleasePhase::Probe(GetRaw { fat_type, cluster, sought: false }),
                },
                StreamOp::SeekTo(entry_offset(fat_type, cluster)),
            );
        }
        let (write, op): (WriteFat, StreamOp) = WriteFat::begin(fat_type, cluster, value);
        Step::Do(ReleaseChain { state: self, phase: ReleasePhase::Write(write) }, op)
    }

    /// Read the entry of the cluster, or go on to write it where no entry can be
    /// read.
    fn read<E>(self) -> (step: Step<ReleaseChain, Released<E>>)
        ensures
            self.err ==> self.begins_to_write(step),
            !self.err ==> (step matches Step::Do(m, op) && {
                &&& m.state == self
                &&& m.phase == ReleasePhase::Next(
                    NextCluster {
                        read: access::ReadFat {
                            raw: GetRaw {
                                fat_type: self.task.fat_type,
                                cluster: self.cluster,
                                sought: false,
                            },
                        },
                    },
                )
                &&& op == StreamOp::SeekTo(
                    entry::offset(self.task.fat_type, self.cluster as int) as u64,
                )
            }),
    {
        if self.err {
            return self.write();
        }
        let fat_type: FatType = self.task.fat_type;
        let cluster: u32 = self.cluster;
        Step::Do(
            ReleaseChain {
                state: self,
                phase: ReleasePhase::Next(
                    NextCluster {
                        read: ReadFat { raw: GetRaw { fat_type, cluster, sought: false } },
                    },
                ),
            },
            StreamOp::SeekTo(entry_offset(fat_type, cluster)),
        )
    }
}

/// The entry of a cluster is written, and the plan goes on with the next cluster.
proof fn lemma_written(state: ReleaseState, first: Seq<u8>, now: Seq<u8>)
    requires
        first.len() <= u32::MAX,
        state.on_plan(first, now),
        !state.err,
        entry::fits(state.task.fat_type, now.len(), state.cluster as int),
        access::may_write(state.task.fat_type, state.cluster, state.value()),
        access::next_result::<()>(state.task.fat_type, now, state.cluster) == Ok::<
            Option<u32>,
            FatError<()>,
        >(state.next),
    ensures
        ({
            let after = entry::put(state.task.fat_type, now, state.cluster as int, state.value());
            let num_free = if state.keeping {
                state.num_free as int
            } else {
                state.num_free + 1
            };
            &&& after.len() == first.len()
            &&& num_free <= u32::MAX
            &&& state.task.plan(first) matches Some(all)
            &&& num_free <= all.count
            &&& match state.next {
                None => all == (Freed { bytes: after, count: num_free as nat, stray: None }),
                Some(c) => (ReleaseState {
                    cluster: c,
                    keeping: false,
                    num_free: num_free as u32,
                    ..state
                }).on_plan(first, after),
            }
        }),
{
    let fat_type = state.task.fat_type;
    laws::lemma_put_keeps_len(fat_type, now, state.cluster as int, state.value());
    lemma_freed_bound(fat_type, first, state.task.from);
}

/// A step over a stream that never fails, from `now` on, for a run that began at
/// `start`.
spec fn follows<E>(
    m: ReleaseChain,
    reply: StreamReply<E>,
    next: Step<ReleaseChain, Released<E>>,
    start: StreamState,
    now: StreamState,
) -> bool {
    let op = <ReleaseChain as StreamMachine<E>>::pending(m);
    let after = now.serve::<E>(op).0;
    start.wf() && now.wf() && <ReleaseChain as StreamMachine<E>>::reached(m, start, now) && reply
        == now.serve::<E>(op).1 ==> match next {
        Step::Do(then, op) => {
            &&& <ReleaseChain as StreamMachine<E>>::task(then)
                == <ReleaseChain as StreamMachine<E>>::task(m)
            &&& <ReleaseChain as StreamMachine<E>>::pending(then) == op
            &&& <ReleaseChain as StreamMachine<E>>::reached(then, start, after)
            &&& <ReleaseChain as StreamMachine<E>>::remaining(then, start)
                < <ReleaseChain as StreamMachine<E>>::remaining(m, start)
        },
        Step::Done(out) => <ReleaseChain as StreamMachine<E>>::outcome(
            <ReleaseChain as StreamMachine<E>>::task(m),
            start,
            after,
            out,
        ),
    }
}

impl ReleaseChain {
    /// Take a reply while reading where the chain goes on.
    fn take_next<E>(state: ReleaseState, next: NextCluster, reply: StreamReply<E>) -> (step: Step<
        ReleaseChain,
        Released<E>,
    >)
        requires
            stream::answers(<NextCluster as StreamMachine<E>>::pending(next), reply),
        ensures
            reply is Failed ==> (ReleaseState {
                next: Some(state.cluster),
                err: true,
                ..state
            }).begins_to_write(step),
            ({
                let m = ReleaseChain { state, phase: ReleasePhase::Next(next) };
                forall|start: StreamState, now: StreamState|
                    #![trigger <ReleaseChain as StreamMachine<E>>::reached(m, start, now)]
                    follows(m, reply, step, start, now)
            }),
    {
        match next.step(reply) {
            Step::Do(next, op) => Step::Do(
                ReleaseChain { state, phase: ReleasePhase::Next(next) },
                op,
            ),
            Step::Done(Ok(next)) => ReleaseState { next, ..state }.write(),
            Step::Done(Err(_)) => ReleaseState {
                next: Some(state.cluster),
                err: true,
                ..state
            }.write(),
        }
    }

    /// Take a reply while writing the entry of a cluster.
    fn take_write<E>(state: ReleaseState, write: WriteFat, reply: StreamReply<E>) -> (step: Step<
        ReleaseChain,
        Released<E>,
    >)
        requires
            stream::answers(<WriteFat as StreamMachine<E>>::pending(write), reply),
        ensures
            reply matches StreamReply::Failed(e) ==> (step matches Step::Done(
                Released::Ended { result: Err(given), cluster, err },
            ) && given == e && cluster == state.next && err == state.err),
            ({
                let m = ReleaseChain { state, phase: ReleasePhase::Write(write) };
                forall|start: StreamState, now: StreamState|
                    #![trigger <ReleaseChain as StreamMachine<E>>::reached(m, start, now)]
                    follows(m, reply, step, start, now)
            }),
    {
        let ghost m = ReleaseChain { state, phase: ReleasePhase::Write(write) };
        match write.step(reply) {
            Step::Do(write, op) => Step::Do(
                ReleaseChain { state, phase: ReleasePhase::Write(write) },
                op,
            ),
            Step::Done(Err(e)) => Step::Done(
                Released::Ended { result: Err(e), cluster: state.next, err: state.err },
            ),
            Step::Done(Ok(())) => {
                let num_free: u32 = if state.keeping {
                    state.num_free
                } else {
                    state.num_free.wrapping_add(1)
                };
                let step: Step<ReleaseChain, Released<E>> = match state.next {
                    None => Step::Done(
                        Released::Ended { result: Ok(num_free), cluster: None, err: state.err },
                    ),
                    Some(cluster) => ReleaseState {
                        cluster,
                        keeping: false,
                        num_free,
                        ..state
                    }.read(),
                };
                proof {
                    assert forall|start: StreamState, now: StreamState|
                        #![trigger <ReleaseChain as StreamMachine<E>>::reached(m, start, now)]
                        follows(m, reply, step, start, now) by {
                        if start.wf() && now.wf() && <ReleaseChain as StreamMachine<E>>::reached(
                            m,
                            start,
                            now,
                        ) && reply == now.serve::<E>(
                            <ReleaseChain as StreamMachine<E>>::pending(m),
                        ).1 {
                            assert(entry::fits(
                                state.task.fat_type,
                                now.bytes.len(),
                                state.cluster as int,
                            ));
                            lemma_written(state, start.bytes, now.bytes);
                        }
                    }
                }
                step
            },
        }
    }

    /// Take a reply while reading an entry that is never set free.
    fn take_probe<E>(state: ReleaseState, probe: GetRaw, reply: StreamReply<E>) -> (step: Step<
        ReleaseChain,
        Released<E>,
    >)
        requires
            stream::answers(<GetRaw as StreamMachine<E>>::pending(probe), reply),
        ensures
            reply matches StreamReply::Failed(e) ==> (step matches Step::Done(
                Released::Ended { result: Err(given), cluster, err },
            ) && given == e && cluster == state.next && err == state.err),
            ({
                let m = ReleaseChain { state, phase: ReleasePhase::Probe(probe) };
                forall|start: StreamState, now: StreamState|
                    #![trigger <ReleaseChain as StreamMachine<E>>::reached(m, start, now)]
                    follows(m, reply, step, start, now)
            }),
    {
        match probe.step(reply) {
            Step::Do(probe, op) => Step::Do(
                ReleaseChain { state, phase: ReleasePhase::Probe(probe) },
                op,
            ),
            Step::Done(Err(e)) => Step::Done(
                Released::Ended { result: Err(e), cluster: state.next, err: state.err },
            ),
            Step::Done(Ok(_)) => Step::Done(Released::Forbidden(state.cluster)),
        }
    }
}

impl<E> StreamMachine<E> for ReleaseChain {
    type Task = ReleaseTask;

    type Out = Released<E>;

    open spec fn task(self) -> ReleaseTask {
        self.state.task
    }

    open spec fn pending(self) -> StreamOp {
        match self.phase {
            ReleasePhase::Next(next) => <NextCluster as StreamMachine<E>>::pending(next),
            ReleasePhase::Write(write) => <WriteFat as StreamMachine<E>>::pending(write),
            ReleasePhase::Probe(probe) => <GetRaw as StreamMachine<E>>::pending(probe),
        }
    }

    open spec fn reached(self, start: StreamState, now: StreamState) -> bool {
        let state = self.state;
        let fat_type = state.task.fat_type;
        let fits = entry::fits(fat_type, now.bytes.len(), state.cluster as int);
        &&& now == (StreamState { bytes: now.bytes, ..start.at(now.pos) })
        &&& state.on_plan(start.bytes, now.bytes)
        &&& match self.phase {
            ReleasePhase::Next(next) => {
                &&& !state.err
                &&& <NextCluster as StreamMachine<E>>::task(next) == EntryTask {
                    fat_type,
                    cluster: state.cluster,
                }
                &&& <NextCluster as StreamMachine<E>>::reached(next, now, now)
            },
            ReleasePhase::Write(write) => {
                &&& <WriteFat as StreamMachine<E>>::task(write) == WriteTask {
                    fat_type,
                    cluster: state.cluster,
                    value: state.value(),
                }
                &&& <WriteFat as StreamMachine<E>>::reached(write, now, now)
                &&& access::may_write(fat_type, state.cluster, state.value())
                &&& if fits {
                    &&& !state.err
                    &&& access::next_result::<()>(fat_type, now.bytes, state.cluster) == Ok::<
                        Option<u32>,
                        FatError<()>,
                    >(state.next)
                } else {
                    &&& state.err
                    &&& state.next == Some(state.cluster)
                }
            },
            ReleasePhase::Probe(probe) => {
                &&& !fits
                &&& state.err
                &&& state.next == Some(state.cluster)
                &&& <GetRaw as StreamMachine<E>>::task(probe) == EntryTask {
                    fat_type,
                    cluster: state.cluster,
                }
                &&& <GetRaw as StreamMachine<E>>::reached(probe, now, now)
            },
        }
    }

    open spec fn remaining(self, start: StreamState) -> nat {
        let state = self.state;
        let left = match state.task.plan(start.bytes) {
            Some(all) => if state.num_free <= all.count {
                all.count - state.num_free
            } else {
                0
            },
            None => 0,
        } + if state.keeping {
            1int
        } else {
            0int
        };
        (8 * left + match self.phase {
            ReleasePhase::Next(next) => 5 + <NextCluster as StreamMachine<E>>::remaining(next, start),
            ReleasePhase::Write(write) => <WriteFat as StreamMachine<E>>::remaining(write, start),
            ReleasePhase::Probe(probe) => <GetRaw as StreamMachine<E>>::remaining(probe, start),
        }) as nat
    }

    open spec fn outcome(
        task: ReleaseTask,
        start: StreamState,
        end: StreamState,
        out: Released<E>,
    ) -> bool {
        task.plan(start.bytes) matches Some(all) ==> {
            &&& end == (StreamState { bytes: all.bytes, ..start.at(end.pos) })
            &&& out == report::<E>(all)
        }
    }

    fn step(self, reply: StreamReply<E>) -> (next: Step<Self, Released<E>>)
        ensures
            reply matches StreamReply::Failed(e) ==> match self.phase {
                // An entry that cannot be read is written all the same.
                ReleasePhase::Next(_) => (ReleaseState {
                    next: Some(self.state.cluster),
                    err: true,
                    ..self.state
                }).begins_to_write(next),
                _ => next matches Step::Done(Released::Ended { result: Err(given), cluster, err })
                    && given == e && cluster == self.state.next && err == self.state.err,
            },
    {
        match self.phase {
            ReleasePhase::Next(next) => ReleaseChain::take_next(self.state, next, reply),
            ReleasePhase::Write(write) => ReleaseChain::take_write(self.state, write, reply),
            ReleasePhase::Probe(probe) => ReleaseChain::take_probe(self.state, probe, reply),
        }
    }
}

impl ReleaseChain {
    /// Begin: read where the chain goes on, or write the first entry where it could
    /// not be read before.
    pub fn start<E>(task: ReleaseTask) -> (first: Step<ReleaseChain, Released<E>>)
        ensures
            first matches Step::Do(m, op) && {
                &&& <ReleaseChain as StreamMachine<E>>::task(m) == task
                &&& <ReleaseChain as StreamMachine<E>>::pending(m) == op
                &&& forall|s: StreamState|
                    task.plan(s.bytes) is Some ==> #[trigger]
                    <ReleaseChain as StreamMachine<E>>::reached(m, s, s)
            },
    {
        ReleaseState {
            task,
            cluster: task.from,
            keeping: task.keep,
            next: Some(task.from),
            err: task.err,
            num_free: 0,
        }.read()
    }
}

/// Walks along the chain that begins at a cluster of the table in `fat`.
pub struct ClusterIterator<B> {
    pub fat: B,
    pub fat_type: FatType,
    /// The cluster that the walk has come to.
    pub cluster: Option<u32>,
    /// An entry could not be read: the walk is over.
    pub err: bool,
}

impl<B> ClusterIterator<B> {
    /// Walk along a chain, from this cluster on.
    pub fn new(fat: B, fat_type: FatType, cluster: u32) -> (iter: ClusterIterator<B>)
        ensures
            iter == (ClusterIterator { fat, fat_type, cluster: Some(cluster), err: false }),
    {
        ClusterIterator { fat, fat_type, cluster: Some(cluster), err: false }
    }

    /// The table.
    pub fn into_fat(self) -> (fat: B)
        ensures
            fat == self.fat,
    {
        self.fat
    }

    /// The cluster whose entry says where the chain goes on, if the walk goes on.
    pub open spec fn pending(self) -> Option<u32> {
        if self.err {
            None
        } else {
            self.cluster
        }
    }

    /// The cluster whose entry says where the chain goes on, if the walk goes on.
    pub fn to_read(&self) -> (cluster: Option<u32>)
        ensures
            cluster == self.pending(),
    {
        if self.err {
            None
        } else {
            self.cluster
        }
    }

    /// The walk after the entry was read.
    pub open spec fn moved<E>(self, read: Result<Option<u32>, FatError<E>>) -> ClusterIterator<B> {
        match read {
            Ok(next) => ClusterIterator { cluster: next, ..self },
            Err(_) => ClusterIterator { err: true, ..self },
        }
    }

    /// What the walk gives after the entry was read.
    pub open spec fn given<E>(read: Result<Option<u32>, FatError<E>>) -> Option<
        Result<u32, FatError<E>>,
    > {
        match read {
            Ok(Some(n)) => Some(Ok(n)),
            Ok(None) => None,
            Err(e) => Some(Err(e)),
        }
    }

    /// The entry was read: go on to the next cluster.
    pub fn advance<E>(&mut self, read: Result<Option<u32>, FatError<E>>) -> (next: Option<
        Result<u32, FatError<E>>,
    >)
        ensures
            *final(self) == old(self).moved(read),
            next == ClusterIterator::<B>::given(read),
    {
        match read {
            Ok(next) => {
                self.cluster = next;
                match next {
                    Some(n) => Some(Ok(n)),
                    None => None,
                }
            },
            Err(e) => {
                self.err = true;
                Some(Err(e))
            },
        }
    }

    /// The task of setting the chain free, or of cutting it off behind the cluster
    /// that the walk has come to. There is nothing to do behind the end of a chain.
    pub open spec fn release_task(self, keep: bool) -> Option<ReleaseTask> {
        match self.cluster {
            Some(from) => Some(
                ReleaseTask { fat_type: self.fat_type, from, keep, err: self.err },
            ),
            None => None,
        }
    }

    /// The task of setting the chain free, or of cutting it off behind the cluster
    /// that the walk has come to. There is nothing to do behind the end of a chain.
    pub fn to_release(&self, keep: bool) -> (task: Option<ReleaseTask>)
        ensures
            task == self.release_task(keep),
    {
        match self.cluster {
            Some(from) => Some(
                ReleaseTask { fat_type: self.fat_type, from, keep, err: self.err },
            ),
            None => None,
        }
    }
}

impl ClusterIterator<MemStream> {
    /// The chain can be set free, or be cut off.
    pub open spec fn can_release(self, keep: bool) -> bool {
        self.release_task(keep) matches Some(task) ==> task.plan(self.fat@.bytes) is Some
    }

    /// What setting the chain free, or cutting it off, comes to.
    pub open spec fn released(
        self,
        keep: bool,
        end: ClusterIterator<MemStream>,
        out: Result<u32, FatError<()>>,
    ) -> bool {
        match self.release_task(keep) {
            None => end == self && out == Ok::<u32, FatError<()>>(0),
            Some(task) => task.plan(self.fat@.bytes) matches Some(all) && {
                &&& end.fat@ == (StreamState { bytes: all.bytes, ..self.fat@.at(end.fat@.pos) })
                &&& end.fat_type == self.fat_type
                &&& Released::Ended { result: out, cluster: end.cluster, err: end.err } == report::<
                    (),
                >(all)
            },
        }
    }

    /// Go on to the next cluster.
    pub fn next(&mut self) -> (next: Option<Result<u32, FatError<()>>>)
        requires
            old(self).fat@.wf(),
        ensures
            final(self).fat@.wf(),
            match old(self).pending() {
                None => *final(self) == *old(self) && next is None,
                Some(c) => {
                    let read = access::next_result::<()>(
                        old(self).fat_type,
                        old(self).fat@.bytes,
                        c,
                    );
                    &&& final(self).fat@ == access::after_read(
                        old(self).fat_type,
                        old(self).fat@,
                        c,
                    )
                    &&& *final(self) == (ClusterIterator {
                        fat: final(self).fat,
                        ..old(self).moved(read)
                    })
                    &&& next == ClusterIterator::<MemStream>::given(read)
                },
            },
    {
        match self.to_read() {
            None => None,
            Some(current_cluster) => {
                let read: Result<Option<u32>, FatError<()>> = get_next_cluster(
                    &mut self.fat,
                    self.fat_type,
                    current_cluster,
                );
                self.advance(read)
            },
        }
    }

    /// Set a chain free, or cut it off.
    fn release(&mut self, keep: bool) -> (out: Result<u32, FatError<()>>)
        requires
            old(self).fat@.wf(),
            old(self).can_release(keep),
        ensures
            final(self).fat@.wf(),
            old(self).released(keep, *final(self), out),
    {
        match self.to_release(keep) {
            None => Ok(0),
            Some(task) => {
                let first: Step<ReleaseChain, Released<()>> = ReleaseChain::start(task);
                match run::<(), ReleaseChain>(first, &mut self.fat) {
                    Released::Ended { result, cluster, err } => {
                        self.cluster = cluster;
                        self.err = err;
                        result
                    },
                    Released::Forbidden(_) => {
                        assert(false);
                        Ok(0)
                    },
                }
            },
        }
    }

    /// Make the cluster that the walk has come to the end of the chain, and set the
    /// rest of it free.
    pub fn truncate(&mut self) -> (out: Result<u32, FatError<()>>)
        requires
            old(self).fat@.wf(),
            old(self).can_release(true),
        ensures
            final(self).fat@.wf(),
            old(self).released(true, *final(self), out),
    {
        self.release(true)
    }

    /// Set the chain free, from the cluster on that the walk has come to.
    pub fn free(&mut self) -> (out: Result<u32, FatError<()>>)
        requires
            old(self).fat@.wf(),
            old(self).can_release(false),
        ensures
            final(self).fat@.wf(),
            old(self).released(false, *final(self), out),
    {
        self.release(false)
    }
}

/// These clusters are a chain: each entry points to the next one, the last one to
/// none, and no cluster comes twice.
pub open spec fn is_chain(fat_type: FatType, bytes: Seq<u8>, chain: Seq<u32>) -> bool {
    &&& chain.len() > 0
    &&& chain.no_duplicates()
    &&& forall|i: int|
        0 <= i < chain.len() ==> {
            let c = #[trigger] chain[i];
            &&& entry::fits(fat_type, bytes.len(), c as int)
            &&& !(fat_type is Fat32 && entry::special(fat_type, c as int))
            &&& if i + 1 < chain.len() {
                &&& chain[i + 1] >= 2
                &&& entry::value(fat_type, bytes, c as int) == FatValue::Data(chain[i + 1])
            } else {
                !(entry::value(fat_type, bytes, c as int) is Data)
            }
        }
}

/// A walk along a chain gives its clusters in order, and then ends.
pub proof fn law_a_walk_follows_the_chain<E>(
    fat_type: FatType,
    bytes: Seq<u8>,
    chain: Seq<u32>,
    i: int,
)
    requires
        is_chain(fat_type, bytes, chain),
        0 <= i < chain.len(),
    ensures
        access::next_result::<E>(fat_type, bytes, chain[i]) == Ok::<Option<u32>, FatError<E>>(
            if i + 1 < chain.len() {
                Some(chain[i + 1])
            } else {
                None
            },
        ),
{
    assert(entry::fits(fat_type, bytes.len(), chain[i] as int));
}

/// A walk never leads to a reserved cluster, whatever the table holds.
pub proof fn law_a_walk_avoids_the_reserved_clusters<E>(
    fat_type: FatType,
    bytes: Seq<u8>,
    cluster: u32,
)
    ensures
        access::next_result::<E>(fat_type, bytes, cluster) matches Ok(Some(n)) ==> n
            >= RESERVED_FAT_ENTRIES,
{
}

/// Writing to the first cluster of a chain leaves the rest of it a chain.
proof fn lemma_tail(fat_type: FatType, bytes: Seq<u8>, chain: Seq<u32>, written: FatValue)
    requires
        is_chain(fat_type, bytes, chain),
        chain.len() > 1,
        written is Free || written is EndOfChain,
    ensures
        is_chain(
            fat_type,
            entry::put(fat_type, bytes, chain[0] as int, written),
            chain.skip(1),
        ),
{
    let after = entry::put(fat_type, bytes, chain[0] as int, written);
    let tail = chain.skip(1);
    assert(entry::fits(fat_type, bytes.len(), chain[0] as int));
    laws::lemma_put_keeps_len(fat_type, bytes, chain[0] as int, written);
    assert forall|i: int| 0 <= i < tail.len() implies {
        let c = #[trigger] tail[i];
        &&& entry::fits(fat_type, after.len(), c as int)
        &&& !(fat_type is Fat32 && entry::special(fat_type, c as int))
        &&& if i + 1 < tail.len() {
            &&& tail[i + 1] >= 2
            &&& entry::value(fat_type, after, c as int) == FatValue::Data(tail[i + 1])
        } else {
            !(entry::value(fat_type, after, c as int) is Data)
        }
    } by {
        assert(tail[i] == chain[i + 1]);
        assert(chain[i + 1] != chain[0]);
        laws::law_write_keeps_the_other_entries(
            fat_type,
            bytes,
            chain[0] as int,
            written,
            chain[i + 1] as int,
        );
    }
}

/// The rest of a chain is set free as a whole after its first entry was written.
proof fn lemma_rest_is_set_free(
    fat_type: FatType,
    bytes: Seq<u8>,
    chain: Seq<u32>,
    written: FatValue,
)
    requires
        is_chain(fat_type, bytes, chain),
        chain.len() > 1,
        written is Free || written is EndOfChain,
    ensures
        ({
            let after = entry::put(fat_type, bytes, chain[0] as int, written);
            freed(fat_type, after, chain[1]) matches Some(f) && {
                &&& f.count == chain.len() - 1
                &&& f.stray is None
                &&& f.bytes.len() == bytes.len()
                &&& entry::value(fat_type, f.bytes, chain[0] as int) == written
                &&& forall|i: int|
                    1 <= i < chain.len() ==> entry::value(
                        fat_type,
                        f.bytes,
                        #[trigger] chain[i] as int,
                    ) is Free
                &&& forall|c: u32|
                    entry::fits(fat_type, bytes.len(), c as int) && !chain.contains(c)
                        ==> #[trigger] entry::raw(fat_type, f.bytes, c as int) == entry::raw(
                        fat_type,
                        bytes,
                        c as int,
                    )
            }
        }),
    decreases chain.len(), 0int,
{
    let head = chain[0];
    let tail = chain.skip(1);
    let after = entry::put(fat_type, bytes, head as int, written);
    assert(entry::fits(fat_type, bytes.len(), head as int));
    laws::lemma_put_keeps_len(fat_type, bytes, head as int, written);
    laws::law_read_gives_what_was_written(fat_type, bytes, head as int, written);
    lemma_tail(fat_type, bytes, chain, written);
    law_a_chain_is_set_free(fat_type, after, tail);
    assert(tail[0] == chain[1]);
    let f = freed(fat_type, after, chain[1])->0;
    assert(!tail.contains(head)) by {
        if tail.contains(head) {
            let j = choose|j: int| 0 <= j < tail.len() && tail[j] == head;
            assert(chain[j + 1] == chain[0]);
        }
    }
    assert(entry::raw(fat_type, f.bytes, head as int) == entry::raw(fat_type, after, head as int));
    assert forall|i: int| 1 <= i < chain.len() implies entry::value(
        fat_type,
        f.bytes,
        #[trigger] chain[i] as int,
    ) is Free by {
        assert(tail[i - 1] == chain[i]);
    }
    assert forall|c: u32|
        entry::fits(fat_type, bytes.len(), c as int) && !chain.contains(
            c,
        ) implies #[trigger] entry::raw(fat_type, f.bytes, c as int) == entry::raw(
        fat_type,
        bytes,
        c as int,
    ) by {
        assert(chain.contains(head));
        if tail.contains(c) {
            let j = choose|j: int| 0 <= j < tail.len() && tail[j] == c;
            assert(chain[j + 1] == c);
        }
        laws::law_write_keeps_the_other_entries(fat_type, bytes, head as int, written, c as int);
    }
}

/// Writing to the only cluster of a chain changes no other entry.
proof fn lemma_only_the_head(
    fat_type: FatType,
    bytes: Seq<u8>,
    chain: Seq<u32>,
    written: FatValue,
)
    requires
        is_chain(fat_type, bytes, chain),
        chain.len() == 1,
        written is Free || written is EndOfChain,
    ensures
        ({
            let after = entry::put(fat_type, bytes, chain[0] as int, written);
            &&& after.len() == bytes.len()
            &&& entry::value(fat_type, after, chain[0] as int) == written
            &&& forall|c: u32|
                entry::fits(fat_type, bytes.len(), c as int) && !chain.contains(c)
                    ==> #[trigger] entry::raw(fat_type, after, c as int) == entry::raw(
                    fat_type,
                    bytes,
                    c as int,
                )
        }),
{
    let head = chain[0];
    let after = entry::put(fat_type, bytes, head as int, written);
    assert(entry::fits(fat_type, bytes.len(), head as int));
    laws::lemma_put_keeps_len(fat_type, bytes, head as int, written);
    laws::law_read_gives_what_was_written(fat_type, bytes, head as int, written);
    assert forall|c: u32|
        entry::fits(fat_type, bytes.len(), c as int) && !chain.contains(
            c,
        ) implies #[trigger] entry::raw(fat_type, after, c as int) == entry::raw(
        fat_type,
        bytes,
        c as int,
    ) by {
        assert(chain.contains(head));
        laws::law_write_keeps_the_other_entries(fat_type, bytes, head as int, written, c as int);
    }
}

/// A chain that is set free is set free as a whole: each of its clusters is counted
/// and reads as free, and no other entry of the table changes.
pub proof fn law_a_chain_is_set_free(fat_type: FatType, bytes: Seq<u8>, chain: Seq<u32>)
    requires
        is_chain(fat_type, bytes, chain),
    ensures
        freed(fat_type, bytes, chain[0]) matches Some(f) && {
            &&& f.count == chain.len()
            &&& f.stray is None
            &&& f.bytes.len() == bytes.len()
            &&& forall|i: int|
                0 <= i < chain.len() ==> entry::value(fat_type, f.bytes, #[trigger] chain[i] as int)
                    is Free
            &&& forall|c: u32|
                entry::fits(fat_type, bytes.len(), c as int) && !chain.contains(c)
                    ==> #[trigger] entry::raw(fat_type, f.bytes, c as int) == entry::raw(
                    fat_type,
                    bytes,
                    c as int,
                )
        },
    decreases chain.len(), 1int,
{
    assert(entry::fits(fat_type, bytes.len(), chain[0] as int));
    if chain.len() > 1 {
        lemma_rest_is_set_free(fat_type, bytes, chain, FatValue::Free);
    } else {
        lemma_only_the_head(fat_type, bytes, chain, FatValue::Free);
    }
}

/// A chain that is cut off ends at its first cluster. All the others are set free
/// and counted, and no other entry of the table changes.
pub proof fn law_a_chain_is_cut_off(fat_type: FatType, bytes: Seq<u8>, chain: Seq<u32>)
    requires
        is_chain(fat_type, bytes, chain),
    ensures
        cut_off(fat_type, bytes, chain[0]) matches Some(f) && {
            &&& f.count == chain.len() - 1
            &&& f.stray is None
            &&& entry::value(fat_type, f.bytes, chain[0] as int) is EndOfChain
            &&& forall|i: int|
                1 <= i < chain.len() ==> entry::value(fat_type, f.bytes, #[trigger] chain[i] as int)
                    is Free
            &&& forall|c: u32|
                entry::fits(fat_type, bytes.len(), c as int) && !chain.contains(c)
                    ==> #[trigger] entry::raw(fat_type, f.bytes, c as int) == entry::raw(
                    fat_type,
                    bytes,
                    c as int,
                )
        },
{
    assert(entry::fits(fat_type, bytes.len(), chain[0] as int));
    if chain.len() > 1 {
        lemma_rest_is_set_free(fat_type, bytes, chain, FatValue::EndOfChain);
    } else {
        lemma_only_the_head(fat_type, bytes, chain, FatValue::EndOfChain);
    }
}

/// Setting a chain free leaves as many more free clusters as the chain has.
pub proof fn law_freeing_a_chain_raises_the_count(
    bytes: Seq<u8>,
    chain: Seq<u32>,
    count: CountTask,
)
    requires
        is_chain(count.fat_type, bytes, chain),
        entry::fits(count.fat_type, bytes.len(), count.end - 1),
        forall|i: int|
            0 <= i < chain.len() ==> RESERVED_FAT_ENTRIES <= #[trigger] chain[i] < count.end
                && !entry::is_free(count.fat_type, bytes, count.erased_byte, chain[i] as int),
    ensures
        freed(count.fat_type, bytes, chain[0]) matches Some(f) && count.free_below(
            f.bytes,
            count.end as int,
        ) == count.free_below(bytes, count.end as int) + chain.len(),
    decreases chain.len(),
{
    let fat_type = count.fat_type;
    let head = chain[0];
    let end = count.end as int;
    let after = entry::put(fat_type, bytes, head as int, FatValue::Free);
    laws::lemma_put_keeps_len(fat_type, bytes, head as int, FatValue::Free);
    laws::lemma_put_raw(fat_type, bytes, head as int, FatValue::Free);
    scan::lemma_count_after_put(count, bytes, head as int, FatValue::Free, end);
    if chain.len() > 1 {
        let tail = chain.skip(1);
        lemma_tail(fat_type, bytes, chain, FatValue::Free);
        assert forall|i: int| 0 <= i < tail.len() implies RESERVED_FAT_ENTRIES
            <= #[trigger] tail[i] < count.end && !entry::is_free(
            fat_type,
            after,
            count.erased_byte,
            tail[i] as int,
        ) by {
            assert(tail[i] == chain[i + 1]);
            assert(chain[i + 1] != chain[0]);
            laws::law_write_keeps_the_other_entries(
                fat_type,
                bytes,
                head as int,
                FatValue::Free,
                chain[i + 1] as int,
            );
        }
        law_freeing_a_chain_raises_the_count(after, tail, count);
        assert(tail[0] == chain[1]);
    }
}

/// A chain is set free cluster by cluster: each one that has an entry becomes free and is
/// counted, and what its entry pointed to before is next. It is over behind the last one, and
/// stops at a cluster without an entry. Where it comes to a reserved cluster it never ends, and
/// a special one of a FAT32 may not be set free.
pub proof fn law_a_chain_is_set_free_cluster_by_cluster(
    fat_type: FatType,
    bytes: Seq<u8>,
    at: u32,
)
    ensures
        ({
            let barred = fat_type is Fat32 && 0x0FFF_FFF7 <= at <= 0x0FFF_FFFF;
            let after = entry::put(fat_type, bytes, at as int, FatValue::Free);
            let all = freed(fat_type, bytes, at);
            if !entry::fits(fat_type, bytes.len(), at as int) {
                all == Some(Freed { bytes, count: 0, stray: Some(at) })
            } else if barred {
                all is None
            } else {
                match entry::value(fat_type, bytes, at as int) {
                    FatValue::Data(n) => if n < 2 {
                        all is None
                    } else {
                        match freed(fat_type, after, n) {
                            None => all is None,
                            Some(rest) => {
                                &&& all matches Some(f)
                                &&& f.bytes == rest.bytes
                                &&& f.count == rest.count + 1
                                &&& f.stray == rest.stray
                            },
                        }
                    },
                    _ => all == Some(Freed { bytes: after, count: 1, stray: None }),
                }
            }
        }),
{
}

/// A chain is cut off behind a cluster: that one becomes the end of the chain, is not counted,
/// and what its entry pointed to before is set free.
pub proof fn law_a_chain_is_cut_off_behind_its_first_cluster(
    fat_type: FatType,
    bytes: Seq<u8>,
    at: u32,
)
    ensures
        ({
            let after = entry::put(fat_type, bytes, at as int, FatValue::EndOfChain);
            let all = cut_off(fat_type, bytes, at);
            if !entry::fits(fat_type, bytes.len(), at as int) {
                all == Some(Freed { bytes, count: 0, stray: Some(at) })
            } else {
                match entry::value(fat_type, bytes, at as int) {
                    FatValue::Data(n) => if n < 2 {
                        all is None
                    } else {
                        all == freed(fat_type, after, n)
                    },
                    _ => all == Some(Freed { bytes: after, count: 0, stray: None }),
                }
            }
        }),
{
}

/// Releasing a chain, as a walk does it: behind the end of a chain there is nothing to do. The
/// chain is cut off or set free from the cluster on that the walk has come to, and the walk is
/// then over; where the chain leads out of the table, it stops there with an error. An entry
/// that could not be read before must still be out of reach.
pub proof fn law_a_walk_releases_from_where_it_stands(
    walk: ClusterIterator<MemStream>,
    keep: bool,
    end: ClusterIterator<MemStream>,
    out: Result<u32, FatError<()>>,
)
    requires
        walk.fat@.wf(),
        walk.released(keep, end, out),
    ensures
        match walk.cluster {
            None => end == walk && out == Ok::<u32, FatError<()>>(0),
            Some(from) => {
                let bytes = walk.fat@.bytes;
                let plan = if keep {
                    cut_off(walk.fat_type, bytes, from)
                } else {
                    freed(walk.fat_type, bytes, from)
                };
                &&& end.fat_type == walk.fat_type
                &&& end.fat@.reports == walk.fat@.reports
                &&& if walk.err {
                    &&& !entry::fits(walk.fat_type, bytes.len(), from as int)
                    &&& end.fat@.bytes == bytes
                    &&& out == Err::<u32, FatError<()>>(FatError::UnexpectedEof)
                    &&& end.cluster == Some(from) && end.err
                } else {
                    &&& plan matches Some(all)
                    &&& end.fat@.bytes == all.bytes
                    &&& match all.stray {
                        None => (out matches Ok(n) && n == all.count) && end.cluster is None
                            && !end.err,
                        Some(stray) => out == Err::<u32, FatError<()>>(FatError::UnexpectedEof)
                            && end.cluster == Some(stray) && end.err,
                    }
                }
            },
        },
{
    if let Some(from) = walk.cluster {
        lemma_freed_bound(walk.fat_type, walk.fat@.bytes, from);
    }
}

/// A walk can release wherever the chain can be set free, or be cut off: only a chain that
/// comes to a reserved or a special cluster is left out, and a cluster whose entry could not be
/// read before but can be written.
pub proof fn law_when_a_walk_can_release(walk: ClusterIterator<MemStream>, keep: bool)
    ensures
        walk.can_release(keep) <==> match walk.cluster {
            None => true,
            Some(from) => if walk.err {
                !entry::fits(walk.fat_type, walk.fat@.bytes.len(), from as int)
            } else if keep {
                cut_off(walk.fat_type, walk.fat@.bytes, from) is Some
            } else {
                freed(walk.fat_type, walk.fat@.bytes, from) is Some
            },
        },
{
}

/// Truncating at a cluster that begins a chain keeps that cluster, as the end of its chain:
/// the rest of the chain is free and is what was counted, and no other entry changes.
pub proof fn law_truncating_keeps_one_cluster(
    walk: ClusterIterator<MemStream>,
    chain: Seq<u32>,
    end: ClusterIterator<MemStream>,
    out: Result<u32, FatError<()>>,
)
    requires
        walk.fat@.wf(),
        is_chain(walk.fat_type, walk.fat@.bytes, chain),
        walk.cluster == Some(chain[0]),
        !walk.err,
    ensures
        walk.can_release(true),
        walk.released(true, end, out) ==> {
            let ft = walk.fat_type;
            let bytes = end.fat@.bytes;
            &&& out matches Ok(n) && n == chain.len() - 1
            &&& end.cluster is None && !end.err
            &&& bytes.len() == walk.fat@.bytes.len()
            &&& entry::value(ft, bytes, chain[0] as int) is EndOfChain
            &&& forall|i: int|
                1 <= i < chain.len() ==> entry::value(ft, bytes, #[trigger] chain[i] as int) is Free
            &&& forall|c: u32|
                entry::fits(ft, bytes.len(), c as int) && !chain.contains(c)
                    ==> #[trigger] entry::raw(ft, bytes, c as int) == entry::raw(
                    ft,
                    walk.fat@.bytes,
                    c as int,
                )
        },
{
    law_a_chain_is_cut_off(walk.fat_type, walk.fat@.bytes, chain);
    lemma_freed_bound(walk.fat_type, walk.fat@.bytes, chain[0]);
    lemma_cut_keeps_len(walk.fat_type, walk.fat@.bytes, chain[0]);
}

/// A table keeps its length where a chain is cut off.
proof fn lemma_cut_keeps_len(fat_type: FatType, bytes: Seq<u8>, at: u32)
    ensures
        cut_off(fat_type, bytes, at) matches Some(f) ==> f.bytes.len() == bytes.len(),
{
    let after = entry::put(fat_type, bytes, at as int, FatValue::EndOfChain);
    if entry::fits(fat_type, bytes.len(), at as int) {
        laws::lemma_put_keeps_len(fat_type, bytes, at as int, FatValue::EndOfChain);
        if let FatValue::Data(n) = entry::value(fat_type, bytes, at as int) {
            lemma_freed_links(fat_type, after, n);
        }
    }
}

/// Freeing from a cluster that begins a chain frees all of it: every cluster of the chain is
/// free and was counted, and no other entry changes.
pub proof fn law_freeing_keeps_no_cluster(
    walk: ClusterIterator<MemStream>,
    chain: Seq<u32>,
    end: ClusterIterator<MemStream>,
    out: Result<u32, FatError<()>>,
)
    requires
        walk.fat@.wf(),
        is_chain(walk.fat_type, walk.fat@.bytes, chain),
        walk.cluster == Some(chain[0]),
        !walk.err,
    ensures
        walk.can_release(false),
        walk.released(false, end, out) ==> {
            let ft = walk.fat_type;
            let bytes = end.fat@.bytes;
            &&& out matches Ok(n) && n == chain.len()
            &&& end.cluster is None && !end.err
            &&& bytes.len() == walk.fat@.bytes.len()
            &&& forall|i: int|
                0 <= i < chain.len() ==> entry::value(ft, bytes, #[trigger] chain[i] as int) is Free
            &&& forall|c: u32|
                entry::fits(ft, bytes.len(), c as int) && !chain.contains(c)
                    ==> #[trigger] entry::raw(ft, bytes, c as int) == entry::raw(
                    ft,
                    walk.fat@.bytes,
                    c as int,
                )
        },
{
    law_a_chain_is_set_free(walk.fat_type, walk.fat@.bytes, chain);
    lemma_freed_bound(walk.fat_type, walk.fat@.bytes, chain[0]);
}

/// The task of releasing is set by the walk, and its plan is the one that the walk is held to.
pub proof fn law_a_release_is_what_was_asked_for(task: ReleaseTask, bytes: Seq<u8>)
    ensures
        !task.err && task.keep ==> task.plan(bytes) == cut_off(task.fat_type, bytes, task.from),
        !task.err && !task.keep ==> task.plan(bytes) == freed(task.fat_type, bytes, task.from),
        task.err && entry::fits(task.fat_type, bytes.len(), task.from as int) ==> task.plan(
            bytes,
        ) is None,
        task.err && !entry::fits(task.fat_type, bytes.len(), task.from as int) ==> task.plan(bytes)
            == Some(Freed { bytes, count: 0, stray: Some(task.from) }),
{
}

/// What is reported of a release: the number of clusters that were set free, or the cluster
/// outside the table where it stopped.
pub proof fn law_a_release_is_reported<E>(plan: Freed)
    requires
        plan.count <= u32::MAX,
    ensures
        match plan.stray {
            None => report::<E>(plan) matches Released::Ended { result: Ok(n), cluster, err } && n
                == plan.count && cluster is None && !err,
            Some(c) => report::<E>(plan) == (Released::Ended::<E> {
                result: Err(FatError::UnexpectedEof),
                cluster: Some(c),
                err: true,
            }),
        },
{
}

/// A walk goes on as the entry of its cluster says: it moves to the next cluster and gives it,
/// ends where the chain ends, and is over with the error of an entry that cannot be read.
pub proof fn law_a_walk_goes_where_the_entry_says<B, E>(
    walk: ClusterIterator<B>,
    read: Result<Option<u32>, FatError<E>>,
)
    ensures
        walk.err ==> walk.pending() is None,
        !walk.err ==> walk.pending() == walk.cluster,
        ({
            let then = walk.moved(read);
            let given = ClusterIterator::<B>::given(read);
            &&& then.fat == walk.fat && then.fat_type == walk.fat_type
            &&& match read {
                Ok(Some(n)) => then.cluster == Some(n) && then.err == walk.err && given == Some(
                    Ok::<u32, FatError<E>>(n),
                ),
                Ok(None) => then.cluster is None && then.err == walk.err && given is None,
                Err(e) => then.cluster == walk.cluster && then.err && given == Some(
                    Err::<u32, FatError<E>>(e),
                ),
            }
        }),
        forall|keep: bool|
            match walk.cluster {
                None => #[trigger] walk.release_task(keep) is None,
                Some(from) => walk.release_task(keep) == Some(
                    ReleaseTask { fat_type: walk.fat_type, from, keep, err: walk.err },
                ),
            },
{
}

/// An entry is written where it lies: the cluster that stays ends the chain, and every other
/// one is set free. Only an entry of a FAT32 with a special number is looked at instead, where
/// it would be set free.
pub proof fn law_a_release_writes_the_entry_of_its_cluster<E>(
    state: ReleaseState,
    step: Step<ReleaseChain, Released<E>>,
)
    requires
        state.begins_to_write(step),
    ensures
        ({
            let c = state.cluster as int;
            let barred = state.task.fat_type is Fat32 && !state.keeping && 0xFFF_FFF7 <= c
                <= 0xFFF_FFFF;
            &&& step matches Step::Do(m, op)
            &&& m.state == state
            &&& op == StreamOp::SeekTo(
                match state.task.fat_type {
                    FatType::Fat12 => (c + c / 2) as u64,
                    FatType::Fat16 => (2 * c) as u64,
                    FatType::Fat32 => (4 * c) as u64,
                },
            )
            &&& match m.phase {
                ReleasePhase::Next(_) => false,
                ReleasePhase::Write(write) => {
                    &&& !barred
                    &&& write.fat_type == state.task.fat_type
                    &&& write.cluster == state.cluster
                    &&& write.value == if state.keeping {
                        FatValue::EndOfChain
                    } else {
                        FatValue::Free
                    }
                },
                ReleasePhase::Probe(probe) => {
                    &&& barred
                    &&& probe.fat_type == state.task.fat_type
                    &&& probe.cluster == state.cluster
                },
            }
        }),
{
}

} // verus!
