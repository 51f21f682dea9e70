//! Taking a free cluster into a chain.

use vstd::prelude::*;

use crate::fat::access::{WriteFat, WriteTask};
use crate::fat::entry;
use crate::fat::entry::{FatType, FatValue, RESERVED_FAT_ENTRIES};
use crate::fat::laws;
use crate::fat::scan;
use crate::fat::scan::{CountTask, FindFree, FindPhase, FindTask};
use crate::fat::stream;
use crate::fat::stream::{
    run, FatError, MemStream, Step, StreamMachine, StreamOp, StreamReply, StreamState,
};

verus! {

/// A cluster to be taken: below `end`, looked for from `start` on and then, if none
/// is free there, below `start`. It comes after `prev` in a chain, or begins one.
pub struct AllocTask {
    pub fat_type: FatType,
    pub prev: Option<u32>,
    pub start: u32,
    pub end: u32,
    pub erased_byte: u8,
}

impl AllocTask {
    /// The search from `start` on.
    pub open spec fn first(self) -> FindTask {
        FindTask {
            fat_type: self.fat_type,
            start: self.start,
            end: self.end,
            erased_byte: self.erased_byte,
        }
    }

    /// The search below `start`.
    pub open spec fn second(self) -> FindTask {
        FindTask {
            fat_type: self.fat_type,
            start: RESERVED_FAT_ENTRIES,
            end: self.start,
            erased_byte: self.erased_byte,
        }
    }

    /// The free cluster that is found.
    pub open spec fn found<E>(self, bytes: Seq<u8>) -> Result<u32, FatError<E>> {
        let first = self.first().result::<E>(bytes);
        if first is Err && self.start > RESERVED_FAT_ENTRIES {
            self.second().result::<E>(bytes)
        } else {
            first
        }
    }

    /// The table after the cluster was taken: it ends its chain, and the one before
    /// it, if there is one, points to it.
    pub open spec fn after(self, bytes: Seq<u8>) -> Seq<u8> {
        match self.found::<()>(bytes) {
            Err(_) => bytes,
            Ok(n) => {
                let ended = entry::put(self.fat_type, bytes, n as int, FatValue::EndOfChain);
                match self.prev {
                    Some(p) if entry::fits(self.fat_type, bytes.len(), p as int) => entry::put(
                        self.fat_type,
                        ended,
                        p as int,
                        FatValue::Data(n),
                    ),
                    _ => ended,
                }
            },
        }
    }

    /// What taking the cluster gives.
    pub open spec fn result<E>(self, bytes: Seq<u8>) -> Result<u32, FatError<E>> {
        match (self.found::<E>(bytes), self.prev) {
            (Ok(n), Some(p)) => if entry::fits(self.fat_type, bytes.len(), p as int) {
                Ok(n)
            } else {
                Err(FatError::UnexpectedEof)
            },
            (found, _) => found,
        }
    }
}

/// Where taking a cluster stands.
pub enum AllocPhase {
    /// Looking for a free cluster from `start` on.
    First(FindFree),
    /// Looking for one below `start`.
    Second(FindFree),
    /// Making this cluster the end of its chain.
    End(u32, WriteFat),
    /// Pointing from `prev` to this cluster.
    Link(u32, WriteFat),
}

/// Takes a free cluster.
pub struct Alloc {
    pub fat_type: FatType,
    pub prev: Option<u32>,
    pub start: u32,
    pub end: u32,
    pub erased_byte: u8,
    pub phase: AllocPhase,
}

/// The cluster that a search begins at: the one that was hinted at, if it is one of
/// the volume.
pub open spec fn first_cluster(hint: Option<u32>, end: u32) -> u32 {
    match hint {
        Some(n) => if n < end {
            n
        } else {
            RESERVED_FAT_ENTRIES
        },
        None => RESERVED_FAT_ENTRIES,
    }
}

impl Alloc {
    /// Begin: look for a free cluster, at the hint first.
    pub fn start<E>(
        fat_type: FatType,
        prev: Option<u32>,
        hint: Option<u32>,
        total_clusters: u32,
        erased_byte: u8,
    ) -> (first: Step<Alloc, Result<u32, FatError<E>>>)
        requires
            total_clusters + RESERVED_FAT_ENTRIES <= u32::MAX,
        ensures
            ({
                let end = (total_clusters + RESERVED_FAT_ENTRIES) as u32;
                let start = first_cluster(hint, end);
                &&& first matches Step::Do(m, op)
                &&& <Alloc as StreamMachine<E>>::task(m) == AllocTask {
                    fat_type,
                    prev,
                    start,
                    end,
                    erased_byte,
                }
                &&& op == <Alloc as StreamMachine<E>>::pending(m)
                &&& forall|s: StreamState| #[trigger]
                    <Alloc as StreamMachine<E>>::reached(m, s, s)
            }),
    {
        let end: u32 = total_clusters + RESERVED_FAT_ENTRIES;
        let start: u32 = match hint {
            Some(n) => if n < end {
                n
            } else {
                RESERVED_FAT_ENTRIES
            },
            None => RESERVED_FAT_ENTRIES,
        };
        let (find, op): (FindFree, StreamOp) = FindFree::begin(fat_type, start, end, erased_byte);
        Step::Do(
            Alloc { fat_type, prev, start, end, erased_byte, phase: AllocPhase::First(find) },
            op,
        )
    }
}

impl<E> StreamMachine<E> for Alloc {
    type Task = AllocTask;

    type Out = Result<u32, FatError<E>>;

    open spec fn task(self) -> AllocTask {
        AllocTask {
            fat_type: self.fat_type,
            prev: self.prev,
            start: self.start,
            end: self.end,
            erased_byte: self.erased_byte,
        }
    }

    open spec fn pending(self) -> StreamOp {
        match self.phase {
            AllocPhase::First(find) => <FindFree as StreamMachine<E>>::pending(find),
            AllocPhase::Second(find) => <FindFree as StreamMachine<E>>::pending(find),
            AllocPhase::End(_, write) => <WriteFat as StreamMachine<E>>::pending(write),
            AllocPhase::Link(_, write) => <WriteFat as StreamMachine<E>>::pending(write),
        }
    }

    open spec fn reached(self, start: StreamState, now: StreamState) -> bool {
        let task = <Alloc as StreamMachine<E>>::task(self);
        match self.phase {
            AllocPhase::First(find) => {
                &&& now == start.at(now.pos)
                &&& <FindFree as StreamMachine<E>>::task(find) == task.first()
                &&& <FindFree as StreamMachine<E>>::reached(find, now, now)
            },
            AllocPhase::Second(find) => {
                &&& now == start.at(now.pos)
                &&& task.first().result::<E>(start.bytes) is Err
                &&& self.start > RESERVED_FAT_ENTRIES
                &&& <FindFree as StreamMachine<E>>::task(find) == task.second()
                &&& <FindFree as StreamMachine<E>>::reached(find, now, now)
            },
            AllocPhase::End(n, write) => {
                &&& now == start.at(now.pos)
                &&& task.found::<E>(start.bytes) == Ok::<u32, FatError<E>>(n)
                &&& <WriteFat as StreamMachine<E>>::task(write)
                    == WriteTask {
                    fat_type: self.fat_type,
                    cluster: n,
                    value: FatValue::EndOfChain,
                }
                &&& <WriteFat as StreamMachine<E>>::reached(write, now, now)
            },
            AllocPhase::Link(n, write) => {
                &&& now == (StreamState {
                    bytes: entry::put(
                        self.fat_type,
                        start.bytes,
                        n as int,
                        FatValue::EndOfChain,
                    ),
                    ..start.at(now.pos)
                })
                &&& task.found::<E>(start.bytes) == Ok::<u32, FatError<E>>(n)
                &&& self.prev matches Some(p)
                &&& <WriteFat as StreamMachine<E>>::task(write)
                    == WriteTask {
                    fat_type: self.fat_type,
                    cluster: p,
                    value: FatValue::Data(n),
                }
                &&& <WriteFat as StreamMachine<E>>::reached(write, now, now)
            },
        }
    }

    open spec fn remaining(self, start: StreamState) -> nat {
        match self.phase {
            AllocPhase::First(find) => <FindFree as StreamMachine<E>>::remaining(find, start)
                + 0x1_0000_0010,
            AllocPhase::Second(find) => <FindFree as StreamMachine<E>>::remaining(find, start) + 10,
            AllocPhase::End(_, write) => <WriteFat as StreamMachine<E>>::remaining(write, start)
                + 5,
            AllocPhase::Link(_, write) => <WriteFat as StreamMachine<E>>::remaining(write, start),
        }
    }

    open spec fn outcome(
        task: AllocTask,
        start: StreamState,
        end: StreamState,
        out: Result<u32, FatError<E>>,
    ) -> bool {
        &&& end == (StreamState { bytes: task.after(start.bytes), ..start.at(end.pos) })
        &&& out == task.result::<E>(start.bytes)
    }

    #[verifier::rlimit(30)]
    fn step(self, reply: StreamReply<E>) -> (next: Step<Self, Result<u32, FatError<E>>>)
        ensures
            reply matches StreamReply::Failed(e) ==> if self.phase is First && self.start
                > RESERVED_FAT_ENTRIES {
                // The search that has failed may have missed a cluster: the other one is
                // begun all the same.
                next matches Step::Do(m, op) && {
                    &&& m == (Alloc {
                        phase: AllocPhase::Second(
                            FindFree {
                                fat_type: self.fat_type,
                                start: RESERVED_FAT_ENTRIES,
                                end: self.start,
                                erased_byte: self.erased_byte,
                                cluster: RESERVED_FAT_ENTRIES,
                                phase: FindPhase::Seek,
                            },
                        ),
                        ..self
                    })
                    &&& op == <Alloc as StreamMachine<E>>::pending(m)
                }
            } else {
                stream::gives_up(next, e)
            },
    {
        proof {
            let task = <Alloc as StreamMachine<E>>::task(self);
            assert forall|start: StreamState, now: StreamState|
                #![trigger <Alloc as StreamMachine<E>>::reached(self, start, now)]
                start.wf() implies (task.found::<E>(start.bytes) matches Ok(n) ==> entry::fits(
                task.fat_type,
                start.bytes.len(),
                n as int,
            )) by {
                scan::law_find_gives_the_first_free_cluster::<E>(task.first(), start.bytes);
                scan::law_find_gives_the_first_free_cluster::<E>(task.second(), start.bytes);
            }
        }
        match self.phase {
            AllocPhase::First(find) => match find.step(reply) {
                Step::Do(find, op) => Step::Do(
                    Alloc { phase: AllocPhase::First(find), ..self },
                    op,
                ),
                Step::Done(Ok(n)) => {
                    let (write, op): (WriteFat, StreamOp) = WriteFat::begin(
                        self.fat_type,
                        n,
                        FatValue::EndOfChain,
                    );
                    Step::Do(Alloc { phase: AllocPhase::End(n, write), ..self }, op)
                },
                Step::Done(Err(e)) => {
                    if self.start > RESERVED_FAT_ENTRIES {
                        let (find, op): (FindFree, StreamOp) = FindFree::begin(
                            self.fat_type,
                            RESERVED_FAT_ENTRIES,
                            self.start,
                            self.erased_byte,
                        );
                        Step::Do(Alloc { phase: AllocPhase::Second(find), ..self }, op)
                    } else {
                        Step::Done(Err(e))
                    }
                },
            },
            AllocPhase::Second(find) => match find.step(reply) {
                Step::Do(find, op) => Step::Do(
                    Alloc { phase: AllocPhase::Second(find), ..self },
                    op,
                ),
                Step::Done(Ok(n)) => {
                    let (write, op): (WriteFat, StreamOp) = WriteFat::begin(
                        self.fat_type,
                        n,
                        FatValue::EndOfChain,
                    );
                    Step::Do(Alloc { phase: AllocPhase::End(n, write), ..self }, op)
                },
                Step::Done(Err(e)) => Step::Done(Err(e)),
            },
            AllocPhase::End(n, write) => match write.step(reply) {
                Step::Do(write, op) => Step::Do(
                    Alloc { phase: AllocPhase::End(n, write), ..self },
                    op,
                ),
                Step::Done(Ok(())) => match self.prev {
                    Some(p) => {
                        let (write, op): (WriteFat, StreamOp) = WriteFat::begin(
                            self.fat_type,
                            p,
                            FatValue::Data(n),
                        );
                        Step::Do(Alloc { phase: AllocPhase::Link(n, write), ..self }, op)
                    },
                    None => Step::Done(Ok(n)),
                },
                Step::Done(Err(e)) => Step::Done(Err(e)),
            },
            AllocPhase::Link(n, write) => match write.step(reply) {
                Step::Do(write, op) => Step::Do(
                    Alloc { phase: AllocPhase::Link(n, write), ..self },
                    op,
                ),
                Step::Done(Ok(())) => Step::Done(Ok(n)),
                Step::Done(Err(e)) => Step::Done(Err(e)),
            },
        }
    }
}

/// Take a free cluster, the one that was hinted at or the next one behind it if
/// there is any, and let `prev_cluster` point to it.
pub fn alloc_cluster(
    fat: &mut MemStream,
    fat_type: FatType,
    prev_cluster: Option<u32>,
    hint: Option<u32>,
    total_clusters: u32,
    erased_byte: u8,
) -> (out: Result<u32, FatError<()>>)
    requires
        old(fat)@.wf(),
        total_clusters + RESERVED_FAT_ENTRIES <= u32::MAX,
    ensures
        final(fat)@.wf(),
        ({
            let end = (total_clusters + RESERVED_FAT_ENTRIES) as u32;
            let task = AllocTask {
                fat_type,
                prev: prev_cluster,
                start: first_cluster(hint, end),
                end,
                erased_byte,
            };
            &&& final(fat)@ == (StreamState {
                bytes: task.after(old(fat)@.bytes),
                ..old(fat)@.at(final(fat)@.pos)
            })
            &&& out == task.result::<()>(old(fat)@.bytes)
        }),
{
    run::<(), Alloc>(
        Alloc::start(fat_type, prev_cluster, hint, total_clusters, erased_byte),
        fat,
    )
}

/// A cluster that is taken was free. It ends its chain, the one before it points to
/// it, and no other entry of the table changes.
///
/// The number of the cluster must be one that an entry can hold as a pointer, and the
/// cluster before it one whose entry is read as a pointer.
pub proof fn law_a_free_cluster_is_taken(task: AllocTask, bytes: Seq<u8>, taken: u32, other: int)
    requires
        bytes.len() <= u32::MAX,
        task.result::<()>(bytes) == Ok::<u32, FatError<()>>(taken),
        task.prev matches Some(p) ==> {
            &&& p != taken
            &&& entry::storable(task.fat_type, FatValue::Data(taken))
            &&& !(task.fat_type is Fat32 && entry::special(task.fat_type, p as int))
        },
        0 <= other,
        entry::fits(task.fat_type, bytes.len(), other),
        other != taken,
        task.prev matches Some(p) ==> other != p,
    ensures
        entry::is_free(task.fat_type, bytes, task.erased_byte, taken as int),
        entry::value(task.fat_type, task.after(bytes), taken as int) == FatValue::EndOfChain,
        task.prev matches Some(p) ==> entry::value(task.fat_type, task.after(bytes), p as int)
            == FatValue::Data(taken),
        entry::raw(task.fat_type, task.after(bytes), other) == entry::raw(
            task.fat_type,
            bytes,
            other,
        ),
{
    let ft = task.fat_type;
    scan::law_find_gives_the_first_free_cluster::<()>(task.first(), bytes);
    scan::law_find_gives_the_first_free_cluster::<()>(task.second(), bytes);
    let ended = entry::put(ft, bytes, taken as int, FatValue::EndOfChain);
    laws::law_read_gives_what_was_written(ft, bytes, taken as int, FatValue::EndOfChain);
    laws::law_write_keeps_the_other_entries(ft, bytes, taken as int, FatValue::EndOfChain, other);
    if let Some(p) = task.prev {
        laws::law_read_gives_what_was_written(ft, ended, p as int, FatValue::Data(taken));
        laws::law_write_keeps_the_other_entries(ft, ended, p as int, FatValue::Data(taken), other);
        laws::law_write_keeps_the_other_entries(
            ft,
            ended,
            p as int,
            FatValue::Data(taken),
            taken as int,
        );
    }
}

/// A cluster is found exactly where one of the volume is free, whatever the hint:
/// the search goes on below the hint where nothing behind it is free. A reserved
/// cluster is looked at only where it was hinted at.
pub proof fn law_a_free_cluster_is_found(task: AllocTask, bytes: Seq<u8>)
    requires
        bytes.len() <= u32::MAX,
        task.start < task.end,
        entry::fits(task.fat_type, bytes.len(), task.end - 1),
    ensures
        task.found::<()>(bytes) is Ok <==> exists|c: int|
            (RESERVED_FAT_ENTRIES <= c || task.start <= c) && c < task.end
                && #[trigger] entry::is_free(
                task.fat_type,
                bytes,
                task.erased_byte,
                c,
            ),
        task.found::<()>(bytes) matches Err(e) ==> e == FatError::<()>::NotEnoughSpace,
{
    scan::law_find_gives_the_first_free_cluster::<()>(task.first(), bytes);
    scan::law_find_gives_the_first_free_cluster::<()>(task.second(), bytes);
    scan::lemma_no_early_end(task.first(), bytes);
    if task.start > RESERVED_FAT_ENTRIES {
        scan::lemma_no_early_end(task.second(), bytes);
    }
}

/// Taking a cluster leaves one free cluster less. A device that erases to 0xFF is
/// another matter: there the end of a chain reads as free.
pub proof fn law_taking_a_cluster_lowers_the_count(
    task: AllocTask,
    bytes: Seq<u8>,
    taken: u32,
    count: CountTask,
)
    requires
        bytes.len() <= u32::MAX,
        task.result::<()>(bytes) == Ok::<u32, FatError<()>>(taken),
        task.prev matches Some(p) ==> {
            &&& p != taken
            &&& entry::storable(task.fat_type, FatValue::Data(taken))
            &&& !entry::is_free(task.fat_type, bytes, task.erased_byte, p as int)
        },
        count.fat_type == task.fat_type,
        count.erased_byte == task.erased_byte,
        count.erased_byte != 0xFF,
        RESERVED_FAT_ENTRIES <= taken < count.end,
        entry::fits(count.fat_type, bytes.len(), count.end - 1),
    ensures
        count.free_below(task.after(bytes), count.end as int) == count.free_below(
            bytes,
            count.end as int,
        ) - 1,
{
    let ft = task.fat_type;
    let end = count.end as int;
    let last = FatValue::EndOfChain;
    scan::law_find_gives_the_first_free_cluster::<()>(task.first(), bytes);
    scan::law_find_gives_the_first_free_cluster::<()>(task.second(), bytes);
    let ended = entry::put(ft, bytes, taken as int, last);
    laws::lemma_put_keeps_len(ft, bytes, taken as int, last);
    laws::lemma_put_raw(ft, bytes, taken as int, last);
    scan::lemma_count_after_put(count, bytes, taken as int, last, end);
    if let Some(p) = task.prev {
        laws::law_write_keeps_the_other_entries(ft, bytes, taken as int, last, p as int);
        laws::lemma_put_raw(ft, ended, p as int, FatValue::Data(taken));
        scan::lemma_count_after_put(count, ended, p as int, FatValue::Data(taken), end);
    }
}

/// A cluster that a search would stop at: it is free, and every one before it, from `from` on,
/// is in the table and in use.
pub open spec fn first_free(task: AllocTask, bytes: Seq<u8>, from: int, n: int) -> bool {
    &&& from <= n
    &&& entry::fits(task.fat_type, bytes.len(), n)
    &&& entry::is_free(task.fat_type, bytes, task.erased_byte, n)
    &&& forall|c: int|
        from <= c < n ==> !#[trigger] entry::is_free(task.fat_type, bytes, task.erased_byte, c)
            && entry::fits(task.fat_type, bytes.len(), c)
}

/// Taking a cluster of a volume that lies in the table succeeds exactly where one is free: it
/// gives the first free one from the start on, or the first one of the volume where none is
/// free there. It fails for want of space and for nothing else, unless the cluster before it
/// has no entry.
pub proof fn law_an_allocation_gives_the_first_free_cluster(task: AllocTask, bytes: Seq<u8>)
    requires
        bytes.len() <= u32::MAX,
        task.start < task.end,
        entry::fits(task.fat_type, bytes.len(), task.end - 1),
        task.prev matches Some(p) ==> entry::fits(task.fat_type, bytes.len(), p as int),
    ensures
        forall|n: u32|
            #![trigger first_free(task, bytes, task.start as int, n as int)]
            n < task.end && first_free(task, bytes, task.start as int, n as int) ==> task.result::<
                (),
            >(bytes) == Ok::<u32, FatError<()>>(n),
        forall|n: u32|
            #![trigger first_free(task, bytes, 2, n as int)]
            (forall|c: int|
                task.start <= c < task.end ==> !#[trigger] entry::is_free(
                    task.fat_type,
                    bytes,
                    task.erased_byte,
                    c,
                )) && n < task.start && first_free(task, bytes, 2, n as int) ==> task.result::<()>(
                bytes,
            ) == Ok::<u32, FatError<()>>(n),
        (forall|c: int|
            (2 <= c || task.start <= c) && c < task.end ==> !#[trigger] entry::is_free(
                task.fat_type,
                bytes,
                task.erased_byte,
                c,
            )) ==> task.result::<()>(bytes) == Err::<u32, FatError<()>>(FatError::NotEnoughSpace)
            && task.after(bytes) == bytes,
        task.result::<()>(bytes) is Ok <==> exists|c: int|
            (2 <= c || task.start <= c) && c < task.end && #[trigger] entry::is_free(
                task.fat_type,
                bytes,
                task.erased_byte,
                c,
            ),
{
    let ft = task.fat_type;
    law_a_free_cluster_is_found(task, bytes);
    scan::law_find_gives_the_first_free_cluster::<()>(task.first(), bytes);
    scan::law_find_gives_the_first_free_cluster::<()>(task.second(), bytes);
    scan::lemma_no_early_end(task.first(), bytes);
    if task.start > 2 {
        scan::lemma_no_early_end(task.second(), bytes);
    }
    assert forall|n: u32|
        #![trigger first_free(task, bytes, task.start as int, n as int)]
        n < task.end && first_free(task, bytes, task.start as int, n as int) implies task.result::<
        (),
    >(bytes) == Ok::<u32, FatError<()>>(n) by {
        assert(entry::is_free(ft, bytes, task.erased_byte, n as int));
        match task.first().result::<()>(bytes) {
            Ok(m) => {
                assert(entry::is_free(ft, bytes, task.erased_byte, m as int));
            },
            Err(_) => {},
        }
    }
    assert forall|n: u32|
        #![trigger first_free(task, bytes, 2, n as int)]
        (forall|c: int|
            task.start <= c < task.end ==> !#[trigger] entry::is_free(
                ft,
                bytes,
                task.erased_byte,
                c,
            )) && n < task.start && first_free(task, bytes, 2, n as int) implies task.result::<()>(
        bytes,
    ) == Ok::<u32, FatError<()>>(n) by {
        assert(entry::is_free(ft, bytes, task.erased_byte, n as int));
        match task.second().result::<()>(bytes) {
            Ok(m) => {
                assert(entry::is_free(ft, bytes, task.erased_byte, m as int));
            },
            Err(_) => {},
        }
    }
}

/// What an allocation does, whatever the volume: it searches from the start to the end, and
/// where that gives none and the start is behind the reserved clusters, from these to the
/// start. The cluster that is found ends a chain, and the cluster before it is made to point
/// to it; without one, nothing changes. It fails as the search that came last fails, or for a
/// cluster before it that has no entry.
pub proof fn law_an_allocation_links_what_it_finds(task: AllocTask, bytes: Seq<u8>)
    ensures
        ({
            let ft = task.fat_type;
            let behind = (FindTask {
                fat_type: ft,
                start: task.start,
                end: task.end,
                erased_byte: task.erased_byte,
            }).result::<()>(bytes);
            let below = (FindTask {
                fat_type: ft,
                start: 2,
                end: task.start,
                erased_byte: task.erased_byte,
            }).result::<()>(bytes);
            let search = if behind is Ok || task.start <= 2 {
                behind
            } else {
                below
            };
            match (search, task.prev) {
                (Err(e), _) => task.result::<()>(bytes) == Err::<u32, FatError<()>>(e)
                    && task.after(bytes) == bytes,
                (Ok(n), None) => task.result::<()>(bytes) == Ok::<u32, FatError<()>>(n)
                    && task.after(bytes) == entry::put(ft, bytes, n as int, FatValue::EndOfChain),
                (Ok(n), Some(p)) => {
                    let ended = entry::put(ft, bytes, n as int, FatValue::EndOfChain);
                    if entry::fits(ft, bytes.len(), p as int) {
                        task.result::<()>(bytes) == Ok::<u32, FatError<()>>(n) && task.after(bytes)
                            == entry::put(ft, ended, p as int, FatValue::Data(n))
                    } else {
                        task.result::<()>(bytes) == Err::<u32, FatError<()>>(
                            FatError::UnexpectedEof,
                        ) && task.after(bytes) == ended
                    }
                },
            }
        }),
{
}

/// A search begins at the hint where it is a cluster of the volume, and at the first cluster
/// otherwise.
pub proof fn law_a_hint_of_the_volume_is_taken(hint: Option<u32>, end: u32)
    ensures
        hint matches Some(n) && n < end ==> first_cluster(hint, end) == hint->0,
        hint matches Some(n) && n >= end ==> first_cluster(hint, end) == 2,
        hint is None ==> first_cluster(hint, end) == 2,
{
}

} // verus!
