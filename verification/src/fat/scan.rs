//! Looking for free clusters.

use vstd::prelude::*;

use crate::fat::entry;
use crate::fat::entry::{
    entry_offset, is_free_fat12, is_free_fat16, is_free_fat32, FatType, FatValue,
    RESERVED_FAT_ENTRIES,
};
use crate::fat::laws;
use crate::fat::stream;
use crate::fat::stream::{
    run, FatError, MemStream, Step, StreamMachine, StreamOp, StreamReply, StreamState,
};

verus! {

/// A range of clusters to look through, and what the device erases to.
pub struct FindTask {
    pub fat_type: FatType,
    pub start: u32,
    pub end: u32,
    pub erased_byte: u8,
}

impl FindTask {
    /// A search of a FAT12 looks at its first cluster before it looks at its end,
    /// so that one which begins at or behind its end goes on to the end of the
    /// table.
    pub open spec fn unbounded(self) -> bool {
        self.fat_type is Fat12 && self.start >= self.end
    }

    /// No cluster from here on is looked at.
    pub open spec fn limit(self, len: nat) -> int {
        if self.unbounded() {
            self.start + len + 2
        } else {
            self.end as int
        }
    }

    /// The first cluster from `cluster` on that is free, or is not in the table,
    /// or is the limit.
    pub open spec fn scan(self, bytes: Seq<u8>, cluster: int) -> int
        decreases self.limit(bytes.len()) - cluster,
    {
        if cluster >= self.limit(bytes.len()) || !entry::fits(self.fat_type, bytes.len(), cluster)
            || entry::is_free(self.fat_type, bytes, self.erased_byte, cluster) {
            cluster
        } else {
            self.scan(bytes, cluster + 1)
        }
    }

    /// What looking for a free cluster gives.
    pub open spec fn result<E>(self, bytes: Seq<u8>) -> Result<u32, FatError<E>> {
        let found = self.scan(bytes, self.start as int);
        if found >= self.limit(bytes.len()) {
            Err(FatError::NotEnoughSpace)
        } else if !entry::fits(self.fat_type, bytes.len(), found) {
            Err(FatError::UnexpectedEof)
        } else {
            Ok(found as u32)
        }
    }
}

/// A cluster of the table that a search passes over.
spec fn passed_over(task: FindTask, bytes: Seq<u8>, cluster: int) -> bool {
    &&& cluster < task.limit(bytes.len())
    &&& entry::fits(task.fat_type, bytes.len(), cluster)
    &&& !entry::is_free(task.fat_type, bytes, task.erased_byte, cluster)
}

/// A search passes over every cluster before the one where it stops.
proof fn lemma_scan(task: FindTask, bytes: Seq<u8>, from: int)
    ensures
        from <= task.scan(bytes, from),
        forall|c: int| from <= c < task.scan(bytes, from) ==> #[trigger] passed_over(task, bytes, c),
        !passed_over(task, bytes, task.scan(bytes, from)),
    decreases task.limit(bytes.len()) - from,
{
    if passed_over(task, bytes, from) {
        lemma_scan(task, bytes, from + 1);
    }
}

/// A search gives the first free cluster of its range. It says that there is none
/// only where every cluster of the range is in use, and that the table ends only
/// where it does so before a free cluster is found.
pub proof fn law_find_gives_the_first_free_cluster<E>(task: FindTask, bytes: Seq<u8>)
    requires
        bytes.len() <= u32::MAX,
    ensures
        match task.result::<E>(bytes) {
            Ok(n) => {
                &&& task.start <= n
                &&& !task.unbounded() ==> n < task.end
                &&& entry::fits(task.fat_type, bytes.len(), n as int)
                &&& entry::is_free(task.fat_type, bytes, task.erased_byte, n as int)
                &&& forall|c: int|
                    task.start <= c < n ==> !#[trigger] entry::is_free(
                        task.fat_type,
                        bytes,
                        task.erased_byte,
                        c,
                    )
            },
            Err(FatError::NotEnoughSpace) => {
                &&& !task.unbounded()
                &&& forall|c: int|
                    task.start <= c < task.end ==> !#[trigger] entry::is_free(
                        task.fat_type,
                        bytes,
                        task.erased_byte,
                        c,
                    )
            },
            Err(FatError::UnexpectedEof) => {
                forall|c: int|
                    task.start <= c && #[trigger] entry::fits(task.fat_type, bytes.len(), c)
                        ==> !entry::is_free(task.fat_type, bytes, task.erased_byte, c)
            },
            Err(_) => false,
        },
{
    let found = task.scan(bytes, task.start as int);
    lemma_scan(task, bytes, task.start as int);
    assert forall|c: int| task.start <= c < found implies !#[trigger] entry::is_free(
        task.fat_type,
        bytes,
        task.erased_byte,
        c,
    ) && entry::fits(task.fat_type, bytes.len(), c) by {
        assert(passed_over(task, bytes, c));
    }
    if found > task.start {
        assert(passed_over(task, bytes, found - 1));
    }
}

/// A search of clusters that are all in the table does not come to the table's end.
pub proof fn lemma_no_early_end(task: FindTask, bytes: Seq<u8>)
    requires
        task.start < task.end,
        entry::fits(task.fat_type, bytes.len(), task.end - 1),
    ensures
        task.result::<()>(bytes) matches Err(e) ==> e == FatError::<()>::NotEnoughSpace,
{
    lemma_scan(task, bytes, task.start as int);
}

/// Where a search stands.
pub enum FindPhase {
    /// Seeking to the first entry.
    Seek,
    /// Reading the first entry.
    First,
    /// Reading the entry after this one, which a FAT12 may share a byte with.
    Next(u16),
}

/// Looks for a free cluster.
pub struct FindFree {
    pub fat_type: FatType,
    pub start: u32,
    pub end: u32,
    pub erased_byte: u8,
    /// The cluster whose entry comes next.
    pub cluster: u32,
    pub phase: FindPhase,
}

impl FindFree {
    /// Begin: seek to the first entry.
    pub fn begin(fat_type: FatType, start: u32, end: u32, erased_byte: u8) -> (first: (
        FindFree,
        StreamOp,
    ))
        ensures
            first.0 == (FindFree {
                fat_type,
                start,
                end,
                erased_byte,
                cluster: start,
                phase: FindPhase::Seek,
            }),
            first.1 == StreamOp::SeekTo(entry::offset(fat_type, start as int) as u64),
    {
        (
            FindFree {
                fat_type,
                start,
                end,
                erased_byte,
                cluster: start,
                phase: FindPhase::Seek,
            },
            StreamOp::SeekTo(entry_offset(fat_type, start)),
        )
    }

    /// Begin, as a step.
    pub fn start<E>(fat_type: FatType, start: u32, end: u32, erased_byte: u8) -> (first: Step<
        FindFree,
        Result<u32, FatError<E>>,
    >)
        ensures
            first matches Step::Do(m, op) && {
                &&& <FindFree as StreamMachine<E>>::task(m) == FindTask {
                    fat_type,
                    start,
                    end,
                    erased_byte,
                }
                &&& op == <FindFree as StreamMachine<E>>::pending(m)
                &&& forall|s: StreamState| #[trigger]
                    <FindFree as StreamMachine<E>>::reached(m, s, s)
            },
    {
        let (m, op): (FindFree, StreamOp) = FindFree::begin(fat_type, start, end, erased_byte);
        Step::Do(m, op)
    }

    /// The search, gone on to the next cluster.
    pub open spec fn advanced(self, packed: u16) -> FindFree {
        FindFree {
            cluster: ((self.cluster + 1) % 0x1_0000_0000) as u32,
            phase: FindPhase::Next(packed),
            ..self
        }
    }

    /// The search has come to its end. That of a FAT12 looks for the end itself.
    pub open spec fn exhausted(self) -> bool {
        if self.fat_type is Fat12 {
            self.cluster == self.end
        } else {
            self.cluster >= self.end
        }
    }

    /// The cluster is not free: go on with the next one, or give up.
    fn advance<E>(self, packed: u16) -> (next: Step<FindFree, Result<u32, FatError<E>>>)
        ensures
            if self.advanced(packed).exhausted() {
                stream::gives_up(next, FatError::NotEnoughSpace)
            } else {
                next matches Step::Do(m, op) && m == self.advanced(packed) && op
                    == <FindFree as StreamMachine<E>>::pending(m)
            },
    {
        let cluster: u32 = self.cluster.wrapping_add(1);
        assert(cluster & 1 == cluster % 2) by (bit_vector);
        let op: StreamOp = match self.fat_type {
            FatType::Fat12 => {
                if cluster == self.end {
                    return Step::Done(Err(FatError::NotEnoughSpace));
                }
                if cluster & 1 == 0 {
                    StreamOp::ReadU16
                } else {
                    StreamOp::ReadU8
                }
            },
            FatType::Fat16 => {
                if cluster >= self.end {
                    return Step::Done(Err(FatError::NotEnoughSpace));
                }
                StreamOp::ReadU16
            },
            FatType::Fat32 => {
                if cluster >= self.end {
                    return Step::Done(Err(FatError::NotEnoughSpace));
                }
                StreamOp::ReadU32
            },
        };
        Step::Do(FindFree { cluster, phase: FindPhase::Next(packed), ..self }, op)
    }
}

/// The entry of an odd cluster of a FAT12 that follows the two bytes of the even
/// one before it.
proof fn lemma_odd_entry(packed: u16, byte: u8)
    ensures
        ((packed >> 8) | ((byte as u16) << 8)) == packed / 0x100 + 0x100 * byte,
        ((packed >> 8) | ((byte as u16) << 8)) >> 4 == (packed / 0x100 + 0x100 * byte) / 0x10,
        (((byte as u16) << 4) | (packed >> 12)) == (packed / 0x100 + 0x100 * byte) / 0x10,
{
    assert(((packed >> 8) | ((byte as u16) << 8)) == packed / 0x100 + 0x100 * byte && ((packed >> 8)
        | ((byte as u16) << 8)) >> 4 == (packed / 0x100 + 0x100 * byte) / 0x10 && (((byte as u16)
        << 4) | (packed >> 12)) == (packed / 0x100 + 0x100 * byte) / 0x10) by (bit_vector);
}

/// A run of a search over a stream that never fails has come to `now`, and this is
/// the stream's reply.
spec fn replied<E>(m: FindFree, reply: StreamReply<E>, start: StreamState, now: StreamState) -> bool {
    &&& start.wf()
    &&& now.wf()
    &&& <FindFree as StreamMachine<E>>::reached(m, start, now)
    &&& reply == now.serve::<E>(<FindFree as StreamMachine<E>>::pending(m)).1
}

/// A search goes on to the next cluster, or comes to its end without one.
spec fn goes_on<E>(m: FindFree, start: StreamState, now: StreamState, packed: u16) -> bool {
    let after = now.serve::<E>(<FindFree as StreamMachine<E>>::pending(m)).0;
    let task = <FindFree as StreamMachine<E>>::task(m);
    let next = m.advanced(packed);
    if next.exhausted() {
        <FindFree as StreamMachine<E>>::outcome(
            task,
            start,
            after,
            Err(FatError::NotEnoughSpace),
        )
    } else {
        &&& <FindFree as StreamMachine<E>>::task(next) == task
        &&& <FindFree as StreamMachine<E>>::reached(next, start, after)
        &&& <FindFree as StreamMachine<E>>::remaining(next, start)
            < <FindFree as StreamMachine<E>>::remaining(m, start)
    }
}

/// A search that has seen a cluster in use comes to the next one, or to its end.
proof fn lemma_find_advance<E>(
    m: FindFree,
    reply: StreamReply<E>,
    start: StreamState,
    now: StreamState,
    packed: u16,
)
    requires
        replied(m, reply, start, now),
        !(m.phase is Seek),
        !(reply is Failed),
        !entry::is_free(m.fat_type, start.bytes, m.erased_byte, m.cluster as int),
        m.fat_type is Fat12 && m.cluster % 2 == 0 ==> packed == entry::le16(
            start.bytes,
            entry::offset(m.fat_type, m.cluster as int),
        ),
    ensures
        goes_on::<E>(m, start, now, packed),
{
    let task = <FindFree as StreamMachine<E>>::task(m);
    let next = m.advanced(packed);
    assert(entry::fits(m.fat_type, start.bytes.len(), m.cluster as int));
    assert(m.cluster < u32::MAX);
    assert(next.cluster == m.cluster + 1);
    assert(task.scan(start.bytes, m.cluster as int) == task.scan(start.bytes, m.cluster + 1));
}

impl<E> StreamMachine<E> for FindFree {
    type Task = FindTask;

    type Out = Result<u32, FatError<E>>;

    open spec fn task(self) -> FindTask {
        FindTask {
            fat_type: self.fat_type,
            start: self.start,
            end: self.end,
            erased_byte: self.erased_byte,
        }
    }

    open spec fn pending(self) -> StreamOp {
        match self.phase {
            FindPhase::Seek => StreamOp::SeekTo(
                entry::offset(self.fat_type, self.start as int) as u64,
            ),
            FindPhase::First => match self.fat_type {
                FatType::Fat32 => StreamOp::ReadU32,
                _ => StreamOp::ReadU16,
            },
            FindPhase::Next(_) => match self.fat_type {
                FatType::Fat12 => if self.cluster % 2 == 0 {
                    StreamOp::ReadU16
                } else {
                    StreamOp::ReadU8
                },
                FatType::Fat16 => StreamOp::ReadU16,
                FatType::Fat32 => StreamOp::ReadU32,
            },
        }
    }

    open spec fn reached(self, start: StreamState, now: StreamState) -> bool {
        let task = <FindFree as StreamMachine<E>>::task(self);
        let at = entry::offset(self.fat_type, self.cluster as int);
        &&& task.scan(start.bytes, task.start as int) == task.scan(
            start.bytes,
            self.cluster as int,
        )
        &&& self.start <= self.cluster
        &&& match self.phase {
            FindPhase::Seek => now == start && self.cluster == self.start,
            FindPhase::First => {
                &&& now == start.at(at)
                &&& self.cluster == self.start
                &&& self.cluster < task.limit(start.bytes.len())
            },
            FindPhase::Next(packed) => {
                &&& self.start < self.cluster < task.limit(start.bytes.len())
                &&& entry::fits(self.fat_type, start.bytes.len(), self.cluster - 1)
                &&& if self.fat_type is Fat12 && self.cluster % 2 != 0 {
                    &&& now == start.at(at + 1)
                    &&& packed == entry::le16(start.bytes, at - 1)
                } else {
                    now == start.at(at)
                }
            },
        }
    }

    open spec fn remaining(self, start: StreamState) -> nat {
        let limit = <FindFree as StreamMachine<E>>::task(self).limit(start.bytes.len());
        let left = if self.cluster < limit {
            limit - self.cluster
        } else {
            0
        };
        (left + if self.phase is Seek {
            1int
        } else {
            0int
        }) as nat
    }

    open spec fn outcome(
        task: FindTask,
        start: StreamState,
        end: StreamState,
        out: Result<u32, FatError<E>>,
    ) -> bool {
        &&& end == start.at(end.pos)
        &&& out == task.result::<E>(start.bytes)
    }

    fn step(self, reply: StreamReply<E>) -> (next: Step<Self, Result<u32, FatError<E>>>)
        ensures
            reply matches StreamReply::Failed(e) ==> stream::gives_up(next, e),
    {
        match reply {
            StreamReply::Failed(e) => Step::Done(Err(e)),
            StreamReply::Done => {
                let op: StreamOp = match self.fat_type {
                    FatType::Fat12 => StreamOp::ReadU16,
                    FatType::Fat16 => {
                        if self.cluster >= self.end {
                            return Step::Done(Err(FatError::NotEnoughSpace));
                        }
                        StreamOp::ReadU16
                    },
                    FatType::Fat32 => {
                        if self.cluster >= self.end {
                            return Step::Done(Err(FatError::NotEnoughSpace));
                        }
                        StreamOp::ReadU32
                    },
                };
                Step::Do(FindFree { phase: FindPhase::First, ..self }, op)
            },
            StreamReply::U8(byte) => {
                let packed: u16 = match self.phase {
                    FindPhase::Next(prev) => {
                        proof {
                            lemma_odd_entry(prev, byte);
                        }
                        (prev >> 8) | ((byte as u16) << 8)
                    },
                    _ => byte as u16,
                };
                if is_free_fat12(packed >> 4, self.erased_byte) {
                    return Step::Done(Ok(self.cluster));
                }
                assert forall|start: StreamState, now: StreamState|
                    #![trigger <FindFree as StreamMachine<E>>::reached(self, start, now)]
                    replied(self, reply, start, now) implies goes_on::<E>(self, start, now, packed) by {
                    lemma_find_advance(self, reply, start, now, packed);
                }
                self.advance(packed)
            },
            StreamReply::U16(packed) => {
                let cluster: u32 = self.cluster;
                assert(cluster & 1 == cluster % 2) by (bit_vector);
                assert(packed & 0x0FFF == packed % 0x1000) by (bit_vector);
                assert(packed >> 4 == packed / 0x10) by (bit_vector);
                let free: bool = match self.fat_type {
                    FatType::Fat12 => {
                        let val: u16 = if self.cluster & 1 == 0 {
                            packed & 0x0FFF
                        } else {
                            packed >> 4
                        };
                        is_free_fat12(val, self.erased_byte)
                    },
                    _ => is_free_fat16(packed, self.erased_byte),
                };
                if free {
                    return Step::Done(Ok(self.cluster));
                }
                assert forall|start: StreamState, now: StreamState|
                    #![trigger <FindFree as StreamMachine<E>>::reached(self, start, now)]
                    replied(self, reply, start, now) implies goes_on::<E>(self, start, now, packed) by {
                    lemma_find_advance(self, reply, start, now, packed);
                }
                self.advance(packed)
            },
            StreamReply::U32(val) => {
                assert(val & 0x0FFF_FFFF == val % 0x1000_0000) by (bit_vector);
                if is_free_fat32(val & 0x0FFF_FFFF, self.erased_byte) {
                    return Step::Done(Ok(self.cluster));
                }
                assert forall|start: StreamState, now: StreamState|
                    #![trigger <FindFree as StreamMachine<E>>::reached(self, start, now)]
                    replied(self, reply, start, now) implies goes_on::<E>(self, start, now, 0) by {
                    lemma_find_advance(self, reply, start, now, 0);
                }
                self.advance(0)
            },
        }
    }
}

/// The clusters of a table to count, and what the device erases to.
pub struct CountTask {
    pub fat_type: FatType,
    pub end: u32,
    pub erased_byte: u8,
}

impl CountTask {
    /// The number of free clusters below `cluster`.
    pub open spec fn free_below(self, bytes: Seq<u8>, cluster: int) -> nat
        decreases cluster,
    {
        if cluster <= RESERVED_FAT_ENTRIES {
            0
        } else if entry::is_free(self.fat_type, bytes, self.erased_byte, cluster - 1) {
            self.free_below(bytes, cluster - 1) + 1
        } else {
            self.free_below(bytes, cluster - 1)
        }
    }

    /// What counting the free clusters gives.
    pub open spec fn result<E>(self, bytes: Seq<u8>) -> Result<u32, FatError<E>> {
        if self.end <= RESERVED_FAT_ENTRIES || entry::fits(
            self.fat_type,
            bytes.len(),
            self.end - 1,
        ) {
            Ok(self.free_below(bytes, self.end as int) as u32)
        } else {
            Err(FatError::UnexpectedEof)
        }
    }
}

/// Where a count stands.
pub enum CountPhase {
    /// Seeking to the first entry.
    Seek,
    /// Reading the entry after this one, which a FAT12 may share a byte with.
    Read(u16),
}

/// Counts the free clusters.
pub struct CountFree {
    pub fat_type: FatType,
    pub end: u32,
    pub erased_byte: u8,
    /// The cluster whose entry comes next.
    pub cluster: u32,
    /// The free clusters so far.
    pub count: u32,
    pub phase: CountPhase,
}

impl CountFree {
    /// Begin: seek to the first entry.
    pub fn start<E>(fat_type: FatType, end: u32, erased_byte: u8) -> (first: Step<
        CountFree,
        Result<u32, FatError<E>>,
    >)
        ensures
            first matches Step::Do(m, op) && m == (CountFree {
                fat_type,
                end,
                erased_byte,
                cluster: RESERVED_FAT_ENTRIES,
                count: 0,
                phase: CountPhase::Seek,
            }) && op == StreamOp::SeekTo(
                entry::offset(fat_type, RESERVED_FAT_ENTRIES as int) as u64,
            ),
    {
        Step::Do(
            CountFree {
                fat_type,
                end,
                erased_byte,
                cluster: RESERVED_FAT_ENTRIES,
                count: 0,
                phase: CountPhase::Seek,
            },
            StreamOp::SeekTo(entry_offset(fat_type, RESERVED_FAT_ENTRIES)),
        )
    }

    /// Read the entry of the cluster, or end the count.
    fn go_on<E>(self) -> (next: Step<CountFree, Result<u32, FatError<E>>>)
        requires
            self.phase is Read,
        ensures
            if self.cluster < self.end {
                next matches Step::Do(m, op) && m == self && op
                    == <CountFree as StreamMachine<E>>::pending(m)
            } else {
                next matches Step::Done(Ok(count)) && count == self.count
            },
    {
        let cluster: u32 = self.cluster;
        assert(cluster & 1 == cluster % 2) by (bit_vector);
        if self.cluster >= self.end {
            return Step::Done(Ok(self.count));
        }
        let op: StreamOp = match self.fat_type {
            FatType::Fat12 => if self.cluster & 1 == 0 {
                StreamOp::ReadU16
            } else {
                StreamOp::ReadU8
            },
            FatType::Fat16 => StreamOp::ReadU16,
            FatType::Fat32 => StreamOp::ReadU32,
        };
        Step::Do(self, op)
    }
}

impl CountFree {
    /// The count, with one more cluster looked at.
    pub open spec fn counted(self, free: bool, packed: u16) -> CountFree {
        CountFree {
            count: if free {
                ((self.count + 1) % 0x1_0000_0000) as u32
            } else {
                self.count
            },
            cluster: ((self.cluster + 1) % 0x1_0000_0000) as u32,
            phase: CountPhase::Read(packed),
            ..self
        }
    }

    /// Count the cluster and go on with the next one, or end the count.
    fn count_one<E>(self, free: bool, packed: u16) -> (next: Step<
        CountFree,
        Result<u32, FatError<E>>,
    >)
        ensures
            ({
                let m = self.counted(free, packed);
                if m.cluster < m.end {
                    next matches Step::Do(then, op) && then == m && op
                        == <CountFree as StreamMachine<E>>::pending(m)
                } else {
                    next matches Step::Done(Ok(count)) && count == m.count
                }
            }),
    {
        let count: u32 = if free {
            self.count.wrapping_add(1)
        } else {
            self.count
        };
        CountFree {
            count,
            cluster: self.cluster.wrapping_add(1),
            phase: CountPhase::Read(packed),
            ..self
        }.go_on()
    }
}

/// A count has come to `now` over a stream that never fails, and goes on to the next
/// cluster or comes to its end.
spec fn counts_on<E>(
    m: CountFree,
    reply: StreamReply<E>,
    start: StreamState,
    now: StreamState,
    free: bool,
    packed: u16,
) -> bool {
    let op = <CountFree as StreamMachine<E>>::pending(m);
    let after = now.serve::<E>(op).0;
    let task = <CountFree as StreamMachine<E>>::task(m);
    let next = m.counted(free, packed);
    start.wf() && now.wf() && <CountFree as StreamMachine<E>>::reached(m, start, now) && reply
        == now.serve::<E>(op).1 ==> if next.cluster < next.end {
        &&& <CountFree as StreamMachine<E>>::task(next) == task
        &&& <CountFree as StreamMachine<E>>::reached(next, start, after)
        &&& <CountFree as StreamMachine<E>>::remaining(next, start)
            < <CountFree as StreamMachine<E>>::remaining(m, start)
    } else {
        <CountFree as StreamMachine<E>>::outcome(task, start, after, Ok(next.count))
    }
}

/// A count that has seen one more cluster comes to the next one, or to its end.
proof fn lemma_count_on<E>(
    m: CountFree,
    reply: StreamReply<E>,
    start: StreamState,
    now: StreamState,
    free: bool,
    packed: u16,
)
    requires
        !(m.phase is Seek),
        !(reply is Failed),
        <CountFree as StreamMachine<E>>::reached(m, start, now) && reply == now.serve::<E>(
            <CountFree as StreamMachine<E>>::pending(m),
        ).1 ==> {
            &&& free == entry::is_free(m.fat_type, start.bytes, m.erased_byte, m.cluster as int)
            &&& m.fat_type is Fat12 && m.cluster % 2 == 0 ==> packed == entry::le16(
                start.bytes,
                entry::offset(m.fat_type, m.cluster as int),
            )
        },
    ensures
        counts_on(m, reply, start, now, free, packed),
{
    let task = <CountFree as StreamMachine<E>>::task(m);
    let next = m.counted(free, packed);
    if start.wf() && now.wf() && <CountFree as StreamMachine<E>>::reached(m, start, now) && reply
        == now.serve::<E>(<CountFree as StreamMachine<E>>::pending(m)).1 {
        assert(entry::fits(m.fat_type, start.bytes.len(), m.cluster as int));
        assert(next.cluster == m.cluster + 1);
        assert(next.count == task.free_below(start.bytes, next.cluster as int));
    }
}

impl<E> StreamMachine<E> for CountFree {
    type Task = CountTask;

    type Out = Result<u32, FatError<E>>;

    open spec fn task(self) -> CountTask {
        CountTask { fat_type: self.fat_type, end: self.end, erased_byte: self.erased_byte }
    }

    open spec fn pending(self) -> StreamOp {
        match self.phase {
            CountPhase::Seek => StreamOp::SeekTo(
                entry::offset(self.fat_type, RESERVED_FAT_ENTRIES as int) as u64,
            ),
            CountPhase::Read(_) => match self.fat_type {
                FatType::Fat12 => if self.cluster % 2 == 0 {
                    StreamOp::ReadU16
                } else {
                    StreamOp::ReadU8
                },
                FatType::Fat16 => StreamOp::ReadU16,
                FatType::Fat32 => StreamOp::ReadU32,
            },
        }
    }

    open spec fn reached(self, start: StreamState, now: StreamState) -> bool {
        let task = <CountFree as StreamMachine<E>>::task(self);
        let at = entry::offset(self.fat_type, self.cluster as int);
        &&& RESERVED_FAT_ENTRIES <= self.cluster
        &&& self.count <= self.cluster
        &&& self.count == task.free_below(start.bytes, self.cluster as int)
        &&& match self.phase {
            CountPhase::Seek => now == start && self.cluster == RESERVED_FAT_ENTRIES,
            CountPhase::Read(packed) => {
                &&& self.cluster < self.end
                &&& if self.fat_type is Fat12 && self.cluster % 2 != 0 {
                    &&& now == start.at(at + 1)
                    &&& packed == entry::le16(start.bytes, at - 1)
                } else {
                    now == start.at(at)
                }
            },
        }
    }

    open spec fn remaining(self, start: StreamState) -> nat {
        let left = if self.cluster < self.end {
            self.end - self.cluster
        } else {
            0
        };
        (left + if self.phase is Seek {
            1int
        } else {
            0int
        }) as nat
    }

    open spec fn outcome(
        task: CountTask,
        start: StreamState,
        end: StreamState,
        out: Result<u32, FatError<E>>,
    ) -> bool {
        &&& end == start.at(end.pos)
        &&& out == task.result::<E>(start.bytes)
    }

    fn step(self, reply: StreamReply<E>) -> (next: Step<Self, Result<u32, FatError<E>>>)
        ensures
            reply matches StreamReply::Failed(e) ==> stream::gives_up(next, e),
    {
        match reply {
            StreamReply::Failed(e) => Step::Done(Err(e)),
            StreamReply::Done => CountFree { phase: CountPhase::Read(0), ..self }.go_on(),
            StreamReply::U8(byte) => {
                let prev: u16 = match self.phase {
                    CountPhase::Read(prev) => prev,
                    CountPhase::Seek => 0,
                };
                proof {
                    lemma_odd_entry(prev, byte);
                }
                let val: u16 = ((byte as u16) << 4) | (prev >> 12);
                let free: bool = is_free_fat12(val, self.erased_byte);
                assert forall|start: StreamState, now: StreamState|
                    #![trigger <CountFree as StreamMachine<E>>::reached(self, start, now)]
                    counts_on(self, reply, start, now, free, byte as u16) by {
                    lemma_count_on(self, reply, start, now, free, byte as u16);
                }
                self.count_one(free, byte as u16)
            },
            StreamReply::U16(packed) => {
                assert(packed & 0x0FFF == packed % 0x1000) by (bit_vector);
                let free: bool = match self.fat_type {
                    FatType::Fat12 => is_free_fat12(packed & 0x0FFF, self.erased_byte),
                    _ => is_free_fat16(packed, self.erased_byte),
                };
                assert forall|start: StreamState, now: StreamState|
                    #![trigger <CountFree as StreamMachine<E>>::reached(self, start, now)]
                    counts_on(self, reply, start, now, free, packed) by {
                    lemma_count_on(self, reply, start, now, free, packed);
                }
                self.count_one(free, packed)
            },
            StreamReply::U32(val) => {
                assert(val & 0x0FFF_FFFF == val % 0x1000_0000) by (bit_vector);
                let free: bool = is_free_fat32(val & 0x0FFF_FFFF, self.erased_byte);
                assert forall|start: StreamState, now: StreamState|
                    #![trigger <CountFree as StreamMachine<E>>::reached(self, start, now)]
                    counts_on(self, reply, start, now, free, 0) by {
                    lemma_count_on(self, reply, start, now, free, 0);
                }
                self.count_one(free, 0)
            },
        }
    }
}

/// Count the free clusters of a volume.
pub fn count_free_clusters(
    fat: &mut MemStream,
    fat_type: FatType,
    total_clusters: u32,
    erased_byte: u8,
) -> (out: Result<u32, FatError<()>>)
    requires
        old(fat)@.wf(),
        total_clusters + RESERVED_FAT_ENTRIES <= u32::MAX,
    ensures
        final(fat)@.wf(),
        final(fat)@ == old(fat)@.at(final(fat)@.pos),
        out == (CountTask {
            fat_type,
            end: (total_clusters + RESERVED_FAT_ENTRIES) as u32,
            erased_byte,
        }).result::<()>(old(fat)@.bytes),
{
    let end_cluster: u32 = total_clusters + RESERVED_FAT_ENTRIES;
    run::<(), CountFree>(CountFree::start(fat_type, end_cluster, erased_byte), fat)
}

/// Look for a free cluster in `[start_cluster, end_cluster)`.
///
/// A search of a FAT12 that begins at or behind its end is not kept by it: it goes on to
/// the end of the table.
pub fn find_free_cluster(
    fat: &mut MemStream,
    fat_type: FatType,
    start_cluster: u32,
    end_cluster: u32,
    erased_byte: u8,
) -> (out: Result<u32, FatError<()>>)
    requires
        old(fat)@.wf(),
    ensures
        final(fat)@.wf(),
        final(fat)@ == old(fat)@.at(final(fat)@.pos),
        out == (FindTask {
            fat_type,
            start: start_cluster,
            end: end_cluster,
            erased_byte,
        }).result::<()>(old(fat)@.bytes),
{
    run::<(), FindFree>(FindFree::start(fat_type, start_cluster, end_cluster, erased_byte), fat)
}

/// What setting one entry does to the number of free clusters.
pub proof fn lemma_count_after_put(
    count: CountTask,
    bytes: Seq<u8>,
    cluster: int,
    written: FatValue,
    end: int,
)
    requires
        0 <= cluster,
        entry::fits(count.fat_type, bytes.len(), cluster),
        entry::code(count.fat_type, written) < entry::range(count.fat_type),
        end > RESERVED_FAT_ENTRIES ==> entry::fits(count.fat_type, bytes.len(), end - 1),
    ensures
        ({
            let after = entry::put(count.fat_type, bytes, cluster, written);
            let was = entry::is_free(count.fat_type, bytes, count.erased_byte, cluster);
            let is = entry::is_free(count.fat_type, after, count.erased_byte, cluster);
            count.free_below(after, end) - count.free_below(bytes, end)
                == if RESERVED_FAT_ENTRIES <= cluster < end {
                (if is {
                    1int
                } else {
                    0int
                }) - (if was {
                    1int
                } else {
                    0int
                })
            } else {
                0
            }
        }),
    decreases end,
{
    if end > RESERVED_FAT_ENTRIES {
        lemma_count_after_put(count, bytes, cluster, written, end - 1);
        if end - 1 != cluster {
            laws::law_write_keeps_the_other_entries(
                count.fat_type,
                bytes,
                cluster,
                written,
                end - 1,
            );
        }
    }
}

/// A cluster lies in the table and is not free.
pub open spec fn in_use(task: FindTask, bytes: Seq<u8>, c: int) -> bool {
    entry::fits(task.fat_type, bytes.len(), c) && !entry::is_free(
        task.fat_type,
        bytes,
        task.erased_byte,
        c,
    )
}

/// A cluster lies in `start..end`, or in the range without an end that a FAT12 has where that
/// one is empty.
pub open spec fn in_range(task: FindTask, c: int) -> bool {
    task.start <= c && (c < task.end || (task.fat_type is Fat12 && task.end <= task.start))
}

/// A search ends in one of three ways, and its range decides which: at the first free cluster
/// where there is one before the range or the table ends, without one where all of the range
/// lies in the table, and with the end of the table otherwise.
pub proof fn law_a_search_has_three_ends<E>(task: FindTask, bytes: Seq<u8>)
    requires
        bytes.len() <= u32::MAX,
    ensures
        forall|n: u32|
            #![trigger in_range(task, n as int)]
            task.result::<E>(bytes) == Ok::<u32, FatError<E>>(n) <==> {
                &&& in_range(task, n as int)
                &&& entry::fits(task.fat_type, bytes.len(), n as int)
                &&& entry::is_free(task.fat_type, bytes, task.erased_byte, n as int)
                &&& forall|c: int| task.start <= c < n ==> #[trigger] in_use(task, bytes, c)
            },
        task.result::<E>(bytes) == Err::<u32, FatError<E>>(FatError::NotEnoughSpace) <==> !(
        task.fat_type is Fat12 && task.end <= task.start) && (forall|c: int|
            task.start <= c < task.end ==> #[trigger] in_use(task, bytes, c)),
        task.result::<E>(bytes) == Err::<u32, FatError<E>>(FatError::UnexpectedEof) <==> exists|
            c: int,
        |
            #![trigger in_range(task, c)]
            in_range(task, c) && !entry::fits(task.fat_type, bytes.len(), c) && forall|d: int|
                task.start <= d < c ==> #[trigger] in_use(task, bytes, d),
        task.result::<E>(bytes) matches Err(e) ==> e == FatError::<E>::NotEnoughSpace || e
            == FatError::<E>::UnexpectedEof,
{
    let found = task.scan(bytes, task.start as int);
    let out = task.result::<E>(bytes);
    let limit = task.limit(bytes.len());
    lemma_scan(task, bytes, task.start as int);
    assert forall|c: int| task.start <= c < found implies #[trigger] in_use(task, bytes, c) by {
        assert(passed_over(task, bytes, c));
    }
    assert(!passed_over(task, bytes, found));
    assert(task.unbounded() ==> !entry::fits(task.fat_type, bytes.len(), limit - 1));
    if found > task.start {
        assert(passed_over(task, bytes, found - 1));
    }
    if found < limit {
        assert(in_range(task, found));
    }
    assert forall|n: u32|
        #![trigger in_range(task, n as int)]
        (out == Ok::<u32, FatError<E>>(n)) == ({
            &&& in_range(task, n as int)
            &&& entry::fits(task.fat_type, bytes.len(), n as int)
            &&& entry::is_free(task.fat_type, bytes, task.erased_byte, n as int)
            &&& forall|c: int| task.start <= c < n ==> #[trigger] in_use(task, bytes, c)
        }) by {
        if found < n {
            assert(task.start <= found);
            assert(found < limit ==> !in_use(task, bytes, found));
        } else if n < found {
            assert(task.start <= n ==> in_use(task, bytes, n as int));
        }
    }
    if found < limit {
        assert(!in_use(task, bytes, found));
    }
    assert forall|c: int|
        #![trigger in_range(task, c)]
        in_range(task, c) && !entry::fits(task.fat_type, bytes.len(), c) && (forall|d: int|
            task.start <= d < c ==> #[trigger] in_use(task, bytes, d)) implies out == Err::<
        u32,
        FatError<E>,
    >(FatError::UnexpectedEof) by {
        if found < c {
            assert(in_use(task, bytes, found));
        } else if c < found {
            assert(in_use(task, bytes, c));
        }
    }
}

/// The free clusters of a volume, as a set.
pub open spec fn free_clusters(task: CountTask, bytes: Seq<u8>, end: int) -> Set<int> {
    vstd::set_lib::set_int_range(2, end).filter(
        |c: int| entry::is_free(task.fat_type, bytes, task.erased_byte, c),
    )
}

/// The clusters are counted one by one.
proof fn lemma_count_is_size(task: CountTask, bytes: Seq<u8>, end: int)
    requires
        2 <= end,
    ensures
        free_clusters(task, bytes, end).finite(),
        free_clusters(task, bytes, end).len() == task.free_below(bytes, end),
    decreases end,
{
    vstd::set_lib::lemma_int_range(2, end);
    vstd::set_lib::set_int_range(2, end).lemma_len_filter(
        |c: int| entry::is_free(task.fat_type, bytes, task.erased_byte, c),
    );
    if end == 2 {
        assert(free_clusters(task, bytes, end) =~= Set::empty());
    } else {
        lemma_count_is_size(task, bytes, end - 1);
        let before = free_clusters(task, bytes, end - 1);
        if entry::is_free(task.fat_type, bytes, task.erased_byte, end - 1) {
            assert(free_clusters(task, bytes, end) =~= before.insert(end - 1));
        } else {
            assert(free_clusters(task, bytes, end) =~= before);
        }
    }
}

/// Counting gives the number of clusters from 2 on, and below the end, whose entry is free. It
/// fails exactly where the table ends before the last of them.
pub proof fn law_every_free_cluster_is_counted_once<E>(task: CountTask, bytes: Seq<u8>)
    ensures
        ({
            let out = task.result::<E>(bytes);
            let all_there = forall|c: int|
                2 <= c < task.end ==> #[trigger] entry::fits(task.fat_type, bytes.len(), c);
            let free = vstd::set_lib::set_int_range(2, task.end as int).filter(
                |c: int| entry::is_free(task.fat_type, bytes, task.erased_byte, c),
            );
            &&& all_there ==> (out matches Ok(n) && n == if task.end <= 2 {
                0
            } else {
                free.len()
            })
            &&& !all_there ==> out == Err::<u32, FatError<E>>(FatError::UnexpectedEof)
        }),
{
    if task.end > 2 {
        let end = task.end as int;
        lemma_count_is_size(task, bytes, end);
        vstd::set_lib::lemma_int_range(2, end);
        vstd::set_lib::set_int_range(2, end).lemma_len_filter(
            |c: int| entry::is_free(task.fat_type, bytes, task.erased_byte, c),
        );
        assert(free_clusters(task, bytes, end) =~= vstd::set_lib::set_int_range(2, end).filter(
            |c: int| entry::is_free(task.fat_type, bytes, task.erased_byte, c),
        ));
        if !entry::fits(task.fat_type, bytes.len(), end - 1) {
            assert(!(forall|c: int|
                2 <= c < end ==> #[trigger] entry::fits(task.fat_type, bytes.len(), c)));
        }
    }
}

} // verus!
