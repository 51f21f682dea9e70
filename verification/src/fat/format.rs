//! Laying out an empty table.

use vstd::prelude::*;

use crate::fat::access;
use crate::fat::entry;
use crate::fat::entry::{FatType, FatValue, FsStatusFlags, RESERVED_FAT_ENTRIES};
use crate::fat::scan::CountTask;
use crate::fat::stream;
use crate::fat::stream::{
    run, FatError, MemStream, Step, StreamMachine, StreamOp, StreamReply, StreamState,
};

verus! {

/// The number of bytes that a table is filled with at a time.
pub const CHUNK: u64 = 8192;

/// A table to lay out: `zero_total` bytes come after its first block, and are left
/// alone where the device was erased before.
pub struct FormatTask {
    pub fat_type: FatType,
    pub media: u8,
    pub zero_total: u64,
    pub pre_erased: bool,
}

/// The two reserved entries of a table: the first one holds the media type in its
/// low byte, and every other bit that belongs to an entry is set.
pub open spec fn reserved_entries(fat_type: FatType, media: u8) -> Seq<u8> {
    match fat_type {
        FatType::Fat12 => seq![media, 0xFF, 0xFF],
        FatType::Fat16 => seq![media, 0xFF, 0xFF, 0xFF],
        FatType::Fat32 => seq![media, 0xFF, 0xFF, 0x0F, 0xFF, 0xFF, 0xFF, 0x0F],
    }
}

/// The first block of a table: the reserved entries, then zeros.
pub open spec fn first_block(fat_type: FatType, media: u8) -> Seq<u8> {
    let reserved = reserved_entries(fat_type, media);
    reserved + stream::zeros((512 - reserved.len()) as nat)
}

/// The first `n` reports on a table that is filled chunk by chunk.
pub open spec fn progress(total: u64, n: nat) -> Seq<(u64, u64)> {
    Seq::new(
        n,
        |i: int|
            (
                if CHUNK * i < total {
                    (CHUNK * i) as u64
                } else {
                    total
                },
                total,
            ),
    )
}

/// The number of chunks that `done` bytes are written in.
pub open spec fn chunks(done: int) -> nat {
    ((done + CHUNK - 1) / CHUNK as int) as nat
}

impl FormatTask {
    /// How far past the first block the stream is moved where the device was
    /// erased before, as the signed number that a seek takes.
    pub open spec fn distance(self) -> i64 {
        self.zero_total as i64
    }

    /// How many zeros come to be written: all of them, or the chunks for which
    /// there is room.
    pub open spec fn filled(self, start: StreamState) -> int {
        let room = start.bytes.len() - start.pos - 512;
        if self.zero_total <= room {
            self.zero_total as int
        } else {
            room / CHUNK as int * CHUNK as int
        }
    }

    /// The stream with the first block and this many zeros written, and this many
    /// reports given.
    pub open spec fn laid_out(self, start: StreamState, done: int, told: nat) -> StreamState {
        StreamState {
            bytes: stream::overwrite(
                start.bytes,
                start.pos,
                first_block(self.fat_type, self.media) + stream::zeros(done as nat),
            ),
            pos: start.pos + 512 + done,
            reports: start.reports + progress(self.zero_total, told),
        }
    }

    /// The stream after the table was laid out.
    pub open spec fn after(self, start: StreamState) -> StreamState {
        let first = self.laid_out(start, 0, 0);
        if !start.has(512) {
            start
        } else if self.pre_erased {
            if 0 <= first.pos + self.distance() <= u64::MAX {
                StreamState {
                    pos: first.pos + self.distance(),
                    reports: start.reports.push((self.zero_total, self.zero_total)),
                    ..first
                }
            } else {
                first
            }
        } else {
            self.laid_out(start, self.filled(start), chunks(self.filled(start)) + 1)
        }
    }

    /// What laying out the table gives.
    pub open spec fn result<E>(self, start: StreamState) -> Result<(), FatError<E>> {
        let fits = start.has(512) && if self.pre_erased {
            0 <= start.pos + 512 + self.distance() <= u64::MAX
        } else {
            start.has(512 + self.zero_total)
        };
        if fits {
            Ok(())
        } else {
            Err(FatError::UnexpectedEof)
        }
    }
}

/// Where laying out a table stands.
pub enum FormatPhase {
    /// Writing the first block.
    First([u8; 512]),
    /// Moving past the erased rest of the table.
    Skip,
    /// Reporting on the progress.
    Tell,
    /// Writing the next chunk of zeros.
    Fill,
}

/// Lays out an empty table.
pub struct FormatFat {
    pub fat_type: FatType,
    pub media: u8,
    pub zero_total: u64,
    pub pre_erased: bool,
    /// The zeros that are dealt with.
    pub done: u64,
    pub phase: FormatPhase,
}

/// The first block of a table.
fn make_first_block(fat_type: FatType, media: u8) -> (block: [u8; 512])
    ensures
        block@ == first_block(fat_type, media),
{
    let mut block = [0u8; 512];
    block[0] = media;
    block[1] = 0xFF;
    block[2] = 0xFF;
    match fat_type {
        FatType::Fat12 => {},
        FatType::Fat16 => {
            block[3] = 0xFF;
        },
        FatType::Fat32 => {
            block[3] = 0x0F;
            block[4] = 0xFF;
            block[5] = 0xFF;
            block[6] = 0xFF;
            block[7] = 0x0F;
        },
    }
    assert(block@ =~= first_block(fat_type, media));
    block
}

impl FormatFat {
    /// Begin: write the first block.
    pub fn start<E>(fat_type: FatType, media: u8, bytes_per_fat: u64, pre_erased: bool) -> (first:
        Step<FormatFat, Result<(), FatError<E>>>)
        requires
            bytes_per_fat >= 512,
        ensures
            first matches Step::Do(m, op) && {
                &&& <FormatFat as StreamMachine<E>>::task(m) == FormatTask {
                    fat_type,
                    media,
                    zero_total: (bytes_per_fat - 512) as u64,
                    pre_erased,
                }
                &&& m.done == 0
                &&& m.phase matches FormatPhase::First(block)
                &&& block@ == first_block(fat_type, media)
                &&& op == StreamOp::WriteBlock(block)
            },
    {
        let block: [u8; 512] = make_first_block(fat_type, media);
        Step::Do(
            FormatFat {
                fat_type,
                media,
                zero_total: bytes_per_fat - 512,
                pre_erased,
                done: 0,
                phase: FormatPhase::First(block),
            },
            StreamOp::WriteBlock(block),
        )
    }

    /// The size of the next chunk.
    pub open spec fn chunk(self) -> int {
        let left = self.zero_total - self.done;
        if left < 0 {
            0
        } else if left < CHUNK {
            left
        } else {
            CHUNK as int
        }
    }

    /// The size of the next chunk.
    fn next_chunk(&self) -> (n: usize)
        ensures
            n == self.chunk(),
    {
        let left: u64 = if self.done < self.zero_total {
            self.zero_total - self.done
        } else {
            0
        };
        if left < CHUNK {
            left as usize
        } else {
            CHUNK as usize
        }
    }
}

/// Writing on where other bytes end is writing all of them.
proof fn lemma_overwrite(bytes: Seq<u8>, at: int, first: Seq<u8>, then: Seq<u8>)
    ensures
        stream::overwrite(stream::overwrite(bytes, at, first), at + first.len(), then)
            == stream::overwrite(bytes, at, first + then),
{
    assert(stream::overwrite(stream::overwrite(bytes, at, first), at + first.len(), then)
        =~= stream::overwrite(bytes, at, first + then));
}

/// Laying out a table comes on by one chunk.
proof fn lemma_fill(m: FormatFat, start: StreamState)
    requires
        0 <= m.done < m.zero_total,
        m.done % CHUNK == 0,
    ensures
        ({
            let task = <FormatFat as StreamMachine<()>>::task(m);
            let now = task.laid_out(start, m.done as int, chunks(m.done as int) + 1);
            let then = m.done + m.chunk();
            &&& now.with(
                stream::overwrite(now.bytes, now.pos, stream::zeros(m.chunk() as nat)),
                m.chunk(),
            ) == task.laid_out(start, then, chunks(then))
            &&& then == m.zero_total || then % CHUNK as int == 0
        }),
{
    let task = <FormatFat as StreamMachine<()>>::task(m);
    let first = first_block(m.fat_type, m.media);
    let done = m.done as int;
    let n = m.chunk();
    assert(chunks(done) + 1 == chunks(done + n));
    lemma_overwrite(
        start.bytes,
        start.pos,
        first + stream::zeros(done as nat),
        stream::zeros(n as nat),
    );
    assert(first + stream::zeros(done as nat) + stream::zeros(n as nat) =~= first + stream::zeros(
        (done + n) as nat,
    ));
}

/// One more report is given.
proof fn lemma_tell(total: u64, done: u64)
    requires
        done == total || done % CHUNK == 0,
        done <= total,
    ensures
        progress(total, chunks(done as int)).push((done, total)) == progress(
            total,
            chunks(done as int) + 1,
        ),
{
    let n = chunks(done as int);
    if done % CHUNK == 0 {
        assert(CHUNK * n == done);
    } else {
        assert(CHUNK * n >= done);
    }
    assert(progress(total, n).push((done, total)) =~= progress(total, n + 1));
}

/// Writing the first block lays out nothing else.
proof fn lemma_first(m: FormatFat, start: StreamState)
    ensures
        ({
            let first = first_block(m.fat_type, m.media);
            start.with(stream::overwrite(start.bytes, start.pos, first), 512)
                == <FormatFat as StreamMachine<()>>::task(m).laid_out(start, 0, 0)
        }),
{
    let first = first_block(m.fat_type, m.media);
    assert(first + stream::zeros(0) =~= first);
    assert(start.reports + progress(m.zero_total, 0) =~= start.reports);
}

/// A report is one more of those that are given in all.
proof fn lemma_told(m: FormatFat, start: StreamState)
    requires
        m.done == m.zero_total || m.done % CHUNK == 0,
        m.done <= m.zero_total,
    ensures
        ({
            let task = <FormatFat as StreamMachine<()>>::task(m);
            let told = chunks(m.done as int);
            let now = task.laid_out(start, m.done as int, told);
            StreamState { reports: now.reports.push((m.done, m.zero_total)), ..now }
                == task.laid_out(start, m.done as int, told + 1)
        }),
{
    let told = chunks(m.done as int);
    lemma_tell(m.zero_total, m.done);
    assert((start.reports + progress(m.zero_total, told)).push((m.done, m.zero_total))
        =~= start.reports + progress(m.zero_total, told).push((m.done, m.zero_total)));
}

impl<E> StreamMachine<E> for FormatFat {
    type Task = FormatTask;

    type Out = Result<(), FatError<E>>;

    open spec fn task(self) -> FormatTask {
        FormatTask {
            fat_type: self.fat_type,
            media: self.media,
            zero_total: self.zero_total,
            pre_erased: self.pre_erased,
        }
    }

    open spec fn pending(self) -> StreamOp {
        match self.phase {
            FormatPhase::First(block) => StreamOp::WriteBlock(block),
            FormatPhase::Skip => StreamOp::SeekBy(self.zero_total as i64),
            FormatPhase::Tell => StreamOp::Report { done: self.done, total: self.zero_total },
            FormatPhase::Fill => StreamOp::WriteZeros(self.chunk() as usize),
        }
    }

    open spec fn reached(self, start: StreamState, now: StreamState) -> bool {
        let task = <FormatFat as StreamMachine<E>>::task(self);
        let done = self.done as int;
        match self.phase {
            FormatPhase::First(block) => {
                &&& block@ == first_block(self.fat_type, self.media)
                &&& done == 0
                &&& now == start
            },
            FormatPhase::Skip => {
                &&& self.pre_erased
                &&& start.has(512)
                &&& now == task.laid_out(start, 0, 0)
            },
            FormatPhase::Tell => {
                &&& start.has(512)
                &&& done <= self.zero_total
                &&& if self.pre_erased {
                    &&& done == self.zero_total
                    &&& 0 <= start.pos + 512 + task.distance() <= u64::MAX
                    &&& now == task.laid_out(start, 0, 0).at(start.pos + 512 + task.distance())
                } else {
                    &&& done == self.zero_total || done % CHUNK as int == 0
                    &&& start.has(512 + done)
                    &&& now == task.laid_out(start, done, chunks(done))
                }
            },
            FormatPhase::Fill => {
                &&& !self.pre_erased
                &&& start.has(512 + done)
                &&& done < self.zero_total
                &&& done % CHUNK as int == 0
                &&& now == task.laid_out(start, done, chunks(done) + 1)
            },
        }
    }

    open spec fn remaining(self, start: StreamState) -> nat {
        let left = if self.done < self.zero_total {
            self.zero_total - self.done
        } else {
            0
        };
        match self.phase {
            FormatPhase::First(_) => (2 * self.zero_total + 3) as nat,
            FormatPhase::Skip => (2 * self.zero_total + 2) as nat,
            FormatPhase::Tell => (2 * left + 1) as nat,
            FormatPhase::Fill => (2 * left) as nat,
        }
    }

    open spec fn outcome(
        task: FormatTask,
        start: StreamState,
        end: StreamState,
        out: Result<(), FatError<E>>,
    ) -> bool {
        &&& end == task.after(start)
        &&& out == task.result::<E>(start)
    }

    fn step(self, reply: StreamReply<E>) -> (next: Step<Self, Result<(), FatError<E>>>)
        ensures
            reply matches StreamReply::Failed(e) ==> stream::gives_up(next, e),
    {
        if let StreamReply::Failed(e) = reply {
            return Step::Done(Err(e));
        }
        let total: u64 = self.zero_total;
        match self.phase {
            FormatPhase::First(_) => {
                assert forall|start: StreamState, now: StreamState|
                    #![trigger <FormatFat as StreamMachine<E>>::reached(self, start, now)]
                    true implies start.with(
                    stream::overwrite(
                        start.bytes,
                        start.pos,
                        first_block(self.fat_type, self.media),
                    ),
                    512,
                ) == <FormatFat as StreamMachine<E>>::task(self).laid_out(start, 0, 0) by {
                    lemma_first(self, start);
                }
                if self.pre_erased {
                    let by: i64 = #[verifier::truncate] (total as i64);
                    return Step::Do(
                        FormatFat { phase: FormatPhase::Skip, ..self },
                        StreamOp::SeekBy(by),
                    );
                }
                Step::Do(
                    FormatFat { phase: FormatPhase::Tell, ..self },
                    StreamOp::Report { done: self.done, total },
                )
            },
            FormatPhase::Skip => Step::Do(
                FormatFat { phase: FormatPhase::Tell, done: total, ..self },
                StreamOp::Report { done: total, total },
            ),
            FormatPhase::Tell => {
                assert forall|start: StreamState, now: StreamState|
                    #![trigger <FormatFat as StreamMachine<E>>::reached(self, start, now)]
                    <FormatFat as StreamMachine<E>>::reached(self, start, now) implies ({
                    let task = <FormatFat as StreamMachine<E>>::task(self);
                    let after = StreamState {
                        reports: now.reports.push((self.done, self.zero_total)),
                        ..now
                    };
                    if self.pre_erased {
                        after == task.after(start)
                    } else {
                        after == task.laid_out(
                            start,
                            self.done as int,
                            chunks(self.done as int) + 1,
                        )
                    }
                }) by {
                    if self.pre_erased {
                        assert(start.reports + progress(self.zero_total, 0) =~= start.reports);
                    } else {
                        lemma_told(self, start);
                    }
                }
                if self.done >= total {
                    return Step::Done(Ok(()));
                }
                let n: usize = self.next_chunk();
                Step::Do(FormatFat { phase: FormatPhase::Fill, ..self }, StreamOp::WriteZeros(n))
            },
            FormatPhase::Fill => {
                assert forall|start: StreamState, now: StreamState|
                    #![trigger <FormatFat as StreamMachine<E>>::reached(self, start, now)]
                    <FormatFat as StreamMachine<E>>::reached(self, start, now) implies ({
                    let then = self.done + self.chunk();
                    &&& now.with(
                        stream::overwrite(now.bytes, now.pos, stream::zeros(self.chunk() as nat)),
                        self.chunk(),
                    ) == <FormatFat as StreamMachine<E>>::task(self).laid_out(
                        start,
                        then,
                        chunks(then),
                    )
                    &&& then == self.zero_total || then % CHUNK as int == 0
                }) by {
                    lemma_fill(self, start);
                }
                let done: u64 = self.done.wrapping_add(self.next_chunk() as u64);
                Step::Do(
                    FormatFat { phase: FormatPhase::Tell, done, ..self },
                    StreamOp::Report { done, total },
                )
            },
        }
    }
}

/// Lay out an empty table where the stream stands. The number of clusters does not
/// matter: what lies behind the last of them is never looked at.
pub fn format_fat(
    fat: &mut MemStream,
    fat_type: FatType,
    media: u8,
    bytes_per_fat: u64,
    _total_clusters: u32,
    pre_erased: bool,
) -> (out: Result<(), FatError<()>>)
    requires
        old(fat)@.wf(),
        bytes_per_fat >= 512,
    ensures
        final(fat)@.wf(),
        ({
            let task = FormatTask {
                fat_type,
                media,
                zero_total: (bytes_per_fat - 512) as u64,
                pre_erased,
            };
            &&& final(fat)@ == task.after(old(fat)@)
            &&& out == task.result::<()>(old(fat)@)
        }),
{
    run::<(), FormatFat>(FormatFat::start(fat_type, media, bytes_per_fat, pre_erased), fat)
}

/// An empty table at the start of a stream: its entries are zero, but for the two
/// reserved ones.
proof fn lemma_empty_table(task: FormatTask, start: StreamState, cluster: int)
    requires
        start.pos == 0,
        !task.pre_erased,
        task.result::<()>(start) is Ok,
        RESERVED_FAT_ENTRIES <= cluster,
        entry::fits(task.fat_type, (512 + task.zero_total) as nat, cluster),
    ensures
        entry::fits(task.fat_type, task.after(start).bytes.len(), cluster),
        entry::raw(task.fat_type, task.after(start).bytes, cluster) == 0,
{
    let bytes = task.after(start).bytes;
    let at = entry::offset(task.fat_type, cluster);
    assert(bytes[at] == 0);
    assert(bytes[at + 1] == 0);
    if task.fat_type is Fat32 {
        assert(bytes[at + 2] == 0);
        assert(bytes[at + 3] == 0);
    }
}

/// In a table that was laid out, every cluster that can hold data is free, whatever
/// the device erases to.
pub proof fn law_a_new_table_is_free(
    task: FormatTask,
    start: StreamState,
    cluster: int,
    erased_byte: u8,
)
    requires
        start.pos == 0,
        !task.pre_erased,
        task.result::<()>(start) is Ok,
        RESERVED_FAT_ENTRIES <= cluster,
        entry::fits(task.fat_type, (512 + task.zero_total) as nat, cluster),
    ensures
        entry::fits(task.fat_type, task.after(start).bytes.len(), cluster),
        entry::is_free(task.fat_type, task.after(start).bytes, erased_byte, cluster),
{
    lemma_empty_table(task, start, cluster);
}

/// The free clusters below one that the new table holds.
proof fn lemma_all_free(task: FormatTask, start: StreamState, count: CountTask, end: int)
    requires
        start.pos == 0,
        !task.pre_erased,
        task.result::<()>(start) is Ok,
        count.fat_type == task.fat_type,
        RESERVED_FAT_ENTRIES <= end,
        end > RESERVED_FAT_ENTRIES ==> entry::fits(
            task.fat_type,
            (512 + task.zero_total) as nat,
            end - 1,
        ),
    ensures
        count.free_below(task.after(start).bytes, end) == end - RESERVED_FAT_ENTRIES,
    decreases end,
{
    if end > RESERVED_FAT_ENTRIES {
        lemma_all_free(task, start, count, end - 1);
        law_a_new_table_is_free(task, start, end - 1, count.erased_byte);
    }
}

/// Counting the free clusters of a table that was laid out gives all of them.
pub proof fn law_a_new_table_counts_all_clusters(
    task: FormatTask,
    start: StreamState,
    count: CountTask,
)
    requires
        start.pos == 0,
        !task.pre_erased,
        task.result::<()>(start) is Ok,
        count.fat_type == task.fat_type,
        RESERVED_FAT_ENTRIES < count.end,
        entry::fits(task.fat_type, (512 + task.zero_total) as nat, count.end - 1),
    ensures
        count.result::<()>(task.after(start).bytes) == Ok::<u32, FatError<()>>(
            (count.end - RESERVED_FAT_ENTRIES) as u32,
        ),
{
    lemma_all_free(task, start, count, count.end as int);
    lemma_empty_table(task, start, count.end - 1);
}

/// The entries of a table that was laid out say that the volume is clean: cluster 1
/// reads as the end of a chain, and no flag is raised.
pub proof fn law_a_new_table_is_clean(task: FormatTask, start: StreamState)
    requires
        start.pos == 0,
        start.has(512),
    ensures
        entry::value(task.fat_type, task.after(start).bytes, 1) == FatValue::EndOfChain,
        access::flags_result::<()>(task.fat_type, task.after(start).bytes) == Ok::<
            FsStatusFlags,
            FatError<()>,
        >(FsStatusFlags { dirty: false, io_error: false }),
{
    let bytes = task.after(start).bytes;
    let first = first_block(task.fat_type, task.media);
    assert forall|i: int| 0 <= i < 8 implies bytes[i] == first[i] by {}
    assert(bytes[1] == first[1] && bytes[2] == first[2] && bytes[3] == first[3]);
    assert(bytes[4] == first[4] && bytes[5] == first[5] && bytes[6] == first[6] && bytes[7]
        == first[7]);
}

/// A table that was laid out on an erased device is free, though it was not filled: every
/// cluster that can hold data reads as free where the device reads as it was erased.
///
/// One entry of a FAT12 lies across the end of the first block, half zeros and half ones
/// on a device that erases to ones.
pub proof fn law_an_erased_table_is_free(
    task: FormatTask,
    start: StreamState,
    cluster: int,
    erased_byte: u8,
)
    requires
        start.pos == 0,
        start.has(512),
        task.pre_erased,
        erased_byte == 0x00 || erased_byte == 0xFF,
        forall|i: int| 512 <= i < start.bytes.len() ==> #[trigger] start.bytes[i] == erased_byte,
        RESERVED_FAT_ENTRIES <= cluster,
        entry::fits(task.fat_type, start.bytes.len(), cluster),
        !(task.fat_type is Fat12 && cluster == 341),
    ensures
        entry::is_free(task.fat_type, task.after(start).bytes, erased_byte, cluster),
{
    let bytes = task.after(start).bytes;
    let first = first_block(task.fat_type, task.media);
    let at = entry::offset(task.fat_type, cluster);
    assert forall|i: int| 8 <= i < bytes.len() implies #[trigger] bytes[i] == if i < 512 {
        0u8
    } else {
        erased_byte
    } by {
        if i < 512 {
            assert(first[i] == 0);
        } else {
            assert(start.bytes[i] == erased_byte);
        }
    }
    if at < 8 {
        assert(bytes[at] == first[at]);
        assert(bytes[at + 1] == first[at + 1]);
    }
    assert(at < 511 || at >= 512);
    let low = bytes[at];
    let high = bytes[at + 1];
    assert(low == high);
    if task.fat_type is Fat32 {
        assert(bytes[at + 2] == low && bytes[at + 3] == low);
    }
}

/// A table is filled in whole blocks, as far as it has whole blocks: every write begins at
/// the end of a block.
pub proof fn law_a_table_is_filled_block_by_block<E>(m: FormatFat, start: StreamState, now: StreamState)
    requires
        <FormatFat as StreamMachine<E>>::reached(m, start, now),
        <FormatFat as StreamMachine<E>>::pending(m) is WriteBlock
            || <FormatFat as StreamMachine<E>>::pending(m) is WriteZeros,
    ensures
        (now.pos - start.pos) % 512 == 0,
{
}

/// The byte `i` of a table that was laid out: the first entry holds the media type, the second
/// one is all ones, and so is what is left of the first, but for the reserved bits of a FAT32.
/// Every other byte is zero.
pub open spec fn blank_byte(fat_type: FatType, media: u8, i: int) -> u8 {
    if i == 0 {
        media
    } else if fat_type is Fat32 && (i == 3 || i == 7) {
        0x0F
    } else if i < 3 || (fat_type is Fat16 && i == 3) || (fat_type is Fat32 && i < 7) {
        0xFF
    } else {
        0
    }
}

/// Laying out a table writes its first block, and behind it zeros in chunks of 8 KiB, as many
/// as are asked for. It succeeds exactly where there is room, leaves the stream behind the
/// table, and touches nothing else. Where there is no room, it stops at the first write that
/// does not fit.
pub proof fn law_a_table_is_laid_out(task: FormatTask, start: StreamState)
    requires
        0 <= start.pos,
        !task.pre_erased,
    ensures
        ({
            let end = task.after(start);
            let out = task.result::<()>(start);
            let total = task.zero_total as int;
            let room = start.bytes.len() - start.pos - 512;
            let done = if room < 0 {
                -512
            } else if total <= room {
                total
            } else {
                room - room % 8192
            };
            &&& end.bytes.len() == start.bytes.len()
            &&& forall|i: int|
                0 <= i < start.bytes.len() ==> #[trigger] end.bytes[i] == if start.pos <= i
                    < start.pos + 512 + done {
                    blank_byte(task.fat_type, task.media, i - start.pos)
                } else {
                    start.bytes[i]
                }
            &&& end.pos == start.pos + 512 + done
            &&& out == if total <= room {
                Ok::<(), FatError<()>>(())
            } else {
                Err(FatError::UnexpectedEof)
            }
        }),
{
    let end = task.after(start);
    let room = start.bytes.len() - start.pos - 512;
    let first = first_block(task.fat_type, task.media);
    assert forall|i: int| 0 <= i < 512 implies first[i] == blank_byte(
        task.fat_type,
        task.media,
        i,
    ) by {}
    assert(first.len() == 512);
    if room >= 0 {
        let done = task.filled(start);
        assert(room / 8192 * 8192 == room - room % 8192);
        let written = first + stream::zeros(done as nat);
        assert forall|i: int| 0 <= i < start.bytes.len() implies #[trigger] end.bytes[i]
            == if start.pos <= i < start.pos + 512 + done {
            blank_byte(task.fat_type, task.media, i - start.pos)
        } else {
            start.bytes[i]
        } by {
            if start.pos <= i < start.pos + 512 + done {
                assert(end.bytes[i] == written[i - start.pos]);
                if i - start.pos < 512 {
                    assert(written[i - start.pos] == first[i - start.pos]);
                }
            }
        }
    }
}

/// On a device that was erased before, only the first block of a table is written: the stream
/// is moved behind the table, and one report says that all of it is done.
pub proof fn law_an_erased_table_is_only_begun(task: FormatTask, start: StreamState)
    requires
        0 <= start.pos,
        task.pre_erased,
        task.zero_total <= i64::MAX,
    ensures
        ({
            let end = task.after(start);
            let out = task.result::<()>(start);
            let room = start.bytes.len() - start.pos >= 512;
            let behind = start.pos + 512 + task.zero_total;
            &&& end.bytes.len() == start.bytes.len()
            &&& forall|i: int|
                0 <= i < start.bytes.len() ==> #[trigger] end.bytes[i] == if room && start.pos <= i
                    < start.pos + 512 {
                    blank_byte(task.fat_type, task.media, i - start.pos)
                } else {
                    start.bytes[i]
                }
            &&& room && behind <= u64::MAX ==> {
                &&& out is Ok
                &&& end.pos == behind
                &&& end.reports == start.reports.push((task.zero_total, task.zero_total))
            }
            &&& !room ==> end == start
            &&& !(room && behind <= u64::MAX) ==> out == Err::<(), FatError<()>>(
                FatError::UnexpectedEof,
            )
        }),
{
    let end = task.after(start);
    let first = first_block(task.fat_type, task.media);
    assert(first.len() == 512);
    assert forall|i: int| 0 <= i < 512 implies first[i] == blank_byte(
        task.fat_type,
        task.media,
        i,
    ) by {}
    assert(first + stream::zeros(0) =~= first);
}

/// The progress of laying out a table is told from nothing to all of it, once before the
/// first chunk and once behind every chunk, and never goes back.
pub proof fn law_progress_is_told_chunk_by_chunk(task: FormatTask, start: StreamState, i: int)
    requires
        0 <= start.pos,
        start.pos + 512 + task.zero_total <= start.bytes.len(),
        !task.pre_erased,
    ensures
        ({
            let told = task.after(start).reports;
            let old = start.reports.len();
            let total = task.zero_total;
            &&& told.len() == old + (total + 8191) / 8192 + 1
            &&& 0 <= i < old ==> told[i] == start.reports[i]
            &&& told[old as int] == (0u64, total)
            &&& told.last() == (total, total)
            &&& old <= i < told.len() - 1 ==> {
                &&& told[i + 1].1 == total
                &&& told[i].0 < told[i + 1].0
                &&& told[i + 1].0 - told[i].0 == 8192 || (i + 2 == told.len() && told[i + 1].0
                    - told[i].0 < 8192)
            }
        }),
{
    let total = task.zero_total as int;
    let n = chunks(total);
    assert(task.filled(start) == total);
    assert(8192 * n >= total);
    assert(8192 * (n - 1) < total || n == 0);
}

/// The distance that a stream is moved by on an erased device is a signed number of 64 bits.
pub proof fn law_a_distance_is_a_signed_number(task: FormatTask)
    ensures
        task.zero_total < 0x8000_0000_0000_0000 ==> task.distance() == task.zero_total,
        task.zero_total >= 0x8000_0000_0000_0000 ==> task.distance() == task.zero_total
            - 0x1_0000_0000_0000_0000,
{
    let total = task.zero_total;
    assert(total >= 0x8000_0000_0000_0000 ==> (total as i64) == total - 0x1_0000_0000_0000_0000)
        by (bit_vector);
}

} // verus!
