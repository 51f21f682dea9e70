//! Reading and writing the entry of one cluster.

use vstd::prelude::*;

use crate::fat::entry;
use crate::fat::entry::{
    decode_entry, entry_offset, pack_entry, unpack_entry, FatType, FatValue, FsStatusFlags,
};
use crate::fat::stream;
use crate::fat::stream::{
    run, FatError, MemStream, Step, StreamMachine, StreamOp, StreamReply, StreamState,
};

verus! {

/// A cluster of a table.
pub struct EntryTask {
    pub fat_type: FatType,
    pub cluster: u32,
}

/// Reads the entry of a cluster, as a number.
pub struct GetRaw {
    pub fat_type: FatType,
    pub cluster: u32,
    /// The stream is at the entry.
    pub sought: bool,
}

/// What reading the number of an entry gives.
pub open spec fn raw_result<E>(fat_type: FatType, bytes: Seq<u8>, cluster: u32) -> Result<
    u32,
    FatError<E>,
> {
    if entry::fits(fat_type, bytes.len(), cluster as int) {
        Ok(entry::raw(fat_type, bytes, cluster as int) as u32)
    } else {
        Err(FatError::UnexpectedEof)
    }
}

/// The stream after the entry of a cluster was read.
pub open spec fn after_read(fat_type: FatType, start: StreamState, cluster: u32) -> StreamState {
    if entry::fits(fat_type, start.bytes.len(), cluster as int) {
        start.at(entry::offset(fat_type, cluster as int) + entry::width(fat_type))
    } else {
        start.at(entry::offset(fat_type, cluster as int))
    }
}

/// The operation that reads an entry.
pub open spec fn read_op(fat_type: FatType) -> StreamOp {
    match fat_type {
        FatType::Fat32 => StreamOp::ReadU32,
        _ => StreamOp::ReadU16,
    }
}

impl GetRaw {
    /// Begin: seek to the entry.
    pub fn start<E>(fat_type: FatType, cluster: u32) -> (first: Step<
        GetRaw,
        Result<u32, FatError<E>>,
    >)
        ensures
            first == Step::<GetRaw, Result<u32, FatError<E>>>::Do(
                GetRaw { fat_type, cluster, sought: false },
                StreamOp::SeekTo(entry::offset(fat_type, cluster as int) as u64),
            ),
    {
        Step::Do(
            GetRaw { fat_type, cluster, sought: false },
            StreamOp::SeekTo(entry_offset(fat_type, cluster)),
        )
    }
}

impl<E> StreamMachine<E> for GetRaw {
    type Task = EntryTask;

    type Out = Result<u32, FatError<E>>;

    open spec fn task(self) -> EntryTask {
        EntryTask { fat_type: self.fat_type, cluster: self.cluster }
    }

    open spec fn pending(self) -> StreamOp {
        if self.sought {
            read_op(self.fat_type)
        } else {
            StreamOp::SeekTo(entry::offset(self.fat_type, self.cluster as int) as u64)
        }
    }

    open spec fn reached(self, start: StreamState, now: StreamState) -> bool {
        if self.sought {
            now == start.at(entry::offset(self.fat_type, self.cluster as int))
        } else {
            now == start
        }
    }

    open spec fn remaining(self, start: StreamState) -> nat {
        if self.sought {
            1
        } else {
            2
        }
    }

    open spec fn outcome(
        task: EntryTask,
        start: StreamState,
        end: StreamState,
        out: Result<u32, FatError<E>>,
    ) -> bool {
        &&& end == after_read(task.fat_type, start, task.cluster)
        &&& out == raw_result::<E>(task.fat_type, start.bytes, task.cluster)
    }

    fn step(self, reply: StreamReply<E>) -> (next: Step<Self, Result<u32, FatError<E>>>)
        ensures
            reply matches StreamReply::Failed(e) ==> stream::gives_up(next, e),
            reply matches StreamReply::U16(packed) ==> next matches Step::Done(Ok(raw)) && raw
                == entry::unpack(self.fat_type, self.cluster as int, packed as int),
            reply matches StreamReply::U32(packed) ==> next matches Step::Done(Ok(raw)) && raw
                == entry::unpack(self.fat_type, self.cluster as int, packed as int),
            reply is Done ==> next is Do,
    {
        match reply {
            StreamReply::Failed(e) => Step::Done(Err(e)),
            StreamReply::U16(packed) => Step::Done(
                Ok(unpack_entry(self.fat_type, self.cluster, packed as u32)),
            ),
            StreamReply::U32(packed) => Step::Done(
                Ok(unpack_entry(self.fat_type, self.cluster, packed)),
            ),
            _ => {
                let op: StreamOp = match self.fat_type {
                    FatType::Fat32 => StreamOp::ReadU32,
                    _ => StreamOp::ReadU16,
                };
                Step::Do(GetRaw { sought: true, ..self }, op)
            },
        }
    }
}

/// What reading an entry gives.
pub open spec fn read_result<E>(fat_type: FatType, bytes: Seq<u8>, cluster: u32) -> Result<
    FatValue,
    FatError<E>,
> {
    if entry::fits(fat_type, bytes.len(), cluster as int) {
        Ok(entry::value(fat_type, bytes, cluster as int))
    } else {
        Err(FatError::UnexpectedEof)
    }
}

/// Reads what the entry of a cluster says.
pub struct ReadFat {
    pub raw: GetRaw,
}

impl ReadFat {
    /// Begin: seek to the entry.
    pub fn start<E>(fat_type: FatType, cluster: u32) -> (first: Step<
        ReadFat,
        Result<FatValue, FatError<E>>,
    >)
        ensures
            first matches Step::Do(m, op) && m == (ReadFat {
                raw: GetRaw { fat_type, cluster, sought: false },
            }) && op == StreamOp::SeekTo(entry::offset(fat_type, cluster as int) as u64),
    {
        Step::Do(
            ReadFat { raw: GetRaw { fat_type, cluster, sought: false } },
            StreamOp::SeekTo(entry_offset(fat_type, cluster)),
        )
    }
}

impl<E> StreamMachine<E> for ReadFat {
    type Task = EntryTask;

    type Out = Result<FatValue, FatError<E>>;

    open spec fn task(self) -> EntryTask {
        <GetRaw as StreamMachine<E>>::task(self.raw)
    }

    open spec fn pending(self) -> StreamOp {
        <GetRaw as StreamMachine<E>>::pending(self.raw)
    }

    open spec fn reached(self, start: StreamState, now: StreamState) -> bool {
        <GetRaw as StreamMachine<E>>::reached(self.raw, start, now)
    }

    open spec fn remaining(self, start: StreamState) -> nat {
        <GetRaw as StreamMachine<E>>::remaining(self.raw, start)
    }

    open spec fn outcome(
        task: EntryTask,
        start: StreamState,
        end: StreamState,
        out: Result<FatValue, FatError<E>>,
    ) -> bool {
        &&& end == after_read(task.fat_type, start, task.cluster)
        &&& out == read_result::<E>(task.fat_type, start.bytes, task.cluster)
    }

    fn step(self, reply: StreamReply<E>) -> (next: Step<Self, Result<FatValue, FatError<E>>>)
        ensures
            reply matches StreamReply::Failed(e) ==> stream::gives_up(next, e),
            reply matches StreamReply::U16(packed) ==> next matches Step::Done(Ok(value)) && value
                == entry::meaning(
                self.raw.fat_type,
                self.raw.cluster as int,
                entry::unpack(self.raw.fat_type, self.raw.cluster as int, packed as int),
            ),
            reply matches StreamReply::U32(packed) ==> next matches Step::Done(Ok(value)) && value
                == entry::meaning(
                self.raw.fat_type,
                self.raw.cluster as int,
                entry::unpack(self.raw.fat_type, self.raw.cluster as int, packed as int),
            ),
    {
        let fat_type: FatType = self.raw.fat_type;
        let cluster: u32 = self.raw.cluster;
        match self.raw.step(reply) {
            Step::Do(raw, op) => Step::Do(ReadFat { raw }, op),
            Step::Done(Err(e)) => Step::Done(Err(e)),
            Step::Done(Ok(raw)) => Step::Done(Ok(decode_entry(fat_type, cluster, raw))),
        }
    }
}

/// Where a chain goes on after an entry. Clusters 0 and 1 are reserved and never
/// hold data, so an entry that points to one is corrupt.
pub open spec fn successor<E>(value: FatValue) -> Result<Option<u32>, FatError<E>> {
    match value {
        FatValue::Data(n) => if n < 2 {
            Err(FatError::CorruptedFileSystem)
        } else {
            Ok(Some(n))
        },
        _ => Ok(None),
    }
}

/// Where a chain goes on after a cluster.
pub open spec fn next_result<E>(fat_type: FatType, bytes: Seq<u8>, cluster: u32) -> Result<
    Option<u32>,
    FatError<E>,
> {
    match read_result::<E>(fat_type, bytes, cluster) {
        Ok(value) => successor(value),
        Err(e) => Err(e),
    }
}

/// Where a chain goes on after an entry.
pub fn next_of<E>(value: FatValue) -> (next: Result<Option<u32>, FatError<E>>)
    ensures
        next == successor::<E>(value),
{
    match value {
        FatValue::Data(n) => {
            if n < 2 {
                return Err(FatError::CorruptedFileSystem);
            }
            Ok(Some(n))
        },
        _ => Ok(None),
    }
}

/// Reads where a chain goes on after a cluster.
pub struct NextCluster {
    pub read: ReadFat,
}

impl NextCluster {
    /// Begin: seek to the entry.
    pub fn start<E>(fat_type: FatType, cluster: u32) -> (first: Step<
        NextCluster,
        Result<Option<u32>, FatError<E>>,
    >)
        ensures
            first matches Step::Do(m, op) && m == (NextCluster {
                read: ReadFat { raw: GetRaw { fat_type, cluster, sought: false } },
            }) && op == StreamOp::SeekTo(entry::offset(fat_type, cluster as int) as u64),
    {
        Step::Do(
            NextCluster { read: ReadFat { raw: GetRaw { fat_type, cluster, sought: false } } },
            StreamOp::SeekTo(entry_offset(fat_type, cluster)),
        )
    }
}

impl<E> StreamMachine<E> for NextCluster {
    type Task = EntryTask;

    type Out = Result<Option<u32>, FatError<E>>;

    open spec fn task(self) -> EntryTask {
        <ReadFat as StreamMachine<E>>::task(self.read)
    }

    open spec fn pending(self) -> StreamOp {
        <ReadFat as StreamMachine<E>>::pending(self.read)
    }

    open spec fn reached(self, start: StreamState, now: StreamState) -> bool {
        <ReadFat as StreamMachine<E>>::reached(self.read, start, now)
    }

    open spec fn remaining(self, start: StreamState) -> nat {
        <ReadFat as StreamMachine<E>>::remaining(self.read, start)
    }

    open spec fn outcome(
        task: EntryTask,
        start: StreamState,
        end: StreamState,
        out: Result<Option<u32>, FatError<E>>,
    ) -> bool {
        &&& end == after_read(task.fat_type, start, task.cluster)
        &&& out == next_result::<E>(task.fat_type, start.bytes, task.cluster)
    }

    fn step(self, reply: StreamReply<E>) -> (next: Step<Self, Result<Option<u32>, FatError<E>>>)
        ensures
            reply matches StreamReply::Failed(e) ==> stream::gives_up(next, e),
    {
        match self.read.step(reply) {
            Step::Do(read, op) => Step::Do(NextCluster { read }, op),
            Step::Done(Err(e)) => Step::Done(Err(e)),
            Step::Done(Ok(value)) => Step::Done(next_of(value)),
        }
    }
}

/// What the entry of cluster 1 says of the volume: a flag is raised where its bit
/// is clear. A FAT12 has no such bits.
pub open spec fn flags_of(fat_type: FatType, raw: int) -> FsStatusFlags {
    match fat_type {
        FatType::Fat12 => FsStatusFlags { dirty: false, io_error: false },
        FatType::Fat16 => FsStatusFlags {
            dirty: raw / 0x8000 % 2 == 0,
            io_error: raw / 0x4000 % 2 == 0,
        },
        FatType::Fat32 => FsStatusFlags {
            dirty: raw / 0x800_0000 % 2 == 0,
            io_error: raw / 0x400_0000 % 2 == 0,
        },
    }
}

/// What reading the flags of a volume gives.
pub open spec fn flags_result<E>(fat_type: FatType, bytes: Seq<u8>) -> Result<
    FsStatusFlags,
    FatError<E>,
> {
    if fat_type is Fat12 || entry::fits(fat_type, bytes.len(), 1) {
        Ok(flags_of(fat_type, entry::raw(fat_type, bytes, 1)))
    } else {
        Err(FatError::UnexpectedEof)
    }
}

/// What the entry of cluster 1 says of the volume.
pub fn decode_flags(fat_type: FatType, val: u32) -> (flags: FsStatusFlags)
    ensures
        flags == flags_of(fat_type, val as int),
{
    assert((val & 0x8000 == 0) == (val / 0x8000 % 2 == 0) && (val & 0x4000 == 0) == (val / 0x4000
        % 2 == 0) && (val & 0x800_0000 == 0) == (val / 0x800_0000 % 2 == 0) && (val & 0x400_0000
        == 0) == (val / 0x400_0000 % 2 == 0)) by (bit_vector);
    let dirty: bool = match fat_type {
        FatType::Fat12 => false,
        FatType::Fat16 => val & 0x8000 == 0,
        FatType::Fat32 => val & 0x800_0000 == 0,
    };
    let io_error: bool = match fat_type {
        FatType::Fat12 => false,
        FatType::Fat16 => val & 0x4000 == 0,
        FatType::Fat32 => val & 0x400_0000 == 0,
    };
    FsStatusFlags { dirty, io_error }
}

/// Reads the flags of a volume.
pub struct ReadFlags {
    pub raw: GetRaw,
}

impl ReadFlags {
    /// Begin: seek to the entry of cluster 1. A FAT12 needs nothing.
    pub fn start<E>(fat_type: FatType) -> (first: Step<ReadFlags, Result<FsStatusFlags, FatError<E>>>)
        ensures
            match first {
                Step::Do(m, op) => {
                    &&& !(fat_type is Fat12)
                    &&& m == (ReadFlags { raw: GetRaw { fat_type, cluster: 1, sought: false } })
                    &&& op == StreamOp::SeekTo(entry::offset(fat_type, 1) as u64)
                },
                Step::Done(out) => {
                    &&& fat_type is Fat12
                    &&& out matches Ok(flags) && flags == flags_of(fat_type, 0xFFF)
                },
            },
    {
        match fat_type {
            FatType::Fat12 => Step::Done(Ok(decode_flags(fat_type, 0xFFF))),
            _ => Step::Do(
                ReadFlags { raw: GetRaw { fat_type, cluster: 1, sought: false } },
                StreamOp::SeekTo(entry_offset(fat_type, 1)),
            ),
        }
    }
}

impl<E> StreamMachine<E> for ReadFlags {
    type Task = EntryTask;

    type Out = Result<FsStatusFlags, FatError<E>>;

    open spec fn task(self) -> EntryTask {
        <GetRaw as StreamMachine<E>>::task(self.raw)
    }

    open spec fn pending(self) -> StreamOp {
        <GetRaw as StreamMachine<E>>::pending(self.raw)
    }

    open spec fn reached(self, start: StreamState, now: StreamState) -> bool {
        <GetRaw as StreamMachine<E>>::reached(self.raw, start, now)
    }

    open spec fn remaining(self, start: StreamState) -> nat {
        <GetRaw as StreamMachine<E>>::remaining(self.raw, start)
    }

    open spec fn outcome(
        task: EntryTask,
        start: StreamState,
        end: StreamState,
        out: Result<FsStatusFlags, FatError<E>>,
    ) -> bool {
        &&& end == after_read(task.fat_type, start, task.cluster)
        &&& out == match raw_result::<E>(task.fat_type, start.bytes, task.cluster) {
            Ok(raw) => Ok(flags_of(task.fat_type, raw as int)),
            Err(e) => Err::<FsStatusFlags, FatError<E>>(e),
        }
    }

    fn step(self, reply: StreamReply<E>) -> (next: Step<Self, Result<FsStatusFlags, FatError<E>>>)
        ensures
            reply matches StreamReply::Failed(e) ==> stream::gives_up(next, e),
    {
        let fat_type: FatType = self.raw.fat_type;
        match self.raw.step(reply) {
            Step::Do(raw, op) => Step::Do(ReadFlags { raw }, op),
            Step::Done(Err(e)) => Step::Done(Err(e)),
            Step::Done(Ok(raw)) => Step::Done(Ok(decode_flags(fat_type, raw))),
        }
    }
}

/// An entry to be set.
pub struct WriteTask {
    pub fat_type: FatType,
    pub cluster: u32,
    pub value: FatValue,
}

/// Where setting an entry stands.
pub enum WritePhase {
    /// Seeking to the entry, to read it.
    SeekRead,
    /// Reading it, for the bits that are kept.
    Read,
    /// Seeking to the entry, to write this.
    SeekWrite(u32),
    /// Writing this.
    Write(u32),
}

/// Sets the entry of a cluster.
pub struct WriteFat {
    pub fat_type: FatType,
    pub cluster: u32,
    pub value: FatValue,
    pub phase: WritePhase,
}

/// The FAT32 clusters with a special number are never set free.
pub open spec fn may_write(fat_type: FatType, cluster: u32, value: FatValue) -> bool {
    !(fat_type is Fat32 && value is Free && entry::special(fat_type, cluster as int))
}

/// The stream after the entry of a cluster was set.
pub open spec fn after_write(
    fat_type: FatType,
    start: StreamState,
    cluster: u32,
    value: FatValue,
) -> StreamState {
    let at = entry::offset(fat_type, cluster as int);
    if entry::fits(fat_type, start.bytes.len(), cluster as int) {
        start.at(at).with(
            entry::put(fat_type, start.bytes, cluster as int, value),
            entry::width(fat_type),
        )
    } else {
        start.at(at)
    }
}

/// What setting an entry gives.
pub open spec fn write_result<E>(fat_type: FatType, bytes: Seq<u8>, cluster: u32) -> Result<
    (),
    FatError<E>,
> {
    if entry::fits(fat_type, bytes.len(), cluster as int) {
        Ok(())
    } else {
        Err(FatError::UnexpectedEof)
    }
}

impl WriteFat {
    /// The number that is to be stored, over a table of these bytes.
    pub open spec fn word_for(self, bytes: Seq<u8>) -> u32 {
        entry::new_word(
            self.fat_type,
            self.cluster as int,
            entry::word(self.fat_type, bytes, self.cluster as int) as u32,
            self.value,
        )
    }

    /// Begin: seek to the entry. A FAT16 entry has no bits to keep and is written
    /// without reading it.
    pub fn begin(fat_type: FatType, cluster: u32, value: FatValue) -> (first: (WriteFat, StreamOp))
        requires
            may_write(fat_type, cluster, value),
        ensures
            ({
                let (m, op) = first;
                &&& m.fat_type == fat_type && m.cluster == cluster && m.value == value
                &&& op == StreamOp::SeekTo(entry::offset(fat_type, cluster as int) as u64)
                &&& match m.phase {
                    WritePhase::SeekRead => !(fat_type is Fat16),
                    WritePhase::SeekWrite(word) => fat_type is Fat16 && word == entry::new_word(
                        fat_type,
                        cluster as int,
                        0,
                        value,
                    ),
                    _ => false,
                }
            }),
    {
        let phase: WritePhase = match fat_type {
            FatType::Fat16 => WritePhase::SeekWrite(pack_entry(fat_type, cluster, 0, value)),
            _ => WritePhase::SeekRead,
        };
        (
            WriteFat { fat_type, cluster, value, phase },
            StreamOp::SeekTo(entry_offset(fat_type, cluster)),
        )
    }

    /// Begin, as a step.
    pub fn start<E>(fat_type: FatType, cluster: u32, value: FatValue) -> (first: Step<
        WriteFat,
        Result<(), FatError<E>>,
    >)
        requires
            may_write(fat_type, cluster, value),
        ensures
            first matches Step::Do(m, op) && {
                &&& <WriteFat as StreamMachine<E>>::task(m) == WriteTask { fat_type, cluster, value }
                &&& op == <WriteFat as StreamMachine<E>>::pending(m)
                &&& forall|s: StreamState| #[trigger]
                    <WriteFat as StreamMachine<E>>::reached(m, s, s)
            },
    {
        let (m, op): (WriteFat, StreamOp) = WriteFat::begin(fat_type, cluster, value);
        Step::Do(m, op)
    }
}

impl<E> StreamMachine<E> for WriteFat {
    type Task = WriteTask;

    type Out = Result<(), FatError<E>>;

    open spec fn task(self) -> WriteTask {
        WriteTask { fat_type: self.fat_type, cluster: self.cluster, value: self.value }
    }

    open spec fn pending(self) -> StreamOp {
        let seek = StreamOp::SeekTo(entry::offset(self.fat_type, self.cluster as int) as u64);
        match self.phase {
            WritePhase::SeekRead => seek,
            WritePhase::Read => read_op(self.fat_type),
            WritePhase::SeekWrite(_) => seek,
            WritePhase::Write(word) => match self.fat_type {
                FatType::Fat32 => StreamOp::WriteU32(word),
                _ => StreamOp::WriteU16(word as u16),
            },
        }
    }

    open spec fn reached(self, start: StreamState, now: StreamState) -> bool {
        let at = entry::offset(self.fat_type, self.cluster as int);
        let fits = entry::fits(self.fat_type, start.bytes.len(), self.cluster as int);
        match self.phase {
            WritePhase::SeekRead => !(self.fat_type is Fat16) && now == start,
            WritePhase::Read => !(self.fat_type is Fat16) && now == start.at(at),
            WritePhase::SeekWrite(word) => {
                &&& word == self.word_for(start.bytes)
                &&& self.fat_type is Fat16 || fits
                &&& now == start.at(now.pos)
            },
            WritePhase::Write(word) => {
                &&& word == self.word_for(start.bytes)
                &&& self.fat_type is Fat16 || fits
                &&& now == start.at(at)
            },
        }
    }

    open spec fn remaining(self, start: StreamState) -> nat {
        match self.phase {
            WritePhase::SeekRead => 4,
            WritePhase::Read => 3,
            WritePhase::SeekWrite(_) => 2,
            WritePhase::Write(_) => 1,
        }
    }

    open spec fn outcome(
        task: WriteTask,
        start: StreamState,
        end: StreamState,
        out: Result<(), FatError<E>>,
    ) -> bool {
        &&& end == after_write(task.fat_type, start, task.cluster, task.value)
        &&& out == write_result::<E>(task.fat_type, start.bytes, task.cluster)
    }

    fn step(self, reply: StreamReply<E>) -> (next: Step<Self, Result<(), FatError<E>>>)
        ensures
            reply matches StreamReply::Failed(e) ==> stream::gives_up(next, e),
    {
        let at: u64 = entry_offset(self.fat_type, self.cluster);
        match (self.phase, reply) {
            (_, StreamReply::Failed(e)) => Step::Done(Err(e)),
            (WritePhase::SeekRead, _) => {
                let op: StreamOp = match self.fat_type {
                    FatType::Fat32 => StreamOp::ReadU32,
                    _ => StreamOp::ReadU16,
                };
                Step::Do(WriteFat { phase: WritePhase::Read, ..self }, op)
            },
            (WritePhase::Read, StreamReply::U16(old)) => {
                let word: u32 = pack_entry(self.fat_type, self.cluster, old as u32, self.value);
                Step::Do(
                    WriteFat { phase: WritePhase::SeekWrite(word), ..self },
                    StreamOp::SeekTo(at),
                )
            },
            (WritePhase::Read, StreamReply::U32(old)) => {
                let word: u32 = pack_entry(self.fat_type, self.cluster, old, self.value);
                Step::Do(
                    WriteFat { phase: WritePhase::SeekWrite(word), ..self },
                    StreamOp::SeekTo(at),
                )
            },
            (WritePhase::SeekWrite(word), _) => {
                let op: StreamOp = match self.fat_type {
                    FatType::Fat32 => StreamOp::WriteU32(word),
                    _ => StreamOp::WriteU16(#[verifier::truncate] (word as u16)),
                };
                Step::Do(WriteFat { phase: WritePhase::Write(word), ..self }, op)
            },
            (_, _) => Step::Done(Ok(())),
        }
    }
}

/// Read what the entry of a cluster says.
pub fn read_fat(fat: &mut MemStream, fat_type: FatType, cluster: u32) -> (out: Result<
    FatValue,
    FatError<()>,
>)
    requires
        old(fat)@.wf(),
    ensures
        final(fat)@.wf(),
        final(fat)@ == after_read(fat_type, old(fat)@, cluster),
        out == read_result::<()>(fat_type, old(fat)@.bytes, cluster),
{
    run::<(), ReadFat>(ReadFat::start(fat_type, cluster), fat)
}

/// Set the entry of a cluster.
pub fn write_fat(fat: &mut MemStream, fat_type: FatType, cluster: u32, value: FatValue) -> (out:
    Result<(), FatError<()>>)
    requires
        old(fat)@.wf(),
        may_write(fat_type, cluster, value),
    ensures
        final(fat)@.wf(),
        final(fat)@ == after_write(fat_type, old(fat)@, cluster, value),
        out == write_result::<()>(fat_type, old(fat)@.bytes, cluster),
{
    run::<(), WriteFat>(WriteFat::start(fat_type, cluster, value), fat)
}

/// Read where a chain goes on after a cluster.
pub fn get_next_cluster(fat: &mut MemStream, fat_type: FatType, cluster: u32) -> (out: Result<
    Option<u32>,
    FatError<()>,
>)
    requires
        old(fat)@.wf(),
    ensures
        final(fat)@.wf(),
        final(fat)@ == after_read(fat_type, old(fat)@, cluster),
        out == next_result::<()>(fat_type, old(fat)@.bytes, cluster),
{
    run::<(), NextCluster>(NextCluster::start(fat_type, cluster), fat)
}

/// Read the flags of a volume.
pub fn read_fat_flags(fat: &mut MemStream, fat_type: FatType) -> (out: Result<
    FsStatusFlags,
    FatError<()>,
>)
    requires
        old(fat)@.wf(),
    ensures
        final(fat)@.wf(),
        final(fat)@ == (if fat_type is Fat12 {
            old(fat)@
        } else {
            after_read(fat_type, old(fat)@, 1)
        }),
        out == flags_result::<()>(fat_type, old(fat)@.bytes),
{
    run::<(), ReadFlags>(ReadFlags::start(fat_type), fat)
}

/// Reading an entry gives what the table says of the cluster, wherever the entry lies in the
/// table, and says that the table ends otherwise. It changes nothing, and leaves the stream
/// behind the entry.
pub proof fn law_an_entry_is_read_where_it_lies<E>(
    fat_type: FatType,
    start: StreamState,
    cluster: u32,
)
    ensures
        ({
            let bits = match fat_type {
                FatType::Fat12 => 12int,
                FatType::Fat16 => 16int,
                FatType::Fat32 => 32int,
            };
            let there = bits * (cluster + 1) <= 8 * start.bytes.len();
            let first = bits * cluster / 8;
            let end = after_read(fat_type, start, cluster);
            &&& read_result::<E>(fat_type, start.bytes, cluster) == if there {
                Ok::<FatValue, FatError<E>>(entry::value(fat_type, start.bytes, cluster as int))
            } else {
                Err(FatError::UnexpectedEof)
            }
            &&& raw_result::<E>(fat_type, start.bytes, cluster) matches Ok(n) ==> there && n
                == entry::raw(fat_type, start.bytes, cluster as int)
            &&& raw_result::<E>(fat_type, start.bytes, cluster) is Ok <==> there
            &&& end.bytes == start.bytes
            &&& end.reports == start.reports
            &&& end.pos == if !there {
                first
            } else if fat_type is Fat32 {
                first + 4
            } else {
                first + 2
            }
        }),
{
    if entry::fits(fat_type, start.bytes.len(), cluster as int) {
        lemma_raw_fits(fat_type, start.bytes, cluster as int);
    }
}

/// An entry is a number of 32 bits at most.
proof fn lemma_raw_fits(fat_type: FatType, bytes: Seq<u8>, cluster: int)
    requires
        0 <= cluster,
        entry::fits(fat_type, bytes.len(), cluster),
    ensures
        0 <= entry::raw(fat_type, bytes, cluster) <= u32::MAX,
{
}

/// A chain goes on with the number that the entry of a cluster holds, exactly where that is
/// the number of a cluster that can hold data: a walk never leads to a reserved cluster or to
/// one with a special number. It ends where the entry is zero or one of the nine greatest
/// numbers, and the number one is corrupt.
pub proof fn law_a_chain_goes_on_with_the_number_of_the_entry<E>(
    fat_type: FatType,
    bytes: Seq<u8>,
    cluster: u32,
)
    ensures
        ({
            let (bits, top) = match fat_type {
                FatType::Fat12 => (12int, 0x1000int),
                FatType::Fat16 => (16int, 0x1_0000int),
                FatType::Fat32 => (32int, 0x1000_0000int),
            };
            let there = bits * (cluster + 1) <= 8 * bytes.len();
            let n = entry::raw(fat_type, bytes, cluster as int) % top;
            let barred = fat_type is Fat32 && 0x0FFF_FFF7 <= cluster <= 0x0FFF_FFFF;
            let next = next_result::<E>(fat_type, bytes, cluster);
            &&& next == Ok::<Option<u32>, FatError<E>>(Some(n as u32)) <==> there && !barred && 2
                <= n <= top - 10
            &&& next matches Ok(Some(m)) ==> m == n && 2 <= m <= top - 10
            &&& next == Ok::<Option<u32>, FatError<E>>(None) <==> there && (barred || n == 0 || top
                - 9 <= n)
            &&& next == Err::<Option<u32>, FatError<E>>(FatError::CorruptedFileSystem) <==> there
                && !barred && n == 1
            &&& next == Err::<Option<u32>, FatError<E>>(FatError::UnexpectedEof) <==> !there
        }),
{
}

/// The flags of a volume are the two bits below the reserved ones of the last byte of entry 1,
/// raised where they are clear. A FAT12 has none.
pub proof fn law_the_flags_are_two_bits_of_entry_one<E>(fat_type: FatType, bytes: Seq<u8>)
    ensures
        flags_result::<E>(fat_type, bytes) == match fat_type {
            FatType::Fat12 => Ok::<FsStatusFlags, FatError<E>>(
                FsStatusFlags { dirty: false, io_error: false },
            ),
            FatType::Fat16 => if bytes.len() < 4 {
                Err(FatError::UnexpectedEof)
            } else {
                Ok(
                    FsStatusFlags {
                        dirty: bytes[3] < 0x80,
                        io_error: bytes[3] % 0x80 < 0x40,
                    },
                )
            },
            FatType::Fat32 => if bytes.len() < 8 {
                Err(FatError::UnexpectedEof)
            } else {
                Ok(
                    FsStatusFlags {
                        dirty: bytes[7] % 0x10 < 0x08,
                        io_error: bytes[7] % 0x08 < 0x04,
                    },
                )
            },
        },
{
    if fat_type is Fat16 && bytes.len() >= 4 {
        lemma_bits_of_byte(bytes[3] as int, bytes[2] as int, 0x100);
    }
    if fat_type is Fat32 && bytes.len() >= 8 {
        let low = bytes[4] + 0x100 * bytes[5] + 0x1_0000 * bytes[6];
        lemma_bits_of_byte(bytes[7] as int, low, 0x100_0000);
    }
}

/// The bits of the most significant byte of a number.
proof fn lemma_bits_of_byte(high: int, low: int, unit: int)
    requires
        0 <= high < 0x100,
        0 <= low < unit,
        unit == 0x100 || unit == 0x100_0000,
    ensures
        (low + unit * high) / (0x80 * unit) % 2 == high / 0x80 % 2,
        (low + unit * high) / (0x40 * unit) % 2 == high / 0x40 % 2,
        (low + unit * high) / (0x08 * unit) % 2 == high / 0x08 % 2,
        (low + unit * high) / (0x04 * unit) % 2 == high / 0x04 % 2,
{
    if unit == 0x100 {
        assert((low + 0x100 * high) / 0x8000 == high / 0x80);
        assert((low + 0x100 * high) / 0x4000 == high / 0x40);
        assert((low + 0x100 * high) / 0x800 == high / 0x08);
        assert((low + 0x100 * high) / 0x400 == high / 0x04);
    } else {
        assert((low + 0x100_0000 * high) / 0x8000_0000 == high / 0x80);
        assert((low + 0x100_0000 * high) / 0x4000_0000 == high / 0x40);
        assert((low + 0x100_0000 * high) / 0x800_0000 == high / 0x08);
        assert((low + 0x100_0000 * high) / 0x400_0000 == high / 0x04);
    }
}

/// Setting an entry succeeds wherever the entry lies in the table, and is then done; a table
/// that ends before it is not changed. Only the special clusters of a FAT32 may not be set
/// free.
pub proof fn law_an_entry_is_set_where_it_lies<E>(
    fat_type: FatType,
    start: StreamState,
    cluster: u32,
    value: FatValue,
)
    ensures
        ({
            let bits = match fat_type {
                FatType::Fat12 => 12int,
                FatType::Fat16 => 16int,
                FatType::Fat32 => 32int,
            };
            let there = bits * (cluster + 1) <= 8 * start.bytes.len();
            let end = after_write(fat_type, start, cluster, value);
            &&& write_result::<E>(fat_type, start.bytes, cluster) == if there {
                Ok::<(), FatError<E>>(())
            } else {
                Err(FatError::UnexpectedEof)
            }
            &&& end.bytes == if there {
                entry::put(fat_type, start.bytes, cluster as int, value)
            } else {
                start.bytes
            }
            &&& end.reports == start.reports
            &&& end.pos == after_read(fat_type, start, cluster).pos
            &&& may_write(fat_type, cluster, value) <==> !(fat_type is Fat32 && value is Free
                && 0x0FFF_FFF7 <= cluster <= 0x0FFF_FFFF)
        }),
{
}

} // verus!
