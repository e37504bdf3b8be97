//! Samples of native stacks, and their conversion into the deduplicated stack
//! table of the profile format.
use vstd::prelude::*;
use crate::time::Instant;
use crate::stack_table::{
    first_index_of, law_stack_table_spells_each_stack, place_frame, place_frames, stack_index_of,
    stack_path, stack_table_after, stack_table_of, stack_table_well_formed, stacks_have_no_null_frame,
};
use crate::time_expiring_buffer::{BufferEntry, TimeExpiringBuffer};

verus! {

broadcast use vstd::std_specs::vecdeque::group_vec_dequeue_axioms;

/// The number of frames that a `NativeStack` can hold.
pub const MAX_NATIVE_FRAMES: usize = 1024;

/// These are the various failure cases for suspending and sampling a thread.
#[derive(Clone, Copy, Debug, PartialEq, Eq, Structural)]
pub enum SuspendAndSampleError {
    CouldNotSuspendThread,
    CouldNotGetRegisters,
    CouldNotResumeThread,
}

/// An address in the memory of this process. It only names a location and is
/// never read through; zero is the null address.
#[derive(Clone, Copy, Debug, PartialEq, Eq, Structural)]
pub struct ProcessMemoryAddress {
    pub value: u64,
}

impl ProcessMemoryAddress {
    pub fn new(value: u64) -> (a: ProcessMemoryAddress)
        ensures
            a.value == value,
    {
        ProcessMemoryAddress { value }
    }

    pub fn null() -> (a: ProcessMemoryAddress)
        ensures
            a.value == 0,
    {
        ProcessMemoryAddress { value: 0 }
    }

    pub fn is_null(&self) -> (b: bool)
        ensures
            b == (self.value == 0),
    {
        self.value == 0
    }
}

/// The relevant offsets into the stack that are currently in the registers.
#[derive(Clone, Copy, Debug, PartialEq, Eq, Structural)]
pub struct Registers {
    /// Instruction pointer.
    pub instruction_ptr: u64,
    /// Stack pointer.
    pub stack_ptr: u64,
    /// Frame pointer.
    pub frame_ptr: u64,
}

/// The stack of a thread at one moment: for each frame, its instruction
/// pointer and its stack pointer, in the order they were recorded (a walk of
/// the frame pointers records the leaf-most frame first). The stack table
/// takes the frame at index 0 as the root of the stack's path. Both arrays always hold
/// `MAX_NATIVE_FRAMES` addresses; the first `count` of them were recorded by
/// `add_register_to_stack`, and the others are null.
#[derive(Clone, Copy)]
pub struct NativeStack {
    instruction_ptrs: [ProcessMemoryAddress; MAX_NATIVE_FRAMES],
    stack_ptrs: [ProcessMemoryAddress; MAX_NATIVE_FRAMES],
    count: usize,
}

impl NativeStack {
    /// No more frames were recorded than there are slots.
    pub closed spec fn well_formed(&self) -> bool {
        self.count <= MAX_NATIVE_FRAMES
    }

    /// The instruction pointers of all the slots.
    pub closed spec fn instruction_ptrs(&self) -> Seq<ProcessMemoryAddress> {
        self.instruction_ptrs@
    }

    /// The stack pointers of all the slots.
    pub closed spec fn stack_ptrs(&self) -> Seq<ProcessMemoryAddress> {
        self.stack_ptrs@
    }

    /// How many frames were recorded.
    pub closed spec fn count(&self) -> nat {
        self.count as nat
    }

    /// A stack has `MAX_NATIVE_FRAMES` slots; a well formed one uses at most all
    /// of them.
    pub proof fn lemma_well_formed_shape(&self)
        ensures
            self.instruction_ptrs().len() == MAX_NATIVE_FRAMES,
            self.stack_ptrs().len() == MAX_NATIVE_FRAMES,
            self.well_formed() ==> self.count() <= MAX_NATIVE_FRAMES,
    {
    }

    /// The instruction pointer of the leaf-most slot.
    pub fn first_instruction_ptr(&self) -> (a: ProcessMemoryAddress)
        ensures
            a == self.instruction_ptrs()[0],
            live_frames(self.instruction_ptrs()).len() > 0 <==> a.value != 0,
    {
        proof { lemma_live_frames(self.instruction_ptrs()); }
        self.instruction_ptrs[0]
    }

    /// An empty stack: every slot null.
    pub fn new() -> (s: NativeStack)
        ensures
            s.well_formed(),
            s.count() == 0,
            s.instruction_ptrs() == Seq::new(MAX_NATIVE_FRAMES as nat, |i: int| ProcessMemoryAddress { value: 0 }),
            s.stack_ptrs() == Seq::new(MAX_NATIVE_FRAMES as nat, |i: int| ProcessMemoryAddress { value: 0 }),
    {
        let instruction_ptrs = [ProcessMemoryAddress { value: 0 }; MAX_NATIVE_FRAMES];
        let stack_ptrs = [ProcessMemoryAddress { value: 0 }; MAX_NATIVE_FRAMES];
        assert(instruction_ptrs@ =~= Seq::new(MAX_NATIVE_FRAMES as nat, |i: int| ProcessMemoryAddress { value: 0 }));
        assert(stack_ptrs@ =~= Seq::new(MAX_NATIVE_FRAMES as nat, |i: int| ProcessMemoryAddress { value: 0 }));
        NativeStack { instruction_ptrs, stack_ptrs, count: 0 }
    }

    /// Records one more frame; fails, changing nothing, once all
    /// `MAX_NATIVE_FRAMES` slots are used.
    pub fn add_register_to_stack(&mut self, instruction_ptr: u64, stack_ptr: u64) -> (r: Result<(), ()>)
        ensures
            old(self).well_formed() ==> final(self).well_formed(),
            old(self).count() < MAX_NATIVE_FRAMES ==> {
                &&& r is Ok
                &&& final(self).count() == old(self).count() + 1
                &&& final(self).instruction_ptrs() == old(self).instruction_ptrs().update(
                    old(self).count() as int,
                    ProcessMemoryAddress { value: instruction_ptr },
                )
                &&& final(self).stack_ptrs() == old(self).stack_ptrs().update(
                    old(self).count() as int,
                    ProcessMemoryAddress { value: stack_ptr },
                )
            },
            old(self).count() >= MAX_NATIVE_FRAMES ==> {
                &&& r is Err
                &&& final(self).count() == old(self).count()
                &&& final(self).instruction_ptrs() == old(self).instruction_ptrs()
                &&& final(self).stack_ptrs() == old(self).stack_ptrs()
            },
    {
        if !(self.count < MAX_NATIVE_FRAMES) {
            return Err(());
        }
        let index = self.count;
        self.instruction_ptrs[index] = ProcessMemoryAddress::new(instruction_ptr);
        self.stack_ptrs[index] = ProcessMemoryAddress::new(stack_ptr);
        self.count = index + 1;
        Ok(())
    }
}

/// One sample: the stack of a thread.
#[derive(Clone, Copy)]
pub struct Sample {
    pub native_stack: NativeStack,
    pub thread_id: u32,
}

/// A sampler suspends one thread and walks its stack. There are platform
/// specific implementations.
pub trait Sampler: Send {
    fn suspend_and_sample_thread(&self) -> Result<NativeStack, SuspendAndSampleError>;

    /// The id of the thread that this sampler samples.
    fn thread_id(&self) -> u32;
}

/// An entry of the stack table: a frame, and the entry of the frame that
/// called it (`None` for a root frame).
#[derive(Clone, Copy, Debug, PartialEq, Eq, Structural)]
pub struct StackForSerialization {
    pub prefix: Option<usize>,
    pub instruction_ptr: ProcessMemoryAddress,
}

/// The number of addresses at the start of `ptrs` before the first null one.
pub open spec fn live_frame_count(ptrs: Seq<ProcessMemoryAddress>) -> nat
    decreases ptrs.len(),
{
    if ptrs.len() == 0 || ptrs[0].value == 0 {
        0
    } else {
        1 + live_frame_count(ptrs.drop_first())
    }
}

/// The frames of a stack: its addresses up to, not including, the first null one.
pub open spec fn live_frames(ptrs: Seq<ProcessMemoryAddress>) -> Seq<ProcessMemoryAddress> {
    ptrs.take(live_frame_count(ptrs) as int)
}

/// The frames of each sample in `entries`, in order.
pub open spec fn sample_stacks(entries: Seq<BufferEntry<Sample>>) -> Seq<Seq<ProcessMemoryAddress>> {
    Seq::new(entries.len(), |k: int| live_frames(entries[k].value.native_stack.instruction_ptrs()))
}

/// The stack table of the profile format, column by column.
pub struct StackTableData {
    pub frame: Vec<usize>,
    pub category: Vec<u32>,
    pub subcategory: Vec<u32>,
    /// The entry of the calling frame, or -1 for a root frame.
    pub prefix: Vec<i32>,
    pub length: usize,
}

/// The samples table of the profile format, column by column.
pub struct SamplesData {
    /// The stack table entry of each sample.
    pub stack: Vec<usize>,
    /// The milliseconds from the profiler's start to each sample.
    pub time: Vec<u64>,
    pub length: usize,
}

/// The frame table of the profile format, column by column. The columns that
/// this profiler does not know are null throughout.
pub struct FrameTableData {
    pub address: Vec<ProcessMemoryAddress>,
    pub category: Vec<u32>,
    pub subcategory: Vec<u32>,
    pub func: Vec<u32>,
    pub inner_window_id: Vec<Option<u64>>,
    pub implementation: Vec<Option<u64>>,
    pub line: Vec<Option<u64>>,
    pub column: Vec<Option<u64>>,
    pub optimizations: Vec<Option<u64>>,
    pub length: usize,
}

/// The prefix column's value for a stack table entry: its prefix, or -1.
pub open spec fn prefix_column_value(prefix: Option<usize>) -> i32 {
    match prefix {
        Some(p) => p as i32,
        None => -1i32,
    }
}

/// The time column's value for a sample created at `created_at`: the whole
/// milliseconds since `start`, zero when it was created before `start`.
pub open spec fn time_column_value(created_at: Instant, start: Instant) -> u64 {
    ((if created_at.nanos >= start.nanos { created_at.nanos - start.nanos } else { 0 }) / 1_000_000) as u64
}

/// The time column counts whole milliseconds: for a moment at or after the
/// start, that many milliseconds have passed and one more has not; a moment
/// before the start counts zero. The count fits the column when fewer than
/// 2^64 milliseconds have passed.
pub proof fn law_time_column_counts_whole_milliseconds(created_at: Instant, start: Instant)
    requires
        created_at.nanos - start.nanos < 0x1_0000_0000_0000_0000 * 1_000_000,
    ensures
        created_at.nanos >= start.nanos ==> {
            &&& time_column_value(created_at, start) * 1_000_000 <= created_at.nanos - start.nanos
            &&& created_at.nanos - start.nanos < (time_column_value(created_at, start) + 1) * 1_000_000
        },
        created_at.nanos < start.nanos ==> time_column_value(created_at, start) == 0,
{
    if created_at.nanos >= start.nanos {
        let d: int = created_at.nanos - start.nanos;
        let q: int = d / 1_000_000;
        assert(q * 1_000_000 <= d < (q + 1) * 1_000_000) by (nonlinear_arith)
            requires d >= 0, q == d / 1_000_000;
        assert(q < 0x1_0000_0000_0000_0000) by (nonlinear_arith)
            requires d < 0x1_0000_0000_0000_0000 * 1_000_000, q * 1_000_000 <= d, q >= 0;
        assert(time_column_value(created_at, start) == q);
    }
}

/// `n` copies of `value`.
pub open spec fn repeated<T>(value: T, n: nat) -> Seq<T> {
    Seq::new(n, |i: int| value)
}

/// A column of `n` zeros.
fn zeros(n: usize) -> (v: Vec<u32>)
    ensures
        v@ == repeated(0u32, n as nat),
{
    let mut v: Vec<u32> = Vec::new();
    while v.len() < n
        invariant
            v.len() <= n,
            v@ == repeated(0u32, v.len() as nat),
        decreases n - v.len(),
    {
        v.push(0);
        assert(v@ =~= repeated(0u32, v.len() as nat));
    }
    v
}

/// A column of `n` nulls.
fn nulls(n: usize) -> (v: Vec<Option<u64>>)
    ensures
        v@ == repeated(None::<u64>, n as nat),
{
    let mut v: Vec<Option<u64>> = Vec::new();
    while v.len() < n
        invariant
            v.len() <= n,
            v@ == repeated(None::<u64>, v.len() as nat),
        decreases n - v.len(),
    {
        v.push(None);
        assert(v@ =~= repeated(None::<u64>, v.len() as nat));
    }
    v
}

/// Builds the profile's tables from a buffer of samples.
pub struct SamplesSerializer<'a> {
    pub profiler_start: &'a Instant,
    pub buffer: &'a TimeExpiringBuffer<Sample>,
    pub stack_table: Vec<StackForSerialization>,
    pub buffer_entry_to_stack_table: Vec<usize>,
}

impl<'a> SamplesSerializer<'a> {
    /// Builds the stack table, which deduplicates the stacks of the samples:
    /// the frames of each sample are placed in the order the native stack
    /// holds them, the frame at index 0 taken as the root, each under the
    /// entry of the frame before; an entry is added for each (prefix, address)
    /// pair not seen yet. Each sample points to the entry of its last frame.
    #[verifier::loop_isolation(false)]
    pub fn new(profiler_start: &'a Instant, buffer: &'a TimeExpiringBuffer<Sample>) -> (s: SamplesSerializer<'a>)
        requires
            buffer@.len() > 0 ==> sample_stacks(buffer@)[0].len() > 0,
        ensures
            s.profiler_start == profiler_start,
            s.buffer == buffer,
            s.stack_table@ == stack_table_of(sample_stacks(buffer@)),
            s.buffer_entry_to_stack_table@.len() == buffer@.len(),
            forall|k: int| 0 <= k < buffer@.len()
                ==> #[trigger] s.buffer_entry_to_stack_table@[k] == stack_index_of(sample_stacks(buffer@), k),
            forall|k: int| 0 <= k < buffer@.len()
                ==> #[trigger] s.buffer_entry_to_stack_table@[k] < s.stack_table@.len(),
            forall|k: int| 0 <= k < buffer@.len() && sample_stacks(buffer@)[k].len() > 0
                ==> stack_path(s.stack_table@, #[trigger] s.buffer_entry_to_stack_table@[k] as int)
                    == sample_stacks(buffer@)[k],
            stack_table_well_formed(s.stack_table@),
    {
        let ghost stacks = sample_stacks(buffer@);
        let mut stack_table: Vec<StackForSerialization> = Vec::new();
        let mut buffer_entry_to_stack_table: Vec<usize> = Vec::new();
        let n = buffer.buffer.len();
        let mut k: usize = 0;
        while k < n
            invariant
                n == buffer@.len(),
                stacks == sample_stacks(buffer@),
                buffer@.len() > 0 ==> stacks[0].len() > 0,
                k <= n,
                stack_table@ == stack_table_after(stacks, k as nat),
                buffer_entry_to_stack_table@.len() == k,
                forall|j: int| 0 <= j < k
                    ==> #[trigger] buffer_entry_to_stack_table@[j] == stack_index_of(stacks, j),
            decreases n - k,
        {
            let native_stack = &buffer.buffer[k].value.native_stack;
            let ghost frames = stacks[k as int];
            let ghost start_table = stack_table@;
            proof { lemma_live_frames(native_stack.instruction_ptrs()); }
            let mut prefix: Option<usize> = None;
            let mut f: usize = 0;
            let frame_slots = MAX_NATIVE_FRAMES;
            let ghost ptrs = native_stack.instruction_ptrs();
            assert(frames == live_frames(ptrs));
            assert(frames.skip(0) =~= frames);
            while f < frame_slots && !native_stack.instruction_ptrs[f].is_null()
                invariant
                    frame_slots == ptrs.len(),
                    ptrs == native_stack.instruction_ptrs(),
                    frames == live_frames(ptrs),
                    f <= live_frame_count(ptrs),
                    place_frames(start_table, None, frames)
                        == place_frames(stack_table@, prefix, frames.skip(f as int)),
                decreases frame_slots - f,
            {
                let ip = native_stack.instruction_ptrs[f];
                assert(f < live_frame_count(ptrs));
                assert(frames[f as int] == ip);
                let ghost table0 = stack_table@;
                let entry = StackForSerialization { prefix, instruction_ptr: ip };
                // Search the table for the frame under its prefix.
                let mut index: usize = 0;
                while index < stack_table.len() && stack_table[index] != entry
                    invariant
                        stack_table@ == table0,
                        index <= stack_table@.len(),
                        first_index_of(table0, entry, 0) == first_index_of(table0, entry, index as int),
                    decreases stack_table@.len() - index,
                {
                    index = index + 1;
                }
                if index >= stack_table.len() {
                    stack_table.push(entry);
                }
                assert((stack_table@, index as int) == place_frame(table0, prefix, ip));
                assert(frames.skip(f as int).drop_first() =~= frames.skip(f + 1));
                prefix = Some(index);
                f = f + 1;
            }
            assert(f == live_frame_count(ptrs));
            assert(frames.skip(f as int).len() == 0);
            let stack_index = match prefix {
                Some(index) => index,
                None => 0,
            };
            buffer_entry_to_stack_table.push(stack_index);
            k = k + 1;
        }
        let table_len = stack_table.len();
        proof {
            assert(stacks.len() == n);
            assert(stack_table@ == stack_table_of(stacks));
            assert(table_len <= usize::MAX);
            lemma_sample_stacks_have_no_null_frame(buffer@);
            law_stack_table_spells_each_stack(stacks);
            if n > 0 {
                assert(stack_index_of(stacks, 0) < stack_table@.len());
            }
            assert forall|k: int| 0 <= k < buffer@.len()
                implies #[trigger] buffer_entry_to_stack_table@[k] < stack_table@.len() by {
                if stacks[k].len() == 0 {
                    assert(stack_index_of(stacks, k) == 0);
                    assert(stack_index_of(stacks, 0) < stack_table@.len());
                }
            }
        }
        SamplesSerializer { profiler_start, buffer, stack_table, buffer_entry_to_stack_table }
    }

    /// The stack table: for each entry, itself as its frame, category and
    /// subcategory zero, and its prefix (-1 for none).
    pub fn serialize_stack_table(&self) -> (t: StackTableData)
        ensures
            t.length == self.stack_table@.len(),
            t.frame@ == Seq::new(self.stack_table@.len(), |i: int| i as usize),
            t.category@ == repeated(0u32, self.stack_table@.len()),
            t.subcategory@ == repeated(0u32, self.stack_table@.len()),
            t.prefix@ == Seq::new(
                self.stack_table@.len(),
                |i: int| prefix_column_value(self.stack_table@[i].prefix),
            ),
    {
        let n = self.stack_table.len();
        let mut frame: Vec<usize> = Vec::new();
        let mut prefix: Vec<i32> = Vec::new();
        let mut i: usize = 0;
        while i < n
            invariant
                n == self.stack_table@.len(),
                i <= n,
                frame@ == Seq::new(i as nat, |j: int| j as usize),
                prefix@ == Seq::new(i as nat, |j: int| prefix_column_value(self.stack_table@[j].prefix)),
            decreases n - i,
        {
            frame.push(i);
            let value: i32 = match self.stack_table[i].prefix {
                Some(p) => p as i32,
                None => -1,
            };
            prefix.push(value);
            i = i + 1;
            assert(frame@ =~= Seq::new(i as nat, |j: int| j as usize));
            assert(prefix@ =~= Seq::new(i as nat, |j: int| prefix_column_value(self.stack_table@[j].prefix)));
        }
        StackTableData { frame, category: zeros(n), subcategory: zeros(n), prefix, length: n }
    }

    /// The samples table: the stack table entry of each sample, and the
    /// milliseconds from the profiler's start to its creation.
    pub fn serialize_samples(&self) -> (t: SamplesData)
        ensures
            t.stack@ == self.buffer_entry_to_stack_table@,
            t.length == self.buffer_entry_to_stack_table@.len(),
            t.time@ == Seq::new(
                self.buffer@.len(),
                |i: int| time_column_value(self.buffer@[i].created_at, *self.profiler_start),
            ),
    {
        let start = *self.profiler_start;
        let n = self.buffer.buffer.len();
        let mut time: Vec<u64> = Vec::new();
        let mut i: usize = 0;
        while i < n
            invariant
                n == self.buffer@.len(),
                start == *self.profiler_start,
                i <= n,
                time@ == Seq::new(i as nat, |j: int| time_column_value(self.buffer@[j].created_at, start)),
            decreases n - i,
        {
            let created_at = self.buffer.buffer[i].created_at;
            let millis = created_at.duration_since(start).as_millis();
            time.push(millis as u64);
            i = i + 1;
            assert(time@ =~= Seq::new(i as nat, |j: int| time_column_value(self.buffer@[j].created_at, start)));
        }
        SamplesData {
            stack: self.buffer_entry_to_stack_table.clone(),
            time,
            length: self.buffer_entry_to_stack_table.len(),
        }
    }

    /// The frame table: the address of each stack table entry; category,
    /// subcategory and function zero; the other columns null.
    pub fn serialize_frame_table(&self) -> (t: FrameTableData)
        ensures
            t.length == self.stack_table@.len(),
            t.address@ == Seq::new(self.stack_table@.len(), |i: int| self.stack_table@[i].instruction_ptr),
            t.category@ == repeated(0u32, self.stack_table@.len()),
            t.subcategory@ == repeated(0u32, self.stack_table@.len()),
            t.func@ == repeated(0u32, self.stack_table@.len()),
            t.inner_window_id@ == repeated(None::<u64>, self.stack_table@.len()),
            t.implementation@ == repeated(None::<u64>, self.stack_table@.len()),
            t.line@ == repeated(None::<u64>, self.stack_table@.len()),
            t.column@ == repeated(None::<u64>, self.stack_table@.len()),
            t.optimizations@ == repeated(None::<u64>, self.stack_table@.len()),
    {
        let n = self.stack_table.len();
        let mut address: Vec<ProcessMemoryAddress> = Vec::new();
        let mut i: usize = 0;
        while i < n
            invariant
                n == self.stack_table@.len(),
                i <= n,
                address@ == Seq::new(i as nat, |j: int| self.stack_table@[j].instruction_ptr),
            decreases n - i,
        {
            address.push(self.stack_table[i].instruction_ptr);
            i = i + 1;
            assert(address@ =~= Seq::new(i as nat, |j: int| self.stack_table@[j].instruction_ptr));
        }
        FrameTableData {
            address,
            category: zeros(n),
            subcategory: zeros(n),
            func: zeros(n),
            inner_window_id: nulls(n),
            implementation: nulls(n),
            line: nulls(n),
            column: nulls(n),
            optimizations: nulls(n),
            length: n,
        }
    }
}

/// The frames of sampled stacks have no null address.
pub proof fn lemma_sample_stacks_have_no_null_frame(entries: Seq<BufferEntry<Sample>>)
    ensures
        stacks_have_no_null_frame(sample_stacks(entries)),
{
    let stacks = sample_stacks(entries);
    assert forall|k: int, i: int| 0 <= k < stacks.len() && 0 <= i < stacks[k].len()
        implies (#[trigger] stacks[k][i]).value != 0 by {
        let ptrs = entries[k].value.native_stack.instruction_ptrs();
        lemma_live_frames(ptrs);
        assert(stacks[k][i] == ptrs[i]);
    }
}

/// The frames of a stack are its addresses before the first null one: none of
/// them is null, and the address after them, if any, is.
pub proof fn lemma_live_frames(ptrs: Seq<ProcessMemoryAddress>)
    ensures
        live_frame_count(ptrs) <= ptrs.len(),
        live_frames(ptrs).len() == live_frame_count(ptrs),
        forall|i: int| 0 <= i < live_frame_count(ptrs) ==> (#[trigger] ptrs[i]).value != 0,
        live_frame_count(ptrs) < ptrs.len() ==> ptrs[live_frame_count(ptrs) as int].value == 0,
    decreases ptrs.len(),
{
    if ptrs.len() > 0 && ptrs[0].value != 0 {
        let t = ptrs.drop_first();
        lemma_live_frames(t);
        assert forall|i: int| 0 <= i < live_frame_count(ptrs) implies (#[trigger] ptrs[i]).value != 0 by {
            if i > 0 {
                assert(ptrs[i] == t[i - 1]);
            }
        }
    }
}

} // verus!
