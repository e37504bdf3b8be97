//! Walking a suspended thread's stack by its frame pointers.
//!
//! Each frame of the stack starts with the frame pointer of its caller, which
//! lies higher in the stack, followed by the return address and the stack
//! pointer. The walk starts from the registers, follows the chain of frame
//! pointers while it stays inside the stack and looks sane, and records each
//! frame in a `NativeStack`. Reading the memory of the suspended thread is
//! left to the caller, through `read_word`.
use vstd::prelude::*;
use crate::sampler::{NativeStack, Registers, MAX_NATIVE_FRAMES};

verus! {

/// The addresses of a thread's stack: from `min` up to, not including, `max`.
#[derive(Clone, Copy, Debug, PartialEq, Eq, Structural)]
pub struct StackBounds {
    pub min: u64,
    pub max: u64,
}

/// The bytes in one word of the stack.
pub const WORD_SIZE: u64 = 8;

impl StackBounds {
    /// The bounds of a stack of `size` words that starts at `min`.
    pub fn from_start_and_size(min: u64, size: u64) -> (b: StackBounds)
        requires
            min + size * WORD_SIZE <= u64::MAX,
        ensures
            b.min == min,
            b.max == min + size * WORD_SIZE,
    {
        StackBounds { min, max: min + size * WORD_SIZE }
    }
}

/// A frame pointer can be followed: it is not null and lies inside the stack.
pub open spec fn frame_in_stack(fp: u64, bounds: StackBounds) -> bool {
    fp != 0 && bounds.min <= fp < bounds.max
}

/// The caller's frame pointer looks sane: it lies above the current one, as the
/// stack grows down, and at a multiple of four.
pub open spec fn next_frame_is_sane(current: u64, next: u64) -> bool {
    next > current && next % 4 == 0
}

/// Reading the word at `addr` can give `value`.
pub open spec fn read_gives<F: Fn(u64) -> u64>(read_word: F, addr: u64, value: u64) -> bool {
    read_word.ensures((addr,), value)
}

/// The frames recorded in `stack` are those of the walk along the frame
/// pointers `fps`: the registers first; then, for each frame pointer, which
/// lies inside the stack, the words read just above it. The first frame
/// pointer is the one in the registers, and each further one is the word read
/// at the one before, and is sane. The slots after the recorded frames are null.
pub open spec fn walk_recorded<F: Fn(u64) -> u64>(
    stack: NativeStack,
    registers: Registers,
    bounds: StackBounds,
    read_word: F,
    fps: Seq<u64>,
) -> bool {
    &&& stack.well_formed()
    &&& stack.count() == fps.len() + 1
    &&& stack.instruction_ptrs()[0].value == registers.instruction_ptr
    &&& stack.stack_ptrs()[0].value == registers.stack_ptr
    &&& fps.len() > 0 ==> fps[0] == registers.frame_ptr
    &&& forall|j: int| 0 <= j < fps.len() ==> {
        &&& frame_in_stack(#[trigger] fps[j], bounds)
        &&& read_gives(read_word, (fps[j] + WORD_SIZE) as u64, stack.instruction_ptrs()[j + 1].value)
        &&& read_gives(read_word, (fps[j] + 2 * WORD_SIZE) as u64, stack.stack_ptrs()[j + 1].value)
    }
    &&& forall|j: int| 0 <= j < fps.len() - 1 ==> {
        &&& read_gives(read_word, #[trigger] fps[j], fps[j + 1])
        &&& next_frame_is_sane(fps[j], fps[j + 1])
    }
    &&& forall|i: int| stack.count() <= i < MAX_NATIVE_FRAMES ==> {
        &&& (#[trigger] stack.instruction_ptrs()[i]).value == 0
        &&& stack.stack_ptrs()[i].value == 0
    }
}

/// The walk along `fps` stopped for a reason: the frame pointer in the
/// registers could not be followed; or the stack was full; or the word read at
/// the last frame pointer was not a sane caller's frame pointer inside the stack.
pub open spec fn walk_stopped<F: Fn(u64) -> u64>(
    registers: Registers,
    bounds: StackBounds,
    read_word: F,
    fps: Seq<u64>,
) -> bool {
    &&& fps.len() == 0 ==> !frame_in_stack(registers.frame_ptr, bounds)
    &&& fps.len() > 0 ==> {
        ||| fps.len() + 1 == MAX_NATIVE_FRAMES
        ||| exists|next: u64| #[trigger] read_gives(read_word, fps.last(), next)
            && !(next_frame_is_sane(fps.last(), next) && frame_in_stack(next, bounds))
    }
}

/// The walk follows every caller's frame pointer that can be followed, and
/// only those: each frame pointer after the first lies higher than the one
/// before and at a multiple of four; and when the walk stops with room left
/// in the stack, the word read at its last frame pointer, if reading it gives
/// just one value, is not a higher, four-byte aligned, non-null address
/// inside the stack. Before any frame, the walk stops only on a frame pointer
/// that is null or outside the stack.
pub proof fn law_walk_follows_every_sane_caller<F: Fn(u64) -> u64>(
    stack: NativeStack,
    registers: Registers,
    bounds: StackBounds,
    read_word: F,
    fps: Seq<u64>,
    last_word: u64,
)
    requires
        walk_recorded(stack, registers, bounds, read_word, fps),
        walk_stopped(registers, bounds, read_word, fps),
    ensures
        forall|j: int| 0 <= j < fps.len() - 1 ==> #[trigger] fps[j + 1] > fps[j] && fps[j + 1] % 4 == 0,
        forall|j: int| 0 <= j < fps.len() ==> #[trigger] fps[j] != 0 && bounds.min <= fps[j] < bounds.max,
        fps.len() == 0 ==> registers.frame_ptr == 0 || registers.frame_ptr < bounds.min
            || registers.frame_ptr >= bounds.max,
        fps.len() > 0 && fps.len() + 1 < MAX_NATIVE_FRAMES
            && read_gives(read_word, fps.last(), last_word)
            && (forall|v: u64| #[trigger] read_gives(read_word, fps.last(), v) ==> v == last_word)
            ==> !(last_word > fps.last() && last_word % 4 == 0 && last_word != 0
                && bounds.min <= last_word < bounds.max),
{
    assert forall|j: int| 0 <= j < fps.len() - 1 implies #[trigger] fps[j + 1] > fps[j] && fps[j + 1] % 4 == 0 by {
        assert(next_frame_is_sane(fps[j], fps[j + 1]));
    }
    assert forall|j: int| 0 <= j < fps.len() implies #[trigger] fps[j] != 0 && bounds.min <= fps[j] < bounds.max by {
        assert(frame_in_stack(fps[j], bounds));
    }
    if fps.len() > 0 && fps.len() + 1 < MAX_NATIVE_FRAMES
        && read_gives(read_word, fps.last(), last_word)
        && (forall|v: u64| #[trigger] read_gives(read_word, fps.last(), v) ==> v == last_word) {
        let next = choose|next: u64| #[trigger] read_gives(read_word, fps.last(), next)
            && !(next_frame_is_sane(fps.last(), next) && frame_in_stack(next, bounds));
        assert(next == last_word);
    }
}

/// Recording one more frame, at the frame pointer `current`, extends a walk.
proof fn lemma_walk_step<F: Fn(u64) -> u64>(
    before: NativeStack,
    after: NativeStack,
    registers: Registers,
    bounds: StackBounds,
    read_word: F,
    fps: Seq<u64>,
    current: u64,
)
    requires
        walk_recorded(before, registers, bounds, read_word, fps),
        before.count() < MAX_NATIVE_FRAMES,
        after.well_formed(),
        after.count() == before.count() + 1,
        after.instruction_ptrs() == before.instruction_ptrs().update(
            before.count() as int,
            after.instruction_ptrs()[before.count() as int],
        ),
        after.stack_ptrs() == before.stack_ptrs().update(
            before.count() as int,
            after.stack_ptrs()[before.count() as int],
        ),
        frame_in_stack(current, bounds),
        read_gives(read_word, (current + WORD_SIZE) as u64, after.instruction_ptrs()[before.count() as int].value),
        read_gives(read_word, (current + 2 * WORD_SIZE) as u64, after.stack_ptrs()[before.count() as int].value),
        fps.len() == 0 ==> current == registers.frame_ptr,
        fps.len() > 0 ==> read_gives(read_word, fps.last(), current) && next_frame_is_sane(fps.last(), current),
    ensures
        walk_recorded(after, registers, bounds, read_word, fps.push(current)),
{
    reveal(walk_recorded);
    before.lemma_well_formed_shape();
    after.lemma_well_formed_shape();
    let recorded = fps.push(current);
    assert forall|j: int| 0 <= j < recorded.len() - 1 implies {
        &&& read_gives(read_word, #[trigger] recorded[j], recorded[j + 1])
        &&& next_frame_is_sane(recorded[j], recorded[j + 1])
    } by {
        if j == recorded.len() - 2 {
            assert(recorded[j] == fps.last());
        } else {
            assert(recorded[j] == fps[j] && recorded[j + 1] == fps[j + 1]);
        }
    }
    assert forall|j: int| 0 <= j < recorded.len() implies {
        &&& frame_in_stack(#[trigger] recorded[j], bounds)
        &&& read_gives(read_word, (recorded[j] + WORD_SIZE) as u64, after.instruction_ptrs()[j + 1].value)
        &&& read_gives(read_word, (recorded[j] + 2 * WORD_SIZE) as u64, after.stack_ptrs()[j + 1].value)
    } by {
        if j < fps.len() {
            assert(recorded[j] == fps[j]);
        }
    }
    assert forall|i: int| after.count() <= i < MAX_NATIVE_FRAMES implies {
        &&& (#[trigger] after.instruction_ptrs()[i]).value == 0
        &&& after.stack_ptrs()[i].value == 0
    } by {
        assert(after.instruction_ptrs()[i] == before.instruction_ptrs()[i]);
    }
    assert(after.count() == recorded.len() + 1);
    assert(walk_recorded(after, registers, bounds, read_word, recorded));
}

/// Walks the stack from `registers` along the frame pointers, reading the
/// stack's memory with `read_word`, and records the frames.
///
/// This runs while the thread is suspended: it must not allocate beyond the
/// stack it returns, nor take a lock.
pub fn walk_frame_pointers<F: Fn(u64) -> u64>(registers: Registers, bounds: StackBounds, read_word: F) -> (stack: NativeStack)
    requires
        bounds.max <= u64::MAX - 2 * WORD_SIZE,
        forall|addr: u64| read_word.requires((addr,)),
    ensures
        exists|fps: Seq<u64>| {
            &&& walk_recorded(stack, registers, bounds, read_word, fps)
            &&& walk_stopped(registers, bounds, read_word, fps)
        },
{
    let mut stack = NativeStack::new();
    let _ = stack.add_register_to_stack(registers.instruction_ptr, registers.stack_ptr);
    let ghost mut fps: Seq<u64> = Seq::empty();
    assert(walk_recorded(stack, registers, bounds, read_word, fps)) by {
        reveal(walk_recorded);
        stack.lemma_well_formed_shape();
    }
    let mut current = registers.frame_ptr;
    loop
        invariant_except_break
            fps.len() == 0 ==> current == registers.frame_ptr,
            fps.len() > 0 ==> read_gives(read_word, fps.last(), current)
                && next_frame_is_sane(fps.last(), current),
        invariant
            bounds.max <= u64::MAX - 2 * WORD_SIZE,
            forall|addr: u64| read_word.requires((addr,)),
            walk_recorded(stack, registers, bounds, read_word, fps),
        ensures
            walk_recorded(stack, registers, bounds, read_word, fps),
            walk_stopped(registers, bounds, read_word, fps),
        decreases u64::MAX - current,
    {
        if current == 0 || current < bounds.min || current >= bounds.max {
            // The frame pointer leaves the stack: the walk is over.
            proof {
                if fps.len() > 0 {
                    assert(read_gives(read_word, fps.last(), current));
                }
            }
            break;
        }
        let next = read_word(current);
        let instruction_ptr = read_word(current + WORD_SIZE);
        let stack_ptr = read_word(current + 2 * WORD_SIZE);
        let ghost before = stack;
        proof {
            reveal(walk_recorded);
            before.lemma_well_formed_shape();
        }
        match stack.add_register_to_stack(instruction_ptr, stack_ptr) {
            Ok(()) => {},
            Err(()) => {
                // The stack is full.
                break;
            },
        }
        proof {
            lemma_walk_step(before, stack, registers, bounds, read_word, fps, current);
            fps = fps.push(current);
        }
        if next <= current || next % 4 != 0 {
            // The caller's frame pointer is not sane: stop here.
            assert(read_gives(read_word, fps.last(), next));
            break;
        }
        current = next;
    }
    stack
}

} // verus!
