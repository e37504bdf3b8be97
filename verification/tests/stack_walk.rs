use profiler::sampler::{Registers, MAX_NATIVE_FRAMES};
use profiler::stack_walk::{walk_frame_pointers, StackBounds};
use std::collections::HashMap;

fn reader(memory: &HashMap<u64, u64>) -> impl Fn(u64) -> u64 + '_ {
    move |addr| *memory.get(&addr).unwrap_or(&0)
}

#[test]
fn the_walk_follows_the_frame_pointers_up_the_stack() {
    // Frames at 0x1000 and 0x1040; the one at 0x1080 points below itself.
    let mut memory = HashMap::new();
    memory.insert(0x1000, 0x1040);
    memory.insert(0x1008, 0xaaa1);
    memory.insert(0x1010, 0xbbb1);
    memory.insert(0x1040, 0x1080);
    memory.insert(0x1048, 0xaaa2);
    memory.insert(0x1050, 0xbbb2);
    memory.insert(0x1080, 0x0ff0);
    memory.insert(0x1088, 0xaaa3);
    memory.insert(0x1090, 0xbbb3);
    let registers = Registers { instruction_ptr: 0x5000, stack_ptr: 0x0f00, frame_ptr: 0x1000 };
    let bounds = StackBounds::from_start_and_size(0x0f00, 0x40);
    assert_eq!(bounds, StackBounds { min: 0x0f00, max: 0x1100 });
    let stack = walk_frame_pointers(registers, bounds, reader(&memory));
    assert_eq!(stack.first_instruction_ptr().value, 0x5000);
    let sample = profiler::sampler::Sample { native_stack: stack, thread_id: 1 };
    let mut buffer = profiler::time_expiring_buffer::TimeExpiringBuffer::new(profiler::time::Duration::new(60, 0));
    buffer.push_back_at(sample, profiler::time::Instant { nanos: 0 });
    let start = profiler::time::Instant { nanos: 0 };
    let serializer = profiler::sampler::SamplesSerializer::new(&start, &buffer);
    let addresses: Vec<u64> = serializer.stack_table.iter().map(|s| s.instruction_ptr.value).collect();
    // The registers, then the frames at 0x1000, 0x1040 and 0x1080; the walk
    // stops there as the next frame pointer goes down.
    assert_eq!(addresses, vec![0x5000, 0xaaa1, 0xaaa2, 0xaaa3]);
}

#[test]
fn a_frame_pointer_outside_the_stack_records_only_the_registers() {
    let memory = HashMap::new();
    let registers = Registers { instruction_ptr: 0x5000, stack_ptr: 0x0f00, frame_ptr: 0x2000 };
    let bounds = StackBounds { min: 0x0f00, max: 0x1100 };
    let stack = walk_frame_pointers(registers, bounds, reader(&memory));
    let sample = profiler::sampler::Sample { native_stack: stack, thread_id: 1 };
    let mut buffer = profiler::time_expiring_buffer::TimeExpiringBuffer::new(profiler::time::Duration::new(60, 0));
    buffer.push_back_at(sample, profiler::time::Instant { nanos: 0 });
    let start = profiler::time::Instant { nanos: 0 };
    let serializer = profiler::sampler::SamplesSerializer::new(&start, &buffer);
    assert_eq!(serializer.stack_table.len(), 1);
}

#[test]
fn a_misaligned_caller_frame_pointer_stops_the_walk() {
    let mut memory = HashMap::new();
    memory.insert(0x1000, 0x1042);
    memory.insert(0x1008, 0xaaa1);
    memory.insert(0x1048, 0xaaa2);
    let registers = Registers { instruction_ptr: 0x5000, stack_ptr: 0x0f00, frame_ptr: 0x1000 };
    let bounds = StackBounds { min: 0x0f00, max: 0x1100 };
    let stack = walk_frame_pointers(registers, bounds, reader(&memory));
    let sample = profiler::sampler::Sample { native_stack: stack, thread_id: 1 };
    let mut buffer = profiler::time_expiring_buffer::TimeExpiringBuffer::new(profiler::time::Duration::new(60, 0));
    buffer.push_back_at(sample, profiler::time::Instant { nanos: 0 });
    let start = profiler::time::Instant { nanos: 0 };
    let serializer = profiler::sampler::SamplesSerializer::new(&start, &buffer);
    let addresses: Vec<u64> = serializer.stack_table.iter().map(|s| s.instruction_ptr.value).collect();
    assert_eq!(addresses, vec![0x5000, 0xaaa1]);
}

#[test]
fn a_long_chain_fills_the_stack_and_stops() {
    // Every frame points to the next one up, far beyond the capacity.
    let base = 0x10_0000u64;
    let frames_in_memory = MAX_NATIVE_FRAMES as u64 + 10;
    let read = move |addr: u64| {
        let offset = addr - base;
        match offset % 0x20 {
            0 => addr + 0x20,
            8 => 0x7000 + offset / 0x20,
            _ => 0,
        }
    };
    let registers = Registers { instruction_ptr: 0x5000, stack_ptr: 0, frame_ptr: base };
    let bounds = StackBounds { min: base, max: base + 0x20 * (frames_in_memory + 5) };
    let stack = walk_frame_pointers(registers, bounds, read);
    let mut probe = stack;
    assert_eq!(probe.add_register_to_stack(1, 1), Err(()));
}
