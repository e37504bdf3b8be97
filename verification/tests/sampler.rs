use profiler::sampler::{
    NativeStack, ProcessMemoryAddress, Sample, SamplesSerializer, MAX_NATIVE_FRAMES,
};
use profiler::time::{Clock, Duration, Instant};
use profiler::time_expiring_buffer::TimeExpiringBuffer;

fn add_stack_sample(stacks: &Vec<u8>) -> Sample {
    let mut native_stack = NativeStack::new();
    for stack in stacks.iter() {
        native_stack
            .add_register_to_stack(*stack as u64, 0)
            .expect("the stack has room");
    }
    Sample {
        native_stack: native_stack,
        thread_id: 0,
    }
}

fn create_buffer_for_tests(
    profiler_start: &Instant,
    test_data: Vec<Vec<u8>>,
) -> TimeExpiringBuffer<Sample> {
    let mut buffer = TimeExpiringBuffer::new(Duration::new(60, 0));
    for (index, stacks) in test_data.iter().enumerate() {
        buffer.push_back_at(
            add_stack_sample(&stacks),
            profiler_start.add_duration(Duration::from_millis(index as u64)),
        );
    }
    buffer
}

fn test_data() -> Vec<Vec<u8>> {
    vec![
        vec![0x10, 0x11, 0x12],
        vec![0x10, 0x11, 0x12, 0x13],
        vec![0x10, 0x11, 0x12, 0x13, 0x14],
        vec![0x10, 0x15, 0x16],
        vec![0x10, 0x15, 0x16, 0x17],
        vec![0x10, 0x11, 0x12],
    ]
}

fn from_u8(value: u8) -> ProcessMemoryAddress {
    ProcessMemoryAddress::new(value as u64)
}

#[test]
fn can_create_a_stack_table() {
    let profiler_start = Clock::start().now();
    let buffer = create_buffer_for_tests(&profiler_start, test_data());
    let serializer = SamplesSerializer::new(&profiler_start, &buffer);
    // Convert the stack table into an easy to assert tuple of form (instruction_ptr, prefix).
    let stack_table: Vec<(ProcessMemoryAddress, Option<usize>)> = serializer
        .stack_table
        .iter()
        .map(|stack_for_serialization| {
            (
                stack_for_serialization.instruction_ptr,
                stack_for_serialization.prefix,
            )
        })
        .collect();

    assert_eq!(
        stack_table,
        [
            // (instruction_ptr, prefix)
            (from_u8(0x10), None),
            (from_u8(0x11), Some(0)),
            (from_u8(0x12), Some(1)),
            (from_u8(0x13), Some(2)),
            (from_u8(0x14), Some(3)),
            (from_u8(0x15), Some(0)),
            (from_u8(0x16), Some(5)),
            (from_u8(0x17), Some(6)),
        ],
    );

    // Each stack should point to its unique entry. Of special note: the first and last entry
    // should point to the same stack.
    assert_eq!(
        serializer.buffer_entry_to_stack_table,
        vec![2, 3, 4, 6, 7, 2]
    );
}

#[test]
fn can_serialize_a_stack_table() {
    let profiler_start = Clock::start().now();
    let buffer = create_buffer_for_tests(&profiler_start, test_data());
    let serializer = SamplesSerializer::new(&profiler_start, &buffer);

    let stack_table = serializer.serialize_stack_table();
    assert_eq!(stack_table.frame, vec![0, 1, 2, 3, 4, 5, 6, 7]);
    assert_eq!(stack_table.prefix, vec![-1, 0, 1, 2, 3, 0, 5, 6]);
    assert_eq!(stack_table.category, vec![0, 0, 0, 0, 0, 0, 0, 0]);
    assert_eq!(stack_table.subcategory, vec![0, 0, 0, 0, 0, 0, 0, 0]);
    assert_eq!(stack_table.length, 8);

    let frame_table = serializer.serialize_frame_table();
    assert_eq!(
        frame_table.address,
        vec![0x10u8, 0x11, 0x12, 0x13, 0x14, 0x15, 0x16, 0x17]
            .into_iter()
            .map(from_u8)
            .collect::<Vec<_>>()
    );
    assert_eq!(frame_table.category, vec![0, 0, 0, 0, 0, 0, 0, 0]);
    assert_eq!(frame_table.subcategory, vec![0, 0, 0, 0, 0, 0, 0, 0]);
    assert_eq!(frame_table.func, vec![0, 0, 0, 0, 0, 0, 0, 0]);
    assert_eq!(frame_table.inner_window_id, vec![None; 8]);
    assert_eq!(frame_table.implementation, vec![None; 8]);
    assert_eq!(frame_table.line, vec![None; 8]);
    assert_eq!(frame_table.column, vec![None; 8]);
    assert_eq!(frame_table.optimizations, vec![None; 8]);
    assert_eq!(frame_table.length, 8);

    let samples = serializer.serialize_samples();
    assert_eq!(samples.stack, vec![2, 3, 4, 6, 7, 2]);
    assert_eq!(samples.time, vec![0, 1, 2, 3, 4, 5]);
    assert_eq!(samples.length, 6);
}

fn stack_table_pairs(serializer: &SamplesSerializer) -> Vec<(u64, Option<usize>)> {
    serializer
        .stack_table
        .iter()
        .map(|s| (s.instruction_ptr.value, s.prefix))
        .collect()
}

#[test]
fn a_frame_under_another_caller_gets_its_own_entry() {
    let profiler_start = Instant { nanos: 0 };
    let buffer = create_buffer_for_tests(
        &profiler_start,
        vec![vec![0x10, 0x11], vec![0x12, 0x11], vec![0x11]],
    );
    let serializer = SamplesSerializer::new(&profiler_start, &buffer);
    assert_eq!(
        stack_table_pairs(&serializer),
        vec![
            (0x10, None),
            (0x11, Some(0)),
            (0x12, None),
            (0x11, Some(2)),
            (0x11, None)
        ]
    );
    assert_eq!(serializer.buffer_entry_to_stack_table, vec![1, 3, 4]);
}

#[test]
fn a_root_frame_seen_before_as_a_callee_gets_a_root_entry() {
    let profiler_start = Instant { nanos: 0 };
    let buffer = create_buffer_for_tests(&profiler_start, vec![vec![0x1, 0x2], vec![0x2]]);
    let serializer = SamplesSerializer::new(&profiler_start, &buffer);
    assert_eq!(
        stack_table_pairs(&serializer),
        vec![(0x1, None), (0x2, Some(0)), (0x2, None)]
    );
    assert_eq!(serializer.buffer_entry_to_stack_table, vec![1, 2]);
}

#[test]
fn there_is_one_entry_per_distinct_root_path() {
    let profiler_start = Instant { nanos: 0 };
    let buffer = create_buffer_for_tests(&profiler_start, vec![vec![0x1, 0x2], vec![0x2, 0x3]]);
    let serializer = SamplesSerializer::new(&profiler_start, &buffer);
    assert_eq!(
        stack_table_pairs(&serializer),
        vec![(0x1, None), (0x2, Some(0)), (0x2, None), (0x3, Some(2))]
    );
    assert_eq!(serializer.buffer_entry_to_stack_table, vec![1, 3]);
}

#[test]
fn a_sample_without_frames_after_the_first_points_to_the_first_entry() {
    let profiler_start = Instant { nanos: 0 };
    let buffer = create_buffer_for_tests(&profiler_start, vec![vec![0x20, 0x21], vec![]]);
    let serializer = SamplesSerializer::new(&profiler_start, &buffer);
    assert_eq!(serializer.stack_table.len(), 2);
    assert_eq!(serializer.buffer_entry_to_stack_table, vec![1, 0]);
}

#[test]
fn an_empty_buffer_gives_empty_tables() {
    let profiler_start = Instant { nanos: 0 };
    let buffer: TimeExpiringBuffer<Sample> = TimeExpiringBuffer::new(Duration::new(60, 0));
    let serializer = SamplesSerializer::new(&profiler_start, &buffer);
    assert_eq!(serializer.stack_table.len(), 0);
    assert_eq!(serializer.buffer_entry_to_stack_table.len(), 0);
    assert_eq!(serializer.serialize_stack_table().length, 0);
    assert_eq!(serializer.serialize_samples().length, 0);
    assert_eq!(serializer.serialize_frame_table().length, 0);
}

#[test]
fn sample_times_before_the_start_are_zero_and_round_down() {
    let profiler_start = Instant { nanos: 5_000_000 };
    let mut buffer = TimeExpiringBuffer::new(Duration::new(60, 0));
    buffer.push_back_at(add_stack_sample(&vec![0x10]), Instant { nanos: 1_000_000 });
    buffer.push_back_at(add_stack_sample(&vec![0x10]), Instant { nanos: 7_999_999 });
    let serializer = SamplesSerializer::new(&profiler_start, &buffer);
    assert_eq!(serializer.serialize_samples().time, vec![0, 2]);
}

#[test]
fn a_native_stack_holds_at_most_its_capacity_of_frames() {
    let mut native_stack = NativeStack::new();
    for index in 0..MAX_NATIVE_FRAMES {
        assert_eq!(
            native_stack.add_register_to_stack(index as u64 + 1, 0),
            Ok(())
        );
    }
    assert_eq!(native_stack.add_register_to_stack(0x99, 0x98), Err(()));
    assert_eq!(native_stack.first_instruction_ptr(), from_u8(1));
}

#[test]
fn process_memory_addresses_know_null() {
    assert!(ProcessMemoryAddress::null().is_null());
    assert!(!ProcessMemoryAddress::new(0x10).is_null());
    assert_eq!(ProcessMemoryAddress::new(0x10).value, 0x10);
    assert_eq!(NativeStack::new().first_instruction_ptr(), ProcessMemoryAddress::null());
}

#[test]
fn every_prefix_names_an_earlier_entry() {
    let profiler_start = Instant { nanos: 0 };
    let buffer = create_buffer_for_tests(
        &profiler_start,
        vec![vec![0x30, 0x31, 0x32], vec![0x33, 0x31], vec![0x30, 0x34], vec![0x33, 0x31]],
    );
    let serializer = SamplesSerializer::new(&profiler_start, &buffer);
    for (index, entry) in serializer.stack_table.iter().enumerate() {
        assert!(!entry.instruction_ptr.is_null());
        if let Some(prefix) = entry.prefix {
            assert!(prefix < index);
        }
    }
    // The second and fourth samples have the same stack.
    assert_eq!(
        serializer.buffer_entry_to_stack_table[1],
        serializer.buffer_entry_to_stack_table[3]
    );
}
