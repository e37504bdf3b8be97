use profiler::buffer_thread::{
    registered_thread_infos, ThreadInfo, BufferThreadMessage, BufferThreadState, CoreInfoForSerialization, Profile, SerializationMessage,
};
use profiler::markers::{MarkerSchema, MarkerTuple, StaticStringMarker, ThreadMarker};
use profiler::sampler::{NativeStack, Sample};
use profiler::time::{Clock, Duration, Instant};

fn sample(frames: &[u64]) -> Sample {
    let mut native_stack = NativeStack::new();
    for frame in frames {
        native_stack.add_register_to_stack(*frame, 0).unwrap();
    }
    Sample { native_stack, thread_id: 3 }
}

fn count(state: &mut BufferThreadState) -> usize {
    match state.handle_message(BufferThreadMessage::GetSampleCount) {
        Some(SerializationMessage::SampleCount(n)) => n,
        _ => panic!("Expected a sample count."),
    }
}

#[test]
fn the_buffer_thread_counts_samples() {
    let mut state = BufferThreadState::new(Duration::new(60, 0), Clock::start());
    assert_eq!(count(&mut state), 0);
    assert!(state.handle_message(BufferThreadMessage::AddSample(sample(&[0x10]))).is_none());
    assert!(state.handle_message(BufferThreadMessage::AddSample(sample(&[0x10, 0x11]))).is_none());
    assert_eq!(count(&mut state), 2);
}

#[test]
fn waiting_for_one_sample_is_answered_by_the_next_sample_only() {
    let mut state = BufferThreadState::new(Duration::new(60, 0), Clock::start());
    assert!(state.handle_message(BufferThreadMessage::WaitingForOneSample).is_none());
    assert!(state.handle_message(BufferThreadMessage::AddMarker(3, Box::new(StaticStringMarker::new("m")))).is_none());
    assert!(matches!(
        state.handle_message(BufferThreadMessage::AddSample(sample(&[0x10]))),
        Some(SerializationMessage::OneSampleReceived)
    ));
    assert!(state.handle_message(BufferThreadMessage::AddSample(sample(&[0x10]))).is_none());
}

#[test]
fn clearing_expired_markers_keeps_live_ones() {
    let mut state = BufferThreadState::new(Duration::new(60, 0), Clock::start());
    state.handle_message(BufferThreadMessage::AddMarker(3, Box::new(StaticStringMarker::new("m"))));
    assert!(state.handle_message(BufferThreadMessage::ClearExpiredMarkers).is_none());
    assert_eq!(state.markers.len(), 1);
}

fn marker(thread_id: u32, name: &'static str) -> ThreadMarker {
    ThreadMarker { thread_id, marker: Box::new(StaticStringMarker::new(name)) }
}

fn thread_info(id: u32, name: &str) -> ThreadInfo {
    ThreadInfo { id, name: name.to_string() }
}

fn serialize(state: &mut BufferThreadState, thread_infos: Vec<ThreadInfo>) -> Profile {
    let core_info = CoreInfoForSerialization { start_time: Instant { nanos: 0 }, sampling_interval: 10, thread_infos };
    assert!(state.can_serialize(&core_info));
    match state.handle_message(BufferThreadMessage::SerializeBuffer(core_info)) {
        Some(SerializationMessage::Serialize(profile)) => profile,
        _ => panic!("Expected a profile."),
    }
}

#[test]
fn the_profile_holds_the_markers_and_samples() {
    let mut state = BufferThreadState::new(Duration::new(60, 0), Clock::start());
    state.markers.push_back_at(marker(3, "Thread 1, Marker 1"), Instant { nanos: 2_000_000 });
    state.markers.push_back_at(marker(3, "Thread 1, Marker 2"), Instant { nanos: 3_000_000 });
    state.samples.push_back_at(sample(&[0x10, 0x11]), Instant { nanos: 1_000_000 });
    state.samples.push_back_at(sample(&[0x10, 0x11]), Instant { nanos: 4_000_000 });
    let profile = serialize(&mut state, vec![thread_info(3, "Example thread 1")]);
    assert_eq!(profile.interval, 10);
    assert_eq!(profile.version, 19);
    assert_eq!(profile.product, "Rust Profiler");
    let categories: Vec<(&str, &str)> = profile.categories.iter().map(|c| (c.name, c.color)).collect();
    assert_eq!(
        categories,
        vec![
            ("Other", "grey"),
            ("Idle", "transparent"),
            ("Layout", "purple"),
            ("JavaScript", "yellow"),
            ("GC / CC", "orange"),
            ("Network", "lightblue"),
            ("Graphics", "green"),
            ("DOM", "blue"),
        ]
    );
    assert_eq!(profile.threads.len(), 1);
    let thread = &profile.threads[0];
    assert_eq!(thread.name, "Example thread 1");
    assert_eq!(thread.tid, 3);
    assert_eq!(thread.markers.schema, MarkerSchema { name: 0, time: 1, category: 2, data: 3 });
    assert_eq!(
        thread.markers.data,
        vec![
            MarkerTuple { name: 0, time: 2, category: 0 },
            MarkerTuple { name: 1, time: 3, category: 0 },
        ]
    );
    assert_eq!(
        thread.string_table,
        vec!["Thread 1, Marker 1".to_string(), "Thread 1, Marker 2".to_string()]
    );
    assert_eq!(thread.samples.stack, vec![1, 1]);
    assert_eq!(thread.samples.time, vec![1, 4]);
    assert_eq!(thread.stack_table.prefix, vec![-1, 0]);
    assert_eq!(thread.frame_table.length, 2);
}

#[test]
fn markers_are_kept_per_thread() {
    let mut state = BufferThreadState::new(Duration::new(60, 0), Clock::start());
    for name in ["Thread 1, Marker 1", "Thread 1, Marker 2", "Thread 1, Marker 3"] {
        assert!(state.handle_message(BufferThreadMessage::AddMarker(1, Box::new(StaticStringMarker::new(name)))).is_none());
    }
    for name in ["Thread 2, Marker 1", "Thread 2, Marker 2", "Thread 2, Marker 3"] {
        assert!(state.handle_message(BufferThreadMessage::AddMarker(2, Box::new(StaticStringMarker::new(name)))).is_none());
    }
    let profile = serialize(
        &mut state,
        vec![thread_info(1, "Example thread 1"), thread_info(2, "Example thread 2")],
    );
    assert_eq!(profile.threads.len(), 2);
    for (index, thread) in profile.threads.iter().enumerate() {
        let n = index + 1;
        assert_eq!(thread.tid, n as u32);
        assert_eq!(thread.name, format!("Example thread {}", n));
        let names: Vec<String> = thread.markers.data.iter().map(|row| thread.string_table[row.name].clone()).collect();
        assert_eq!(
            names,
            vec![
                format!("Thread {}, Marker 1", n),
                format!("Thread {}, Marker 2", n),
                format!("Thread {}, Marker 3", n),
            ]
        );
        assert_eq!(thread.string_table.len(), 3);
        assert!(thread.markers.data.iter().all(|row| row.category == 0));
    }
}

#[test]
fn samples_are_kept_per_thread() {
    let mut state = BufferThreadState::new(Duration::new(60, 0), Clock::start());
    let mut other = sample(&[0x20]);
    other.thread_id = 4;
    state.samples.push_back_at(sample(&[0x10, 0x11]), Instant { nanos: 1_000_000 });
    state.samples.push_back_at(other, Instant { nanos: 2_000_000 });
    state.samples.push_back_at(sample(&[0x10]), Instant { nanos: 3_000_000 });
    let profile = serialize(&mut state, vec![thread_info(3, "a"), thread_info(4, "b"), thread_info(5, "c")]);
    assert_eq!(profile.threads[0].samples.stack, vec![1, 0]);
    assert_eq!(profile.threads[0].samples.time, vec![1, 3]);
    assert_eq!(profile.threads[1].samples.stack, vec![0]);
    assert_eq!(profile.threads[1].samples.time, vec![2]);
    assert_eq!(profile.threads[1].frame_table.address.len(), 1);
    assert_eq!(profile.threads[2].samples.length, 0);
    assert_eq!(profile.threads[2].stack_table.length, 0);
}

#[test]
fn a_first_sample_without_frames_cannot_be_serialized() {
    let mut state = BufferThreadState::new(Duration::new(60, 0), Clock::start());
    let core_info = CoreInfoForSerialization { start_time: Instant { nanos: 0 }, sampling_interval: 10, thread_infos: vec![thread_info(3, "a")] };
    assert!(state.can_serialize(&core_info));
    state.handle_message(BufferThreadMessage::AddSample(sample(&[])));
    assert!(!state.can_serialize(&core_info));
    let other_thread = CoreInfoForSerialization { start_time: Instant { nanos: 0 }, sampling_interval: 10, thread_infos: vec![thread_info(4, "b")] };
    assert!(state.can_serialize(&other_thread));
}

#[test]
fn only_registered_threads_are_collected() {
    let infos = registered_thread_infos(vec![
        Some(ThreadInfo { id: 1, name: "Example thread 1".into() }),
        None,
        Some(ThreadInfo { id: 2, name: "Example thread 2".into() }),
    ]);
    assert_eq!(
        infos,
        vec![
            ThreadInfo { id: 1, name: "Example thread 1".into() },
            ThreadInfo { id: 2, name: "Example thread 2".into() },
        ]
    );
    assert_eq!(registered_thread_infos(vec![None, None]), vec![]);
}

#[test]
fn a_run_of_messages_gets_one_reply_per_request_and_keeps_every_sample() {
    let mut state = BufferThreadState::new(Duration::new(60, 0), Clock::start());
    let mut replies: Vec<&str> = Vec::new();
    let messages = vec![
        BufferThreadMessage::AddSample(sample(&[0x1])),
        BufferThreadMessage::WaitingForOneSample,
        BufferThreadMessage::AddMarker(3, Box::new(StaticStringMarker::new("m"))),
        BufferThreadMessage::ClearExpiredMarkers,
        BufferThreadMessage::GetSampleCount,
        BufferThreadMessage::AddSample(sample(&[0x2])),
        BufferThreadMessage::AddSample(sample(&[0x3])),
        BufferThreadMessage::WaitingForOneSample,
        BufferThreadMessage::WaitingForOneSample,
        BufferThreadMessage::AddSample(sample(&[0x4])),
        BufferThreadMessage::GetSampleCount,
    ];
    let mut counts: Vec<usize> = Vec::new();
    for message in messages {
        match state.handle_message(message) {
            None => replies.push("none"),
            Some(SerializationMessage::OneSampleReceived) => replies.push("one sample"),
            Some(SerializationMessage::SampleCount(n)) => {
                counts.push(n);
                replies.push("count")
            }
            Some(SerializationMessage::Serialize(_)) => replies.push("profile"),
        }
    }
    assert_eq!(
        replies,
        vec![
            "none", "none", "none", "none", "count", "one sample", "none", "none", "none", "one sample",
            "count"
        ]
    );
    assert_eq!(counts, vec![1, 4]);
    let frames: Vec<u64> = state
        .samples
        .iter()
        .map(|entry| entry.value.native_stack.first_instruction_ptr().value)
        .collect();
    assert_eq!(frames, vec![0x1, 0x2, 0x3, 0x4]);
}
