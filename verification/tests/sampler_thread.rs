use profiler::sampler::{NativeStack, Sampler, SuspendAndSampleError};
use profiler::sampler_thread::{
    ReceiveMode, Received, SamplerThreadAction, SamplerThreadMessage, SamplerThreadState,
};

struct FakeSampler {
    thread_id: u32,
    works: bool,
}

impl Sampler for FakeSampler {
    fn suspend_and_sample_thread(&self) -> Result<NativeStack, SuspendAndSampleError> {
        if self.works {
            let mut native_stack = NativeStack::new();
            native_stack.add_register_to_stack(0x40 + self.thread_id as u64, 0).unwrap();
            Ok(native_stack)
        } else {
            Err(SuspendAndSampleError::CouldNotSuspendThread)
        }
    }

    fn thread_id(&self) -> u32 {
        self.thread_id
    }
}

fn boxed(thread_id: u32, works: bool) -> Box<dyn Sampler> {
    Box::new(FakeSampler { thread_id, works })
}

fn message(m: SamplerThreadMessage<Box<dyn Sampler>>) -> Received<Box<dyn Sampler>> {
    Received::Message(m)
}

#[test]
fn the_sampler_thread_starts_out_paused_and_waits_for_messages() {
    let state: SamplerThreadState<Box<dyn Sampler>> = SamplerThreadState::new();
    assert!(state.is_paused);
    assert_eq!(state.receive_mode(), ReceiveMode::Blocking);
}

#[test]
fn messages_are_handled_before_sampling() {
    let mut state: SamplerThreadState<Box<dyn Sampler>> = SamplerThreadState::new();
    assert_eq!(state.handle(message(SamplerThreadMessage::RegisterSampler(boxed(1, true)))), SamplerThreadAction::Receive);
    assert_eq!(state.handle(message(SamplerThreadMessage::StartSampling)), SamplerThreadAction::Receive);
    assert_eq!(state.receive_mode(), ReceiveMode::NonBlocking);
    assert_eq!(state.handle(message(SamplerThreadMessage::WaitingForOneSample)), SamplerThreadAction::Receive);
    assert_eq!(
        state.handle(Received::Empty),
        SamplerThreadAction::SampleThreads { notify_one_sample: true }
    );
    assert_eq!(
        state.handle(Received::Empty),
        SamplerThreadAction::SampleThreads { notify_one_sample: false }
    );
    assert_eq!(state.handle(message(SamplerThreadMessage::PauseSampling)), SamplerThreadAction::Receive);
    assert_eq!(state.receive_mode(), ReceiveMode::Blocking);
}

#[test]
fn stopping_or_a_closed_channel_ends_the_thread() {
    let mut state: SamplerThreadState<Box<dyn Sampler>> = SamplerThreadState::new();
    assert_eq!(state.handle(message(SamplerThreadMessage::StopSampling)), SamplerThreadAction::Exit);
    assert_eq!(state.handle(Received::Disconnected), SamplerThreadAction::Exit);
}

#[test]
fn unregistering_removes_every_sampler_of_the_thread() {
    let mut state: SamplerThreadState<Box<dyn Sampler>> = SamplerThreadState::new();
    state.handle(message(SamplerThreadMessage::RegisterSampler(boxed(1, true))));
    state.handle(message(SamplerThreadMessage::RegisterSampler(boxed(2, true))));
    state.handle(message(SamplerThreadMessage::RegisterSampler(boxed(1, true))));
    state.handle(message(SamplerThreadMessage::RegisterSampler(boxed(3, true))));
    state.handle(message(SamplerThreadMessage::UnregisterSampler(1)));
    let ids: Vec<u32> = state.samplers.iter().map(|s| s.thread_id()).collect();
    assert_eq!(ids, vec![2, 3]);
    state.handle(message(SamplerThreadMessage::UnregisterSampler(7)));
    assert_eq!(state.samplers.len(), 2);
}

#[test]
fn only_the_samplers_that_succeed_give_samples() {
    let mut state: SamplerThreadState<Box<dyn Sampler>> = SamplerThreadState::new();
    state.handle(message(SamplerThreadMessage::RegisterSampler(boxed(1, true))));
    state.handle(message(SamplerThreadMessage::RegisterSampler(boxed(2, false))));
    state.handle(message(SamplerThreadMessage::RegisterSampler(boxed(3, true))));
    let samples = state.take_samples();
    let ids: Vec<u32> = samples.iter().map(|s| s.thread_id).collect();
    assert_eq!(ids, vec![1, 3]);
    assert_eq!(samples[1].native_stack.first_instruction_ptr().value, 0x43);
}

#[test]
fn no_round_is_taken_while_paused() {
    let mut state: SamplerThreadState<Box<dyn Sampler>> = SamplerThreadState::new();
    state.handle(message(SamplerThreadMessage::RegisterSampler(boxed(1, true))));
    assert_eq!(state.handle(Received::Empty), SamplerThreadAction::Receive);
    state.handle(message(SamplerThreadMessage::StartSampling));
    assert_eq!(
        state.handle(Received::Empty),
        SamplerThreadAction::SampleThreads { notify_one_sample: false }
    );
    state.handle(message(SamplerThreadMessage::PauseSampling));
    assert_eq!(state.handle(Received::Empty), SamplerThreadAction::Receive);
}
