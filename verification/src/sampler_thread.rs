//! The decisions of the sampler thread: which samplers are registered, whether
//! sampling is paused, and what to do after each message. Receiving messages,
//! sending samples and sleeping between rounds is left to the caller.
use vstd::prelude::*;
use crate::sampler::{NativeStack, Sample, Sampler, SuspendAndSampleError};

verus! {

/// These are all of the messages that can be sent to the sampler thread.
pub enum SamplerThreadMessage<S> {
    /// Each sampler is responsible for sampling a single thread.
    RegisterSampler(S),
    /// Unregister the samplers of the thread with this id.
    UnregisterSampler(u32),
    PauseSampling,
    StartSampling,
    StopSampling,
    /// Asks to be told once the next round of samples was taken; mainly of use
    /// in tests.
    WaitingForOneSample,
}

/// How the next message is to be received.
#[derive(Clone, Copy, Debug, PartialEq, Eq, Structural)]
pub enum ReceiveMode {
    /// While paused: wait until a message comes.
    Blocking,
    /// While sampling: take a message only if one is already there.
    NonBlocking,
}

/// What the receiving gave.
pub enum Received<S> {
    Message(SamplerThreadMessage<S>),
    /// No message was waiting.
    Empty,
    /// The channel is closed.
    Disconnected,
}

/// What the sampler thread is to do next.
#[derive(Clone, Copy, Debug, PartialEq, Eq, Structural)]
pub enum SamplerThreadAction {
    /// Stop the thread.
    Exit,
    /// Receive the next message.
    Receive,
    /// Sample every registered thread and send the samples to the buffer
    /// thread; then tell the core that a sample was taken when
    /// `notify_one_sample` holds; then sleep for the interval.
    SampleThreads { notify_one_sample: bool },
}

/// A boxed sampler samples what the sampler in the box samples.
impl<S: Sampler + ?Sized> Sampler for Box<S> {
    fn suspend_and_sample_thread(&self) -> (r: Result<NativeStack, SuspendAndSampleError>)
        ensures
            call_ensures(S::suspend_and_sample_thread, (&**self,), r),
    {
        (**self).suspend_and_sample_thread()
    }

    fn thread_id(&self) -> (id: u32)
        ensures
            call_ensures(S::thread_id, (&**self,), id),
    {
        (**self).thread_id()
    }
}

/// The samplers whose thread id, given at the same index of `ids`, is not
/// `thread_id`, in the same order.
pub open spec fn without_thread<S>(samplers: Seq<S>, ids: Seq<u32>, thread_id: u32) -> Seq<S>
    decreases samplers.len(),
{
    if samplers.len() == 0 || ids.len() == 0 {
        Seq::empty()
    } else {
        let rest = without_thread(samplers.drop_last(), ids.drop_last(), thread_id);
        if ids.last() != thread_id {
            rest.push(samplers.last())
        } else {
            rest
        }
    }
}

/// Unregistering a thread keeps exactly the samplers of other threads, in
/// order; so registering a sampler and then unregistering its thread leaves
/// what unregistering the thread alone leaves.
pub proof fn law_unregister_removes_the_thread<S>(
    samplers: Seq<S>,
    ids: Seq<u32>,
    sampler: S,
    id: u32,
    thread_id: u32,
)
    requires
        ids.len() == samplers.len(),
    ensures
        id == thread_id ==> without_thread(samplers.push(sampler), ids.push(id), thread_id)
            == without_thread(samplers, ids, thread_id),
        id != thread_id ==> without_thread(samplers.push(sampler), ids.push(id), thread_id)
            == without_thread(samplers, ids, thread_id).push(sampler),
        exists|kept: Seq<int>| {
            &&& kept.len() == without_thread(samplers, ids, thread_id).len()
            &&& forall|k: int, l: int| 0 <= k < l < kept.len() ==> kept[k] < kept[l]
            &&& forall|k: int| 0 <= k < kept.len() ==> {
                &&& 0 <= #[trigger] kept[k] < samplers.len()
                &&& ids[kept[k]] != thread_id
                &&& without_thread(samplers, ids, thread_id)[k] == samplers[kept[k]]
            }
            &&& forall|i: int| 0 <= i < samplers.len() && ids[i] != thread_id
                ==> exists|k: int| 0 <= k < kept.len() && #[trigger] kept[k] == i
        },
{
    assert(samplers.push(sampler).drop_last() =~= samplers);
    assert(ids.push(id).drop_last() =~= ids);
    lemma_without_thread_picks(samplers, ids, thread_id);
}

/// The samplers that `without_thread` keeps are those of other threads, picked
/// in order.
proof fn lemma_without_thread_picks<S>(samplers: Seq<S>, ids: Seq<u32>, thread_id: u32)
    requires
        ids.len() == samplers.len(),
    ensures
        exists|kept: Seq<int>| {
            &&& kept.len() == without_thread(samplers, ids, thread_id).len()
            &&& forall|k: int, l: int| 0 <= k < l < kept.len() ==> kept[k] < kept[l]
            &&& forall|k: int| 0 <= k < kept.len() ==> {
                &&& 0 <= #[trigger] kept[k] < samplers.len()
                &&& ids[kept[k]] != thread_id
                &&& without_thread(samplers, ids, thread_id)[k] == samplers[kept[k]]
            }
            &&& forall|i: int| 0 <= i < samplers.len() && ids[i] != thread_id
                ==> exists|k: int| 0 <= k < kept.len() && #[trigger] kept[k] == i
        },
    decreases samplers.len(),
{
    if samplers.len() == 0 {
        let kept: Seq<int> = Seq::empty();
        assert(kept.len() == without_thread(samplers, ids, thread_id).len());
    } else {
        let s = samplers.drop_last();
        let d = ids.drop_last();
        lemma_without_thread_picks(s, d, thread_id);
        let kept0: Seq<int> = choose|kept: Seq<int>| {
            &&& kept.len() == without_thread(s, d, thread_id).len()
            &&& forall|k: int, l: int| 0 <= k < l < kept.len() ==> kept[k] < kept[l]
            &&& forall|k: int| 0 <= k < kept.len() ==> {
                &&& 0 <= #[trigger] kept[k] < s.len()
                &&& d[kept[k]] != thread_id
                &&& without_thread(s, d, thread_id)[k] == s[kept[k]]
            }
            &&& forall|i: int| 0 <= i < s.len() && d[i] != thread_id
                ==> exists|k: int| 0 <= k < kept.len() && #[trigger] kept[k] == i
        };
        let last = samplers.len() - 1;
        let kept = if ids.last() != thread_id { kept0.push(last) } else { kept0 };
        assert forall|k: int| 0 <= k < kept.len() implies {
            &&& 0 <= #[trigger] kept[k] < samplers.len()
            &&& ids[kept[k]] != thread_id
            &&& without_thread(samplers, ids, thread_id)[k] == samplers[kept[k]]
        } by {
            if k < kept0.len() {
                assert(kept[k] == kept0[k]);
                assert(ids[kept0[k]] == d[kept0[k]]);
                assert(samplers[kept0[k]] == s[kept0[k]]);
            }
        }
        assert forall|i: int| 0 <= i < samplers.len() && ids[i] != thread_id
            implies exists|k: int| 0 <= k < kept.len() && #[trigger] kept[k] == i by {
            if i < last {
                assert(d[i] == ids[i]);
                let k = choose|k: int| 0 <= k < kept0.len() && #[trigger] kept0[k] == i;
                assert(kept[k] == i);
            } else {
                assert(kept[kept.len() - 1] == i);
            }
        }
        assert forall|k: int, l: int| 0 <= k < l < kept.len() implies kept[k] < kept[l] by {
            if l < kept0.len() {
                assert(kept[k] == kept0[k] && kept[l] == kept0[l]);
            } else {
                assert(kept[k] == kept0[k]);
            }
        }
    }
}

/// `ids` holds, for each sampler, a thread id it can report.
pub open spec fn reported_thread_ids<S: Sampler>(samplers: Seq<S>, ids: Seq<u32>) -> bool {
    &&& ids.len() == samplers.len()
    &&& forall|i: int| 0 <= i < samplers.len() ==> call_ensures(S::thread_id, (&#[trigger] samplers[i],), ids[i])
}

/// `samples` came from asking each of `samplers` once, in order: the sampler
/// at `taken[k]` answered with the stack of `samples[k]` and reported its thread
/// id, and every sampler not in `taken` answered with an error.
pub open spec fn samples_taken_from<S: Sampler>(samples: Seq<Sample>, samplers: Seq<S>, taken: Seq<int>) -> bool {
    &&& taken.len() == samples.len()
    &&& forall|k: int, l: int| 0 <= k < l < taken.len() ==> taken[k] < taken[l]
    &&& forall|k: int| 0 <= k < taken.len() ==> {
        &&& 0 <= #[trigger] taken[k] < samplers.len()
        &&& call_ensures(
            S::suspend_and_sample_thread,
            (&samplers[taken[k]],),
            Ok::<NativeStack, SuspendAndSampleError>(samples[k].native_stack),
        )
        &&& call_ensures(S::thread_id, (&samplers[taken[k]],), samples[k].thread_id)
    }
    &&& forall|i: int| 0 <= i < samplers.len() && !taken.contains(i)
        ==> exists|e: SuspendAndSampleError| call_ensures(
            S::suspend_and_sample_thread,
            (&#[trigger] samplers[i],),
            Err::<NativeStack, SuspendAndSampleError>(e),
        )
}

/// `samples` holds, in order, the stacks of the samplers that succeeded, each
/// with the thread id its sampler reported; the others failed.
pub open spec fn samples_follow_samplers<S: Sampler>(samples: Seq<Sample>, samplers: Seq<S>) -> bool {
    exists|taken: Seq<int>| samples_taken_from(samples, samplers, taken)
}

/// What handling `received` in the state `before` does: the state `after`, and
/// the next thing to do.
pub open spec fn sampler_handled<S: Sampler>(
    before: SamplerThreadState<S>,
    received: Received<S>,
    after: SamplerThreadState<S>,
    action: SamplerThreadAction,
) -> bool {
    match received {
        Received::Message(SamplerThreadMessage::RegisterSampler(sampler)) => {
            &&& after.samplers@ == before.samplers@.push(sampler)
            &&& after.is_paused == before.is_paused
            &&& after.is_waiting_for_one_sample == before.is_waiting_for_one_sample
            &&& action == SamplerThreadAction::Receive
        },
        Received::Message(SamplerThreadMessage::UnregisterSampler(thread_id)) => {
            &&& exists|ids: Seq<u32>| reported_thread_ids(before.samplers@, ids)
                && after.samplers@ == #[trigger] without_thread(before.samplers@, ids, thread_id)
            &&& after.is_paused == before.is_paused
            &&& after.is_waiting_for_one_sample == before.is_waiting_for_one_sample
            &&& action == SamplerThreadAction::Receive
        },
        Received::Message(SamplerThreadMessage::PauseSampling) => {
            &&& after.samplers@ == before.samplers@
            &&& after.is_paused
            &&& after.is_waiting_for_one_sample == before.is_waiting_for_one_sample
            &&& action == SamplerThreadAction::Receive
        },
        Received::Message(SamplerThreadMessage::StartSampling) => {
            &&& after.samplers@ == before.samplers@
            &&& !after.is_paused
            &&& after.is_waiting_for_one_sample == before.is_waiting_for_one_sample
            &&& action == SamplerThreadAction::Receive
        },
        Received::Message(SamplerThreadMessage::StopSampling) => {
            &&& after.samplers@ == before.samplers@
            &&& after.is_paused == before.is_paused
            &&& after.is_waiting_for_one_sample == before.is_waiting_for_one_sample
            &&& action == SamplerThreadAction::Exit
        },
        Received::Message(SamplerThreadMessage::WaitingForOneSample) => {
            &&& after.samplers@ == before.samplers@
            &&& after.is_paused == before.is_paused
            &&& after.is_waiting_for_one_sample
            &&& action == SamplerThreadAction::Receive
        },
        Received::Empty => {
            &&& after.samplers@ == before.samplers@
            &&& after.is_paused == before.is_paused
            &&& if before.is_paused {
                &&& after.is_waiting_for_one_sample == before.is_waiting_for_one_sample
                &&& action == SamplerThreadAction::Receive
            } else {
                &&& !after.is_waiting_for_one_sample
                &&& action == SamplerThreadAction::SampleThreads {
                    notify_one_sample: before.is_waiting_for_one_sample,
                }
            }
        },
        Received::Disconnected => {
            &&& after.samplers@ == before.samplers@
            &&& after.is_paused == before.is_paused
            &&& after.is_waiting_for_one_sample == before.is_waiting_for_one_sample
            &&& action == SamplerThreadAction::Exit
        },
    }
}

/// Asking to hear of the next round of samples is answered after the next
/// round, and then no more: the round after it does not notify.
pub proof fn law_waiting_is_notified_after_the_next_round_once<S: Sampler>(
    s0: SamplerThreadState<S>,
    s1: SamplerThreadState<S>,
    s2: SamplerThreadState<S>,
    s3: SamplerThreadState<S>,
    a1: SamplerThreadAction,
    a2: SamplerThreadAction,
    a3: SamplerThreadAction,
)
    requires
        !s0.is_paused,
        sampler_handled(s0, Received::Message(SamplerThreadMessage::WaitingForOneSample), s1, a1),
        sampler_handled(s1, Received::Empty, s2, a2),
        sampler_handled(s2, Received::Empty, s3, a3),
    ensures
        a1 == SamplerThreadAction::Receive,
        a2 == (SamplerThreadAction::SampleThreads { notify_one_sample: true }),
        a3 == (SamplerThreadAction::SampleThreads { notify_one_sample: false }),
{
}

/// The states, received values and actions of a run of the sampler thread:
/// each step handles what was received in the state before it.
pub open spec fn sampler_run<S: Sampler>(
    states: Seq<SamplerThreadState<S>>,
    received: Seq<Received<S>>,
    actions: Seq<SamplerThreadAction>,
) -> bool {
    &&& states.len() == received.len() + 1
    &&& actions.len() == received.len()
    &&& forall|i: int| 0 <= i < received.len()
        ==> #[trigger] sampler_handled(states[i], received[i], states[i + 1], actions[i])
}

/// A round of samples is taken only while sampling: never in a paused state.
pub proof fn law_no_round_while_paused<S: Sampler>(
    before: SamplerThreadState<S>,
    received: Received<S>,
    after: SamplerThreadState<S>,
    action: SamplerThreadAction,
)
    requires
        sampler_handled(before, received, after, action),
        before.is_paused,
    ensures
        !(action is SampleThreads),
{
}

/// The thread starts out paused, so until a `StartSampling` message arrives no
/// round of samples is taken.
pub proof fn law_no_round_before_sampling_starts<S: Sampler>(
    states: Seq<SamplerThreadState<S>>,
    received: Seq<Received<S>>,
    actions: Seq<SamplerThreadAction>,
)
    requires
        sampler_run(states, received, actions),
        states[0].is_paused,
        forall|i: int| 0 <= i < received.len()
            ==> !(#[trigger] received[i] matches Received::Message(SamplerThreadMessage::StartSampling)),
    ensures
        forall|i: int| 0 <= i < actions.len() ==> !(#[trigger] actions[i] is SampleThreads),
{
    lemma_stays_paused(states, received, actions, received.len() as int);
    assert forall|i: int| 0 <= i < actions.len() implies !(#[trigger] actions[i] is SampleThreads) by {
        assert(sampler_handled(states[i], received[i], states[i + 1], actions[i]));
    }
}

proof fn lemma_stays_paused<S: Sampler>(
    states: Seq<SamplerThreadState<S>>,
    received: Seq<Received<S>>,
    actions: Seq<SamplerThreadAction>,
    n: int,
)
    requires
        sampler_run(states, received, actions),
        states[0].is_paused,
        forall|i: int| 0 <= i < received.len()
            ==> !(#[trigger] received[i] matches Received::Message(SamplerThreadMessage::StartSampling)),
        0 <= n <= received.len(),
    ensures
        forall|i: int| 0 <= i <= n ==> (#[trigger] states[i]).is_paused,
    decreases n,
{
    if n > 0 {
        lemma_stays_paused(states, received, actions, n - 1);
        let i = n - 1;
        assert(sampler_handled(states[i], received[i], states[i + 1], actions[i]));
        assert(!(received[i] matches Received::Message(SamplerThreadMessage::StartSampling)));
    }
}

/// Whether sampling is on after receiving `received`, from a paused start: the
/// last of `StartSampling` and `PauseSampling` received is `StartSampling`.
pub open spec fn sampling_on<S>(received: Seq<Received<S>>) -> bool
    decreases received.len(),
{
    if received.len() == 0 {
        false
    } else {
        match received.last() {
            Received::Message(SamplerThreadMessage::StartSampling) => true,
            Received::Message(SamplerThreadMessage::PauseSampling) => false,
            _ => sampling_on(received.drop_last()),
        }
    }
}

/// Whether, after receiving `received`, the core waits to hear of the next
/// round: it asked, and no round has been taken since.
pub open spec fn waits_for_round<S>(received: Seq<Received<S>>) -> bool
    decreases received.len(),
{
    if received.len() == 0 {
        false
    } else {
        match received.last() {
            Received::Message(SamplerThreadMessage::WaitingForOneSample) => true,
            Received::Empty => !sampling_on(received.drop_last()) && waits_for_round(received.drop_last()),
            _ => waits_for_round(received.drop_last()),
        }
    }
}

proof fn lemma_run_state<S: Sampler>(
    states: Seq<SamplerThreadState<S>>,
    received: Seq<Received<S>>,
    actions: Seq<SamplerThreadAction>,
    n: int,
)
    requires
        sampler_run(states, received, actions),
        states[0].is_paused,
        !states[0].is_waiting_for_one_sample,
        0 <= n <= received.len(),
    ensures
        states[n].is_paused == !sampling_on(received.take(n)),
        states[n].is_waiting_for_one_sample == waits_for_round(received.take(n)),
    decreases n,
{
    if n == 0 {
        assert(received.take(0) =~= Seq::<Received<S>>::empty());
    } else {
        let i = n - 1;
        lemma_run_state(states, received, actions, i);
        assert(received.take(n).drop_last() =~= received.take(i));
        assert(received.take(n).last() == received[i]);
        assert(sampler_handled(states[i], received[i], states[i + 1], actions[i]));
    }
}

/// Over any run from the paused start: a round of samples is taken exactly
/// when nothing was received while sampling is on, that is, while the last of
/// `StartSampling` and `PauseSampling` received is `StartSampling`; and a
/// round notifies exactly when the core asked to hear of the next round and
/// no round was taken since, so each request is answered once.
pub proof fn law_rounds_only_while_sampling_is_on<S: Sampler>(
    states: Seq<SamplerThreadState<S>>,
    received: Seq<Received<S>>,
    actions: Seq<SamplerThreadAction>,
)
    requires
        sampler_run(states, received, actions),
        states[0].is_paused,
        !states[0].is_waiting_for_one_sample,
    ensures
        forall|i: int| 0 <= i < actions.len() ==> ((#[trigger] actions[i]) is SampleThreads
            <==> (received[i] is Empty && sampling_on(received.take(i)))),
        forall|i: int| 0 <= i < actions.len() && (#[trigger] actions[i]) is SampleThreads
            ==> actions[i] == (SamplerThreadAction::SampleThreads {
                notify_one_sample: waits_for_round(received.take(i)),
            }),
{
    assert forall|i: int| 0 <= i < actions.len() implies ((#[trigger] actions[i]) is SampleThreads
        <==> (received[i] is Empty && sampling_on(received.take(i)))) by {
        lemma_run_state(states, received, actions, i);
        assert(sampler_handled(states[i], received[i], states[i + 1], actions[i]));
    }
    assert forall|i: int| 0 <= i < actions.len() && (#[trigger] actions[i]) is SampleThreads
        implies actions[i] == (SamplerThreadAction::SampleThreads {
            notify_one_sample: waits_for_round(received.take(i)),
        }) by {
        lemma_run_state(states, received, actions, i);
        assert(sampler_handled(states[i], received[i], states[i + 1], actions[i]));
    }
}

/// The state of the sampler thread. It starts out paused.
pub struct SamplerThreadState<S> {
    pub is_paused: bool,
    pub is_waiting_for_one_sample: bool,
    pub samplers: Vec<S>,
}

/// The samplers whose thread id, given at the same index of `ids`, is not
/// `thread_id`, in the same order.
pub fn keep_other_threads<S>(samplers: Vec<S>, ids: &Vec<u32>, thread_id: u32) -> (kept: Vec<S>)
    requires
        ids@.len() == samplers@.len(),
    ensures
        kept@ == without_thread(samplers@, ids@, thread_id),
{
    let ghost initial = samplers@;
    let mut rest = samplers;
    let mut kept: Vec<S> = Vec::new();
    let mut i: usize = 0;
    let total = ids.len();
    assert(without_thread(initial.take(0), ids@.take(0), thread_id) =~= Seq::<S>::empty());
    while rest.len() > 0
        invariant
            ids@.len() == initial.len(),
            total == initial.len(),
            i <= initial.len(),
            rest@ == initial.skip(i as int),
            kept@ == without_thread(initial.take(i as int), ids@.take(i as int), thread_id),
        decreases rest@.len(),
    {
        let sampler = rest.remove(0);
        proof {
            assert(initial.take(i + 1).drop_last() =~= initial.take(i as int));
            assert(ids@.take(i + 1).drop_last() =~= ids@.take(i as int));
            assert(initial.take(i + 1).last() == sampler);
            assert(ids@.take(i + 1).last() == ids@[i as int]);
            assert(initial.skip(i as int).drop_first() =~= initial.skip(i + 1));
        }
        if ids[i] != thread_id {
            kept.push(sampler);
        }
        i = i + 1;
    }
    assert(initial.take(i as int) =~= initial);
    assert(ids@.take(i as int) =~= ids@);
    kept
}

impl<S: Sampler> SamplerThreadState<S> {
    /// Paused, not waiting, and with no samplers.
    pub fn new() -> (s: SamplerThreadState<S>)
        ensures
            s.is_paused,
            !s.is_waiting_for_one_sample,
            s.samplers@.len() == 0,
    {
        SamplerThreadState { is_paused: true, is_waiting_for_one_sample: false, samplers: Vec::new() }
    }

    /// While paused, the thread waits for messages; otherwise it only takes
    /// those that are already there, and goes on to sample.
    pub fn receive_mode(&self) -> (mode: ReceiveMode)
        ensures
            mode == if self.is_paused { ReceiveMode::Blocking } else { ReceiveMode::NonBlocking },
    {
        if self.is_paused {
            ReceiveMode::Blocking
        } else {
            ReceiveMode::NonBlocking
        }
    }

    /// Reacts to what was received. A message is handled and the next one is
    /// received, but for `StopSampling`, which ends the thread. A closed channel
    /// ends the thread. When no message was waiting, it is time to sample.
    pub fn handle(&mut self, received: Received<S>) -> (action: SamplerThreadAction)
        ensures
            sampler_handled(*old(self), received, *final(self), action),
    {
        match received {
            Received::Message(message) => match message {
                SamplerThreadMessage::RegisterSampler(sampler) => {
                    self.samplers.push(sampler);
                    SamplerThreadAction::Receive
                },
                SamplerThreadMessage::UnregisterSampler(thread_id) => {
                    self.unregister(thread_id);
                    SamplerThreadAction::Receive
                },
                SamplerThreadMessage::StopSampling => SamplerThreadAction::Exit,
                SamplerThreadMessage::PauseSampling => {
                    self.is_paused = true;
                    SamplerThreadAction::Receive
                },
                SamplerThreadMessage::StartSampling => {
                    self.is_paused = false;
                    SamplerThreadAction::Receive
                },
                SamplerThreadMessage::WaitingForOneSample => {
                    self.is_waiting_for_one_sample = true;
                    SamplerThreadAction::Receive
                },
            },
            Received::Empty => {
                if self.is_paused {
                    // Nothing is sampled while paused.
                    SamplerThreadAction::Receive
                } else {
                    let notify_one_sample = self.is_waiting_for_one_sample;
                    self.is_waiting_for_one_sample = false;
                    SamplerThreadAction::SampleThreads { notify_one_sample }
                }
            },
            Received::Disconnected => SamplerThreadAction::Exit,
        }
    }

    /// Removes the samplers of thread `thread_id`, keeping the others in order.
    /// Each sampler is asked for its thread id.
    fn unregister(&mut self, thread_id: u32)
        ensures
            exists|ids: Seq<u32>| reported_thread_ids(old(self).samplers@, ids)
                && final(self).samplers@ == #[trigger] without_thread(old(self).samplers@, ids, thread_id),
            final(self).is_paused == old(self).is_paused,
            final(self).is_waiting_for_one_sample == old(self).is_waiting_for_one_sample,
    {
        let mut ids: Vec<u32> = Vec::new();
        let n = self.samplers.len();
        let mut i: usize = 0;
        while i < n
            invariant
                n == self.samplers@.len(),
                i <= n,
                ids@.len() == i,
                reported_thread_ids(self.samplers@.take(i as int), ids@),
            decreases n - i,
        {
            let id = self.samplers[i].thread_id();
            ids.push(id);
            proof {
                let next = self.samplers@.take(i + 1);
                assert forall|j: int| 0 <= j < next.len()
                    implies call_ensures(S::thread_id, (&#[trigger] next[j],), ids@[j]) by {
                    if j < i {
                        assert(next[j] == self.samplers@.take(i as int)[j]);
                    }
                }
            }
            i = i + 1;
        }
        assert(self.samplers@.take(n as int) =~= self.samplers@);
        let mut rest: Vec<S> = Vec::new();
        std::mem::swap(&mut rest, &mut self.samplers);
        self.samplers = keep_other_threads(rest, &ids, thread_id);
    }

    /// Asks every registered sampler, in order, for a sample of its thread, and
    /// keeps the samples of those that succeed.
    pub fn take_samples(&self) -> (samples: Vec<Sample>)
        ensures
            samples_follow_samplers(samples@, self.samplers@),
    {
        let mut samples: Vec<Sample> = Vec::new();
        let ghost mut taken: Seq<int> = Seq::empty();
        let n = self.samplers.len();
        let mut i: usize = 0;
        while i < n
            invariant
                n == self.samplers@.len(),
                i <= n,
                taken.len() == samples@.len(),
                forall|k: int| 0 <= k < taken.len() ==> #[trigger] taken[k] < i,
                samples_taken_from(samples@, self.samplers@.take(i as int), taken),
            decreases n - i,
        {
            let ghost before = samples@;
            let ghost prefix = self.samplers@.take(i as int);
            let ghost next = self.samplers@.take(i + 1);
            let sampler = &self.samplers[i];
            match sampler.suspend_and_sample_thread() {
                Ok(native_stack) => {
                    let thread_id = sampler.thread_id();
                    samples.push(Sample { native_stack, thread_id });
                    proof {
                        let t = taken.push(i as int);
                        assert forall|k: int| 0 <= k < t.len() implies {
                            &&& 0 <= #[trigger] t[k] < next.len()
                            &&& call_ensures(
                                S::suspend_and_sample_thread,
                                (&next[t[k]],),
                                Ok::<NativeStack, SuspendAndSampleError>(samples@[k].native_stack),
                            )
                            &&& call_ensures(S::thread_id, (&next[t[k]],), samples@[k].thread_id)
                        } by {
                            if k < taken.len() {
                                assert(next[t[k]] == prefix[taken[k]]);
                                assert(samples@[k] == before[k]);
                            }
                        }
                        assert forall|j: int| 0 <= j < next.len() && !t.contains(j)
                            implies exists|e: SuspendAndSampleError| call_ensures(
                                S::suspend_and_sample_thread,
                                (&#[trigger] next[j],),
                                Err::<NativeStack, SuspendAndSampleError>(e),
                            ) by {
                            if j == i {
                                assert(t[t.len() - 1] == j);
                            } else {
                                assert(next[j] == prefix[j]);
                                if taken.contains(j) {
                                    let k = choose|k: int| 0 <= k < taken.len() && taken[k] == j;
                                    assert(t[k] == j);
                                }
                            }
                        }
                        taken = t;
                    }
                },
                Err(error) => {
                    proof {
                        assert forall|k: int| 0 <= k < taken.len() implies {
                            &&& 0 <= #[trigger] taken[k] < next.len()
                            &&& call_ensures(
                                S::suspend_and_sample_thread,
                                (&next[taken[k]],),
                                Ok::<NativeStack, SuspendAndSampleError>(samples@[k].native_stack),
                            )
                            &&& call_ensures(S::thread_id, (&next[taken[k]],), samples@[k].thread_id)
                        } by {
                            assert(next[taken[k]] == prefix[taken[k]]);
                        }
                        assert forall|j: int| 0 <= j < next.len() && !taken.contains(j)
                            implies exists|e: SuspendAndSampleError| call_ensures(
                                S::suspend_and_sample_thread,
                                (&#[trigger] next[j],),
                                Err::<NativeStack, SuspendAndSampleError>(e),
                            ) by {
                            if j == i {
                                assert(next[j] == *sampler);
                                assert(call_ensures(
                                    S::suspend_and_sample_thread,
                                    (&next[j],),
                                    Err::<NativeStack, SuspendAndSampleError>(error),
                                ));
                            } else {
                                assert(next[j] == prefix[j]);
                            }
                        }
                    }
                },
            }
            i = i + 1;
        }
        assert(self.samplers@.take(n as int) =~= self.samplers@);
        assert(samples_taken_from(samples@, self.samplers@, taken));
        samples
    }
}

} // verus!
