//! The decisions of the buffer thread: it stores markers and samples as they
//! arrive, and answers requests for the sample count and for the profile.
//! Receiving and sending the messages is left to the caller.
use vstd::prelude::*;
use crate::markers::{
    marker_schema, serialize_thread_markers_in_buffer, thread_markers_after, Marker, MarkersTable, ThreadMarker,
};
use crate::sampler::{
    live_frames, sample_stacks, FrameTableData, Sample, SamplesData,
    SamplesSerializer, StackTableData, prefix_column_value, repeated, time_column_value,
};
use crate::stack_table::{stack_index_of, stack_table_of};
use crate::string_table::StringTable;
use crate::time::{Clock, Duration, Instant};
use crate::time_expiring_buffer::{expired_prefix_len, is_expired, lemma_expired_prefix, BufferEntry, TimeExpiringBuffer};

verus! {

/// What the core knows of a registered thread.
#[derive(Clone, Debug, PartialEq, Eq)]
pub struct ThreadInfo {
    pub id: u32,
    pub name: String,
}

/// What the core knows that the profile needs.
pub struct CoreInfoForSerialization {
    pub start_time: Instant,
    /// The sampling interval, in milliseconds.
    pub sampling_interval: u64,
    /// The threads that have registered so far.
    pub thread_infos: Vec<ThreadInfo>,
}

/// The infos of the threads that have registered, in order of registration:
/// the slots handed to threads that have not registered yet are `None`.
pub open spec fn registered(slots: Seq<Option<ThreadInfo>>) -> Seq<ThreadInfo>
    decreases slots.len(),
{
    if slots.len() == 0 {
        Seq::empty()
    } else {
        let rest = registered(slots.drop_last());
        match slots.last() {
            Some(info) => rest.push(info),
            None => rest,
        }
    }
}

/// Collects the infos of the threads that have registered, in order.
pub fn registered_thread_infos(slots: Vec<Option<ThreadInfo>>) -> (infos: Vec<ThreadInfo>)
    ensures
        infos@ == registered(slots@),
{
    let ghost initial = slots@;
    let mut rest = slots;
    let mut infos: Vec<ThreadInfo> = Vec::new();
    let ghost mut i: int = 0;
    assert(registered(initial.take(0)) =~= Seq::<ThreadInfo>::empty());
    while rest.len() > 0
        invariant
            0 <= i <= initial.len(),
            rest@ == initial.skip(i),
            infos@ == registered(initial.take(i)),
        decreases rest@.len(),
    {
        let slot = rest.remove(0);
        proof {
            assert(initial.take(i + 1).drop_last() =~= initial.take(i));
            assert(initial.take(i + 1).last() == slot);
            assert(initial.skip(i).drop_first() =~= initial.skip(i + 1));
        }
        match slot {
            Some(info) => infos.push(info),
            None => {},
        }
        proof { i = i + 1; }
    }
    assert(initial.take(i) =~= initial);
    infos
}

/// All of the different messages that can be sent to the buffer thread.
pub enum BufferThreadMessage {
    /// A marker, with the id of the thread that recorded it.
    AddMarker(u32, Box<dyn Marker>),
    AddSample(Sample),
    ClearExpiredMarkers,
    SerializeBuffer(CoreInfoForSerialization),
    GetSampleCount,
    /// Asks to be told when the next sample arrives; mainly of use in tests.
    WaitingForOneSample,
}

/// The profile of one registered thread, table by table.
pub struct ThreadProfile {
    pub name: String,
    pub tid: u32,
    pub markers: MarkersTable,
    pub samples: SamplesData,
    pub stack_table: StackTableData,
    pub frame_table: FrameTableData,
    pub string_table: Vec<String>,
}

/// A category that the profile's entries can fall under, and the colour in
/// which it is shown. Each has the one subcategory `Other`.
pub struct ProfileCategory {
    pub name: &'static str,
    pub color: &'static str,
}

/// The version of the profile format that the profile is written in.
pub const PROFILE_VERSION: u32 = 19;

/// The categories of the profile format, by name and colour, in order.
pub open spec fn profile_categories() -> Seq<(Seq<char>, Seq<char>)> {
    seq![
        ("Other"@, "grey"@),
        ("Idle"@, "transparent"@),
        ("Layout"@, "purple"@),
        ("JavaScript"@, "yellow"@),
        ("GC / CC"@, "orange"@),
        ("Network"@, "lightblue"@),
        ("Graphics"@, "green"@),
        ("DOM"@, "blue"@),
    ]
}

/// The categories of the profile format, in order.
pub fn categories() -> (c: Vec<ProfileCategory>)
    ensures
        c@.map_values(|k: ProfileCategory| (k.name@, k.color@)) == profile_categories(),
{
    let c = vec![
        ProfileCategory { name: "Other", color: "grey" },
        ProfileCategory { name: "Idle", color: "transparent" },
        ProfileCategory { name: "Layout", color: "purple" },
        ProfileCategory { name: "JavaScript", color: "yellow" },
        ProfileCategory { name: "GC / CC", color: "orange" },
        ProfileCategory { name: "Network", color: "lightblue" },
        ProfileCategory { name: "Graphics", color: "green" },
        ProfileCategory { name: "DOM", color: "blue" },
    ];
    assert(c@.map_values(|k: ProfileCategory| (k.name@, k.color@)) =~= profile_categories());
    c
}

/// The profile: the format's version and categories, the product's name, the
/// sampling interval, and one entry per registered thread, in order of
/// registration.
pub struct Profile {
    pub version: u32,
    pub product: &'static str,
    pub categories: Vec<ProfileCategory>,
    /// The sampling interval, in milliseconds.
    pub interval: u64,
    pub threads: Vec<ThreadProfile>,
}

/// The answers of the buffer thread to the core.
pub enum SerializationMessage {
    /// The serialized profile.
    Serialize(Profile),
    /// How many samples are in the buffer; mainly of use in tests.
    SampleCount(usize),
    /// At least one sample was received since it was asked for; mainly of use
    /// in tests.
    OneSampleReceived,
}

/// The state of the buffer thread: the buffers of markers and samples, and
/// whether the core waits to hear of the next sample.
pub struct BufferThreadState {
    pub markers: TimeExpiringBuffer<ThreadMarker>,
    pub samples: TimeExpiringBuffer<Sample>,
    pub is_waiting_for_one_sample: bool,
}

/// The samples of thread `thread_id` among `entries`, in order.
pub open spec fn samples_of_thread(entries: Seq<BufferEntry<Sample>>, thread_id: u32) -> Seq<BufferEntry<Sample>>
    decreases entries.len(),
{
    if entries.len() == 0 {
        entries
    } else {
        let rest = samples_of_thread(entries.drop_last(), thread_id);
        if entries.last().value.thread_id == thread_id {
            rest.push(entries.last())
        } else {
            rest
        }
    }
}

/// A buffer with the samples of thread `thread_id`, in order.
pub fn select_thread_samples(samples: &TimeExpiringBuffer<Sample>, thread_id: u32) -> (selected: TimeExpiringBuffer<Sample>)
    ensures
        selected@ == samples_of_thread(samples@, thread_id),
        selected.entry_lifetime == samples.entry_lifetime,
        selected.clock == samples.clock,
{
    let mut selected = TimeExpiringBuffer::with_clock(samples.entry_lifetime, samples.clock);
    let n = samples.buffer.len();
    let mut i: usize = 0;
    assert(samples@.take(0) =~= Seq::<BufferEntry<Sample>>::empty());
    while i < n
        invariant
            n == samples@.len(),
            i <= n,
            selected@ == samples_of_thread(samples@.take(i as int), thread_id),
            selected.entry_lifetime == samples.entry_lifetime,
            selected.clock == samples.clock,
        decreases n - i,
    {
        let entry = &samples.buffer[i];
        proof {
            assert(samples@.take(i + 1).drop_last() =~= samples@.take(i as int));
            assert(samples@.take(i + 1).last() == *entry);
        }
        if entry.value.thread_id == thread_id {
            selected.push_back_at(entry.value, entry.created_at);
        }
        i = i + 1;
    }
    assert(samples@.take(n as int) =~= samples@);
    selected
}

/// Whether the samples of thread `thread_id` can be serialized: its first
/// sample, if any, has a frame.
pub open spec fn thread_samples_can_be_serialized(samples: Seq<BufferEntry<Sample>>, thread_id: u32) -> bool {
    let own = samples_of_thread(samples, thread_id);
    own.len() > 0 ==> sample_stacks(own)[0].len() > 0
}

/// Whether a profile of the threads of `thread_infos` can be built from
/// `samples`: the first sample of each of the threads, if any, has a frame.
pub open spec fn samples_can_be_serialized(samples: TimeExpiringBuffer<Sample>, thread_infos: Seq<ThreadInfo>) -> bool {
    forall|i: int| 0 <= i < thread_infos.len()
        ==> thread_samples_can_be_serialized(samples@, #[trigger] thread_infos[i].id)
}

/// What the profile of thread `info` built from `markers` and `samples`, with
/// the profiler's start at `start`, holds: the thread's own markers, interned
/// in its own string table, and its own samples with their stack table.
pub open spec fn is_thread_profile_of(
    p: ThreadProfile,
    info: ThreadInfo,
    markers: Seq<BufferEntry<ThreadMarker>>,
    samples: Seq<BufferEntry<Sample>>,
    start: Instant,
) -> bool {
    let own = samples_of_thread(samples, info.id);
    let stacks = sample_stacks(own);
    let table = stack_table_of(stacks);
    let (rows, strings) = thread_markers_after(markers, info.id, start, Seq::empty(), markers.len());
    &&& p.name@ == info.name@
    &&& p.tid == info.id
    &&& p.markers.schema == marker_schema()
    &&& p.markers.data@ == rows
    &&& p.string_table@.len() == strings.len()
    &&& forall|i: int| 0 <= i < strings.len() ==> (#[trigger] p.string_table@[i])@ == strings[i]
    &&& p.samples.stack@ == Seq::new(own.len(), |k: int| stack_index_of(stacks, k) as usize)
    &&& p.samples.length == own.len()
    &&& p.samples.time@ == Seq::new(own.len(), |k: int| time_column_value(own[k].created_at, start))
    &&& p.stack_table.length == table.len()
    &&& p.stack_table.frame@ == Seq::new(table.len(), |i: int| i as usize)
    &&& p.stack_table.category@ == repeated(0u32, table.len())
    &&& p.stack_table.subcategory@ == repeated(0u32, table.len())
    &&& p.stack_table.prefix@ == Seq::new(table.len(), |i: int| prefix_column_value(table[i].prefix))
    &&& p.frame_table.length == table.len()
    &&& p.frame_table.address@ == Seq::new(table.len(), |i: int| table[i].instruction_ptr)
    &&& p.frame_table.category@ == repeated(0u32, table.len())
    &&& p.frame_table.subcategory@ == repeated(0u32, table.len())
    &&& p.frame_table.func@ == repeated(0u32, table.len())
    &&& p.frame_table.inner_window_id@ == repeated(None::<u64>, table.len())
    &&& p.frame_table.implementation@ == repeated(None::<u64>, table.len())
    &&& p.frame_table.line@ == repeated(None::<u64>, table.len())
    &&& p.frame_table.column@ == repeated(None::<u64>, table.len())
    &&& p.frame_table.optimizations@ == repeated(None::<u64>, table.len())
}

/// What the profile built from `markers` and `samples` with `core_info` holds:
/// the sampling interval, and one thread entry per registered thread, in order.
pub open spec fn is_profile_of(
    p: Profile,
    markers: TimeExpiringBuffer<ThreadMarker>,
    samples: TimeExpiringBuffer<Sample>,
    core_info: CoreInfoForSerialization,
) -> bool {
    &&& p.version == PROFILE_VERSION
    &&& p.product@ == "Rust Profiler"@
    &&& p.categories@.map_values(|k: ProfileCategory| (k.name@, k.color@)) == profile_categories()
    &&& p.interval == core_info.sampling_interval
    &&& p.threads@.len() == core_info.thread_infos@.len()
    &&& forall|i: int| 0 <= i < p.threads@.len() ==> is_thread_profile_of(
        #[trigger] p.threads@[i],
        core_info.thread_infos@[i],
        markers@,
        samples@,
        core_info.start_time,
    )
}

/// What handling `message` in the state `before` does: the state `after`,
/// and the answer `reply` to the core.
pub open spec fn handled(
    before: BufferThreadState,
    message: BufferThreadMessage,
    after: BufferThreadState,
    reply: Option<SerializationMessage>,
) -> bool {
    &&& match message {
        BufferThreadMessage::AddMarker(thread_id, marker) => {
            &&& after.markers@.len() == before.markers@.len() + 1
            &&& after.markers@.drop_last() == before.markers@
            &&& after.markers@.last().value == (ThreadMarker { thread_id, marker })
            &&& after.markers@.last().created_at.nanos >= before.markers.clock.latest()
            &&& after.markers.clock.latest() == after.markers@.last().created_at.nanos
            &&& after.markers.clock.reads() == before.markers.clock.reads() + 1
            &&& after.samples == before.samples
            &&& after.is_waiting_for_one_sample == before.is_waiting_for_one_sample
            &&& reply is None
        },
        BufferThreadMessage::AddSample(sample) => {
            &&& exists|created_at: Instant| {
                &&& after.samples@ == #[trigger] before.samples@.push(BufferEntry { created_at, value: sample })
                &&& created_at.nanos >= before.samples.clock.latest()
                &&& after.samples.clock.latest() == created_at.nanos
            }
            &&& after.samples.clock.reads() == before.samples.clock.reads() + 1
            &&& after.markers == before.markers
            &&& !after.is_waiting_for_one_sample
            &&& if before.is_waiting_for_one_sample {
                reply matches Some(SerializationMessage::OneSampleReceived)
            } else {
                reply is None
            }
        },
        BufferThreadMessage::ClearExpiredMarkers => {
            &&& exists|now: Instant| {
                &&& after.markers@ == before.markers@.skip(
                    #[trigger] expired_prefix_len(before.markers@, now, before.markers.entry_lifetime) as int,
                )
                &&& now.nanos >= before.markers.clock.latest()
                &&& after.markers.clock.latest() == now.nanos
                &&& before.markers.in_clock_order() ==> forall|i: int| 0 <= i < before.markers@.len()
                    ==> (is_expired(#[trigger] before.markers@[i].created_at, now, before.markers.entry_lifetime)
                        <==> i < expired_prefix_len(before.markers@, now, before.markers.entry_lifetime))
            }
            &&& after.markers.clock.reads() == before.markers.clock.reads() + 1
            &&& after.samples == before.samples
            &&& after.is_waiting_for_one_sample == before.is_waiting_for_one_sample
            &&& reply is None
        },
        BufferThreadMessage::SerializeBuffer(core_info) => {
            &&& after == before
            &&& reply matches Some(SerializationMessage::Serialize(p))
                && is_profile_of(p, before.markers, before.samples, core_info)
        },
        BufferThreadMessage::GetSampleCount => {
            &&& after == before
            &&& reply == Some(SerializationMessage::SampleCount(before.samples@.len() as usize))
        },
        BufferThreadMessage::WaitingForOneSample => {
            &&& after.markers == before.markers
            &&& after.samples == before.samples
            &&& after.is_waiting_for_one_sample
            &&& reply is None
        },
    }
    &&& after.markers.entry_lifetime == before.markers.entry_lifetime
    &&& after.markers.clock.origin() == before.markers.clock.origin()
    &&& before.markers.in_clock_order() ==> after.markers.in_clock_order()
    &&& after.samples.entry_lifetime == before.samples.entry_lifetime
    &&& after.samples.clock.origin() == before.samples.clock.origin()
    &&& before.samples.in_clock_order() ==> after.samples.in_clock_order()
}

/// Asking to hear of the next sample is answered by the next sample that
/// arrives, and then no more.
pub proof fn law_waiting_is_answered_by_the_next_sample_once(
    s0: BufferThreadState,
    s1: BufferThreadState,
    s2: BufferThreadState,
    s3: BufferThreadState,
    first: Sample,
    second: Sample,
    r1: Option<SerializationMessage>,
    r2: Option<SerializationMessage>,
    r3: Option<SerializationMessage>,
)
    requires
        handled(s0, BufferThreadMessage::WaitingForOneSample, s1, r1),
        handled(s1, BufferThreadMessage::AddSample(first), s2, r2),
        handled(s2, BufferThreadMessage::AddSample(second), s3, r3),
    ensures
        r1 is None,
        r2 matches Some(SerializationMessage::OneSampleReceived),
        r3 is None,
{
}

/// The sample count counts the samples added.
pub proof fn law_sample_count_counts_added_samples(
    s0: BufferThreadState,
    s1: BufferThreadState,
    s2: BufferThreadState,
    sample: Sample,
    r1: Option<SerializationMessage>,
    r2: Option<SerializationMessage>,
)
    requires
        handled(s0, BufferThreadMessage::AddSample(sample), s1, r1),
        handled(s1, BufferThreadMessage::GetSampleCount, s2, r2),
    ensures
        r2 == Some(SerializationMessage::SampleCount((s0.samples@.len() + 1) as usize)),
{
    let created_at = choose|created_at: Instant|
        s1.samples@ == #[trigger] s0.samples@.push(BufferEntry { created_at, value: sample });
    assert(s1.samples@.len() == s0.samples@.len() + 1);
}

/// A sample is stored at the back, stamped with a fresh reading of the
/// samples clock: the clock is read once, the stamp is that reading, no
/// earlier than any reading before, and so no earlier than any sample stored
/// before when those came in clock order.
pub proof fn law_a_sample_is_stamped_with_a_fresh_reading(
    before: BufferThreadState,
    sample: Sample,
    after: BufferThreadState,
    reply: Option<SerializationMessage>,
)
    requires
        handled(before, BufferThreadMessage::AddSample(sample), after, reply),
    ensures
        after.samples@.len() == before.samples@.len() + 1,
        after.samples@.drop_last() == before.samples@,
        after.samples@.last().value == sample,
        after.samples.clock.reads() == before.samples.clock.reads() + 1,
        after.samples@.last().created_at.nanos == after.samples.clock.latest(),
        after.samples@.last().created_at.nanos >= before.samples.clock.latest(),
        before.samples.in_clock_order() ==> forall|i: int| 0 <= i < before.samples@.len()
            ==> (#[trigger] before.samples@[i]).created_at.nanos <= after.samples@.last().created_at.nanos,
{
    let created_at = choose|created_at: Instant| {
        &&& after.samples@ == #[trigger] before.samples@.push(BufferEntry { created_at, value: sample })
        &&& created_at.nanos >= before.samples.clock.latest()
        &&& after.samples.clock.latest() == created_at.nanos
    };
    assert(after.samples@.drop_last() =~= before.samples@);
}

/// A marker is stored at the back with its thread id, stamped with a fresh
/// reading of the markers clock, no earlier than any reading before.
pub proof fn law_a_marker_is_stamped_with_a_fresh_reading(
    before: BufferThreadState,
    message: BufferThreadMessage,
    after: BufferThreadState,
    reply: Option<SerializationMessage>,
)
    requires
        message is AddMarker,
        handled(before, message, after, reply),
    ensures
        after.markers@.len() == before.markers@.len() + 1,
        after.markers@.drop_last() == before.markers@,
        after.markers@.last().value.thread_id == message->AddMarker_0,
        after.markers@.last().value.marker == message->AddMarker_1,
        after.markers.clock.reads() == before.markers.clock.reads() + 1,
        after.markers@.last().created_at.nanos == after.markers.clock.latest(),
        after.markers@.last().created_at.nanos >= before.markers.clock.latest(),
{
}

/// Clearing expired markers reads the markers clock once and, when the
/// markers came in clock order, drops exactly the markers older than the
/// lifetime at that reading: the oldest ones, keeping the rest in order.
pub proof fn law_clearing_markers_drops_exactly_the_expired(
    before: BufferThreadState,
    after: BufferThreadState,
    reply: Option<SerializationMessage>,
)
    requires
        handled(before, BufferThreadMessage::ClearExpiredMarkers, after, reply),
        before.markers.in_clock_order(),
    ensures
        after.markers.clock.reads() == before.markers.clock.reads() + 1,
        after.markers@.len() <= before.markers@.len(),
        after.markers@ == before.markers@.skip(before.markers@.len() - after.markers@.len()),
        after.markers.clock.latest() >= before.markers.clock.latest(),
        forall|i: int| 0 <= i < before.markers@.len() ==> (
            after.markers.clock.latest() - (#[trigger] before.markers@[i]).created_at.nanos
                > before.markers.entry_lifetime.nanos
            <==> i < before.markers@.len() - after.markers@.len()),
{
    let lifetime = before.markers.entry_lifetime;
    let now = choose|now: Instant| {
        &&& after.markers@ == before.markers@.skip(
            #[trigger] expired_prefix_len(before.markers@, now, lifetime) as int,
        )
        &&& now.nanos >= before.markers.clock.latest()
        &&& after.markers.clock.latest() == now.nanos
        &&& before.markers.in_clock_order() ==> forall|i: int| 0 <= i < before.markers@.len()
            ==> (is_expired(#[trigger] before.markers@[i].created_at, now, lifetime)
                <==> i < expired_prefix_len(before.markers@, now, lifetime))
    };
    lemma_expired_prefix(before.markers@, now, lifetime);
}

/// The buffer thread handling `messages` in turn from `states[0]`: message `i`
/// takes `states[i]` to `states[i + 1]` and is answered by `replies[i]`.
pub open spec fn buffer_run(
    states: Seq<BufferThreadState>,
    messages: Seq<BufferThreadMessage>,
    replies: Seq<Option<SerializationMessage>>,
) -> bool {
    &&& states.len() == messages.len() + 1
    &&& replies.len() == messages.len()
    &&& forall|i: int| 0 <= i < messages.len()
        ==> #[trigger] handled(states[i], messages[i], states[i + 1], replies[i])
}

/// The samples that `messages` add, in order.
pub open spec fn added_samples(messages: Seq<BufferThreadMessage>) -> Seq<Sample>
    decreases messages.len(),
{
    if messages.len() == 0 {
        Seq::empty()
    } else {
        let rest = added_samples(messages.drop_last());
        match messages.last() {
            BufferThreadMessage::AddSample(sample) => rest.push(sample),
            _ => rest,
        }
    }
}

/// Whether, after `messages`, the core waits to hear of the next sample: it
/// asked, and no sample has arrived since.
pub open spec fn waits_after(messages: Seq<BufferThreadMessage>) -> bool
    decreases messages.len(),
{
    if messages.len() == 0 {
        false
    } else {
        match messages.last() {
            BufferThreadMessage::WaitingForOneSample => true,
            BufferThreadMessage::AddSample(_) => false,
            _ => waits_after(messages.drop_last()),
        }
    }
}

/// The samples held by `entries`, in order.
pub open spec fn sample_values(entries: Seq<BufferEntry<Sample>>) -> Seq<Sample> {
    entries.map_values(|e: BufferEntry<Sample>| e.value)
}

proof fn lemma_run_keeps_samples(
    states: Seq<BufferThreadState>,
    messages: Seq<BufferThreadMessage>,
    replies: Seq<Option<SerializationMessage>>,
    i: int,
)
    requires
        buffer_run(states, messages, replies),
        0 <= i <= messages.len(),
    ensures
        sample_values(states[i].samples@) == sample_values(states[0].samples@) + added_samples(messages.take(i)),
    decreases i,
{
    if i == 0 {
        assert(messages.take(0) =~= Seq::<BufferThreadMessage>::empty());
        assert(sample_values(states[0].samples@) + Seq::<Sample>::empty() =~= sample_values(states[0].samples@));
    } else {
        lemma_run_keeps_samples(states, messages, replies, i - 1);
        assert(messages.take(i).drop_last() =~= messages.take(i - 1));
        assert(messages.take(i).last() == messages[i - 1]);
        let j = i - 1;
        assert(handled(states[j], messages[j], states[j + 1], replies[j]));
        assert(states[j + 1] == states[i]);
        let before = states[i - 1].samples@;
        match messages[i - 1] {
            BufferThreadMessage::AddSample(sample) => {
                let created_at = choose|created_at: Instant|
                    states[i].samples@ == #[trigger] before.push(BufferEntry { created_at, value: sample });
                assert(sample_values(before.push(BufferEntry { created_at, value: sample }))
                    =~= sample_values(before).push(sample));
                assert(sample_values(states[0].samples@) + added_samples(messages.take(i))
                    =~= (sample_values(states[0].samples@) + added_samples(messages.take(i - 1))).push(sample));
            },
            _ => {
                assert(states[i].samples@ == before);
            },
        }
    }
}

proof fn lemma_run_waiting(
    states: Seq<BufferThreadState>,
    messages: Seq<BufferThreadMessage>,
    replies: Seq<Option<SerializationMessage>>,
    i: int,
)
    requires
        buffer_run(states, messages, replies),
        !states[0].is_waiting_for_one_sample,
        0 <= i <= messages.len(),
    ensures
        states[i].is_waiting_for_one_sample == waits_after(messages.take(i)),
    decreases i,
{
    if i == 0 {
        assert(messages.take(0) =~= Seq::<BufferThreadMessage>::empty());
    } else {
        lemma_run_waiting(states, messages, replies, i - 1);
        assert(messages.take(i).drop_last() =~= messages.take(i - 1));
        assert(messages.take(i).last() == messages[i - 1]);
        let j = i - 1;
        assert(handled(states[j], messages[j], states[j + 1], replies[j]));
        assert(states[j + 1] == states[i]);
    }
}

/// Over any sequence of messages, the samples buffer holds the samples it held
/// before, followed by the samples added, in order of arrival: no sample is
/// ever dropped. So each sample count answered counts every sample added up
/// to that request.
pub proof fn law_samples_are_kept_in_order_of_arrival(
    states: Seq<BufferThreadState>,
    messages: Seq<BufferThreadMessage>,
    replies: Seq<Option<SerializationMessage>>,
)
    requires
        buffer_run(states, messages, replies),
    ensures
        sample_values(states.last().samples@) == sample_values(states[0].samples@) + added_samples(messages),
        forall|i: int| 0 <= i < messages.len() && #[trigger] messages[i] is GetSampleCount
            ==> replies[i] == Some(SerializationMessage::SampleCount(
                (states[0].samples@.len() + added_samples(messages.take(i)).len()) as usize,
            )),
{
    lemma_run_keeps_samples(states, messages, replies, messages.len() as int);
    assert(messages.take(messages.len() as int) =~= messages);
    assert forall|i: int| 0 <= i < messages.len() && #[trigger] messages[i] is GetSampleCount
        implies replies[i] == Some(SerializationMessage::SampleCount(
            (states[0].samples@.len() + added_samples(messages.take(i)).len()) as usize,
        )) by {
        lemma_run_keeps_samples(states, messages, replies, i);
        assert(handled(states[i], messages[i], states[i + 1], replies[i]));
        assert(sample_values(states[i].samples@).len() == states[i].samples@.len());
    }
}

/// Over any sequence of messages, starting from a state that waits for
/// nothing: the core waits to hear of the next sample exactly when it asked
/// and no sample has arrived since, and each message gets one reply or none:
/// a reply exactly for a sample count request, a profile request, or the first
/// sample after a request to hear of it, which is told that a sample arrived.
pub proof fn law_one_reply_per_request(
    states: Seq<BufferThreadState>,
    messages: Seq<BufferThreadMessage>,
    replies: Seq<Option<SerializationMessage>>,
)
    requires
        buffer_run(states, messages, replies),
        !states[0].is_waiting_for_one_sample,
    ensures
        forall|i: int| 0 <= i <= messages.len()
            ==> #[trigger] states[i].is_waiting_for_one_sample == waits_after(messages.take(i)),
        forall|i: int| 0 <= i < messages.len() ==> ((#[trigger] replies[i]) is Some <==> {
            ||| messages[i] is GetSampleCount
            ||| messages[i] is SerializeBuffer
            ||| (messages[i] is AddSample && waits_after(messages.take(i)))
        }),
        forall|i: int| 0 <= i < messages.len() && messages[i] is AddSample && waits_after(messages.take(i))
            ==> #[trigger] replies[i] == Some(SerializationMessage::OneSampleReceived),
{
    assert forall|i: int| 0 <= i <= messages.len()
        implies #[trigger] states[i].is_waiting_for_one_sample == waits_after(messages.take(i)) by {
        lemma_run_waiting(states, messages, replies, i);
    }
    assert forall|i: int| 0 <= i < messages.len() implies ((#[trigger] replies[i]) is Some <==> {
        ||| messages[i] is GetSampleCount
        ||| messages[i] is SerializeBuffer
        ||| (messages[i] is AddSample && waits_after(messages.take(i)))
    }) by {
        lemma_run_waiting(states, messages, replies, i);
        assert(handled(states[i], messages[i], states[i + 1], replies[i]));
    }
    assert forall|i: int| 0 <= i < messages.len() && messages[i] is AddSample && waits_after(messages.take(i))
        implies #[trigger] replies[i] == Some(SerializationMessage::OneSampleReceived) by {
        lemma_run_waiting(states, messages, replies, i);
        assert(handled(states[i], messages[i], states[i + 1], replies[i]));
    }
}

impl BufferThreadState {
    /// Empty buffers whose entries live for `entry_lifetime`, timed by `clock`.
    pub fn new(entry_lifetime: Duration, clock: Clock) -> (s: BufferThreadState)
        ensures
            s.markers@.len() == 0,
            s.samples@.len() == 0,
            s.markers.entry_lifetime == entry_lifetime,
            s.samples.entry_lifetime == entry_lifetime,
            s.markers.clock == clock,
            s.samples.clock == clock,
            s.markers.in_clock_order(),
            s.samples.in_clock_order(),
            !s.is_waiting_for_one_sample,
    {
        BufferThreadState {
            markers: TimeExpiringBuffer::with_clock(entry_lifetime, clock),
            samples: TimeExpiringBuffer::with_clock(entry_lifetime, clock),
            is_waiting_for_one_sample: false,
        }
    }

    /// Whether a profile of the threads of `core_info` can be built now: the
    /// first sample of each of them, if any, has a frame.
    pub fn can_serialize(&self, core_info: &CoreInfoForSerialization) -> (b: bool)
        ensures
            b == samples_can_be_serialized(self.samples, core_info.thread_infos@),
    {
        let infos = &core_info.thread_infos;
        let mut i: usize = 0;
        while i < infos.len()
            invariant
                i <= infos@.len(),
                infos@ == core_info.thread_infos@,
                forall|j: int| 0 <= j < i ==> thread_samples_can_be_serialized(self.samples@, #[trigger] infos@[j].id),
            decreases infos@.len() - i,
        {
            let own = select_thread_samples(&self.samples, infos[i].id);
            if own.buffer.len() > 0 {
                let first = own.buffer[0].value.native_stack.first_instruction_ptr();
                if first.is_null() {
                    proof {
                        let own_entries = samples_of_thread(self.samples@, infos@[i as int].id);
                        assert(own@ == own_entries);
                        assert(sample_stacks(own_entries)[0]
                            == live_frames(own_entries[0].value.native_stack.instruction_ptrs()));
                        assert(!thread_samples_can_be_serialized(self.samples@, infos@[i as int].id));
                        assert(!samples_can_be_serialized(self.samples, core_info.thread_infos@));
                    }
                    return false;
                }
            }
            i = i + 1;
        }
        true
    }

    /// Builds the profile of thread `info`.
    pub fn serialize_thread(&self, info: &ThreadInfo, start: &Instant) -> (p: ThreadProfile)
        requires
            thread_samples_can_be_serialized(self.samples@, info.id),
        ensures
            is_thread_profile_of(p, *info, self.markers@, self.samples@, *start),
    {
        let own = select_thread_samples(&self.samples, info.id);
        let samples_serializer = SamplesSerializer::new(start, &own);
        let mut string_table = StringTable::new();
        let markers = serialize_thread_markers_in_buffer(&self.markers, info.id, start, &mut string_table);
        let samples = samples_serializer.serialize_samples();
        let stack_table = samples_serializer.serialize_stack_table();
        let frame_table = samples_serializer.serialize_frame_table();
        let strings = string_table.serialize();
        let ghost stacks = sample_stacks(own@);
        assert(samples.stack@ =~= Seq::new(own@.len(), |k: int| stack_index_of(stacks, k) as usize));
        ThreadProfile {
            name: info.name.clone(),
            tid: info.id,
            markers,
            samples,
            stack_table,
            frame_table,
            string_table: strings,
        }
    }

    /// Builds the profile from the buffers: one thread entry per registered
    /// thread.
    pub fn serialize_buffer(&self, core_info: &CoreInfoForSerialization) -> (p: Profile)
        requires
            samples_can_be_serialized(self.samples, core_info.thread_infos@),
        ensures
            is_profile_of(p, self.markers, self.samples, *core_info),
    {
        let infos = &core_info.thread_infos;
        let mut threads: Vec<ThreadProfile> = Vec::new();
        let mut i: usize = 0;
        while i < infos.len()
            invariant
                i <= infos@.len(),
                infos@ == core_info.thread_infos@,
                threads@.len() == i,
                samples_can_be_serialized(self.samples, infos@),
                forall|j: int| 0 <= j < i ==> is_thread_profile_of(
                    #[trigger] threads@[j],
                    infos@[j],
                    self.markers@,
                    self.samples@,
                    core_info.start_time,
                ),
            decreases infos@.len() - i,
        {
            assert(thread_samples_can_be_serialized(self.samples@, infos@[i as int].id));
            let thread = self.serialize_thread(&infos[i], &core_info.start_time);
            threads.push(thread);
            i = i + 1;
        }
        Profile {
            version: PROFILE_VERSION,
            product: "Rust Profiler",
            categories: categories(),
            interval: core_info.sampling_interval,
            threads,
        }
    }

    /// Handles one message, and gives the answer to send to the core, if any.
    pub fn handle_message(&mut self, message: BufferThreadMessage) -> (reply: Option<SerializationMessage>)
        requires
            message matches BufferThreadMessage::SerializeBuffer(core_info)
                ==> samples_can_be_serialized(old(self).samples, core_info.thread_infos@),
        ensures
            handled(*old(self), message, *final(self), reply),
    {
        match message {
            BufferThreadMessage::AddMarker(thread_id, marker) => {
                self.markers.push_back(ThreadMarker { thread_id, marker });
                None
            },
            BufferThreadMessage::AddSample(sample) => {
                self.samples.push_back(sample);
                if self.is_waiting_for_one_sample {
                    self.is_waiting_for_one_sample = false;
                    Some(SerializationMessage::OneSampleReceived)
                } else {
                    None
                }
            },
            BufferThreadMessage::ClearExpiredMarkers => {
                self.markers.remove_expired();
                None
            },
            BufferThreadMessage::SerializeBuffer(core_info) => {
                Some(SerializationMessage::Serialize(self.serialize_buffer(&core_info)))
            },
            BufferThreadMessage::GetSampleCount => {
                Some(SerializationMessage::SampleCount(self.samples.len()))
            },
            BufferThreadMessage::WaitingForOneSample => {
                self.is_waiting_for_one_sample = true;
                None
            },
        }
    }
}

} // verus!
