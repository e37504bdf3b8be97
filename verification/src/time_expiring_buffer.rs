//! A first-in, first-out buffer whose entries expire a fixed time after they
//! were created.
use vstd::prelude::*;
use std::collections::VecDeque;
use crate::time::{Clock, Duration, Instant};

verus! {

broadcast use vstd::std_specs::vecdeque::group_vec_dequeue_axioms;

/// A value in the buffer, with the moment it was created.
pub struct BufferEntry<T> {
    pub created_at: Instant,
    pub value: T,
}

/// Whether an entry created at `created_at` has outlived `lifetime` at `now`:
/// strictly more than `lifetime` has passed since its creation.
pub open spec fn is_expired(created_at: Instant, now: Instant, lifetime: Duration) -> bool {
    now.nanos - created_at.nanos > lifetime.nanos
}

/// Whether the entries of `s` were created in nondecreasing order of time.
pub open spec fn created_in_order<T>(s: Seq<BufferEntry<T>>) -> bool {
    forall|i: int, j: int| 0 <= i <= j < s.len() ==> s[i].created_at.nanos <= s[j].created_at.nanos
}

/// The number of entries at the front of `s` that have expired at `now`:
/// the entries that `remove_expired_at(now)` drops.
pub open spec fn expired_prefix_len<T>(s: Seq<BufferEntry<T>>, now: Instant, lifetime: Duration) -> nat
    decreases s.len(),
{
    if s.len() > 0 && is_expired(s[0].created_at, now, lifetime) {
        1 + expired_prefix_len(s.drop_first(), now, lifetime)
    } else {
        0
    }
}

/// The time-expiring buffer stores profiler data inside of a `VecDeque`, so that
/// information can always be added at the back, while older data is cycled out
/// at the front once it has expired.
pub struct TimeExpiringBuffer<T> {
    pub buffer: VecDeque<BufferEntry<T>>,
    pub entry_lifetime: Duration,
    pub clock: Clock,
}

impl<T> TimeExpiringBuffer<T> {
    /// The entries, oldest first.
    pub open spec fn view(&self) -> Seq<BufferEntry<T>> {
        self.buffer@
    }

    /// The entries were created in order of time, none later than the latest
    /// reading of the buffer's clock: so each entry that the clock stamps next
    /// comes after them all.
    pub open spec fn in_clock_order(&self) -> bool {
        &&& created_in_order(self@)
        &&& forall|i: int| 0 <= i < self@.len() ==> (#[trigger] self@[i]).created_at.nanos <= self.clock.latest()
    }

    /// An empty buffer whose entries live for `entry_lifetime`, timed by a clock
    /// that starts now.
    pub fn new(entry_lifetime: Duration) -> (b: TimeExpiringBuffer<T>)
        ensures
            b@ == Seq::<BufferEntry<T>>::empty(),
            b.entry_lifetime == entry_lifetime,
            b.in_clock_order(),
    {
        TimeExpiringBuffer { buffer: VecDeque::new(), entry_lifetime, clock: Clock::start() }
    }

    /// An empty buffer whose entries live for `entry_lifetime`, timed by `clock`.
    pub fn with_clock(entry_lifetime: Duration, clock: Clock) -> (b: TimeExpiringBuffer<T>)
        ensures
            b@ == Seq::<BufferEntry<T>>::empty(),
            b.entry_lifetime == entry_lifetime,
            b.clock == clock,
            b.in_clock_order(),
    {
        TimeExpiringBuffer { buffer: VecDeque::new(), entry_lifetime, clock }
    }

    /// Adds `value` at the back, stamped with the clock's present time, which
    /// is no earlier than any time the clock gave before.
    pub fn push_back(&mut self, value: T)
        ensures
            exists|created_at: Instant| {
                &&& final(self)@ == #[trigger] old(self)@.push(BufferEntry { created_at, value })
                &&& created_at.nanos >= old(self).clock.latest()
                &&& final(self).clock.latest() == created_at.nanos
            },
            final(self).clock.reads() == old(self).clock.reads() + 1,
            final(self)@.len() == old(self)@.len() + 1,
            final(self)@.drop_last() == old(self)@,
            final(self)@.last().value == value,
            final(self)@.last().created_at.nanos == final(self).clock.latest(),
            final(self)@.last().created_at.nanos >= old(self).clock.latest(),
            final(self).entry_lifetime == old(self).entry_lifetime,
            final(self).clock.origin() == old(self).clock.origin(),
            old(self).in_clock_order() ==> final(self).in_clock_order(),
    {
        let now = self.clock.now();
        proof {
            if old(self).in_clock_order() {
                law_push_in_time_keeps_order(old(self)@, BufferEntry { created_at: now, value });
            }
        }
        self.buffer.push_back(BufferEntry { created_at: now, value });
        assert(self@ == old(self)@.push(BufferEntry { created_at: now, value }));
        assert(self@.drop_last() =~= old(self)@);
    }

    /// Adds `value` at the back, stamped with `created_at`. This makes the
    /// buffer's behavior repeatable, which is mainly of use in tests.
    pub fn push_back_at(&mut self, value: T, created_at: Instant)
        ensures
            final(self)@ == old(self)@.push(BufferEntry { created_at, value }),
            final(self)@ == buffer_after(
                old(self)@,
                seq![BufferCall::Push(BufferEntry { created_at, value })],
                old(self).entry_lifetime,
            ),
            final(self).entry_lifetime == old(self).entry_lifetime,
            final(self).clock == old(self).clock,
    {
        self.buffer.push_back(BufferEntry { created_at, value });
        proof { lemma_one_call(old(self)@, BufferCall::Push(BufferEntry { created_at, value }), old(self).entry_lifetime); }
    }

    /// Drops, from the front, every entry that has expired at the clock's
    /// present time, stopping at the first entry that has not. When the
    /// entries are in clock order, that drops exactly the expired entries.
    pub fn remove_expired(&mut self)
        ensures
            exists|now: Instant| {
                &&& final(self)@ == old(self)@.skip(
                    #[trigger] expired_prefix_len(old(self)@, now, old(self).entry_lifetime) as int,
                )
                &&& now.nanos >= old(self).clock.latest()
                &&& final(self).clock.latest() == now.nanos
                &&& old(self).in_clock_order() ==> forall|i: int| 0 <= i < old(self)@.len()
                    ==> (is_expired(#[trigger] old(self)@[i].created_at, now, old(self).entry_lifetime)
                        <==> i < expired_prefix_len(old(self)@, now, old(self).entry_lifetime))
            },
            final(self).entry_lifetime == old(self).entry_lifetime,
            final(self).clock.origin() == old(self).clock.origin(),
            final(self).clock.reads() == old(self).clock.reads() + 1,
            old(self).in_clock_order() ==> final(self).in_clock_order(),
    {
        let now = self.clock.now();
        let ghost before = old(self)@;
        let ghost lifetime = self.entry_lifetime;
        proof {
            lemma_expired_prefix(before, now, lifetime);
            if old(self).in_clock_order() {
                law_ordered_buffer_has_no_expired_entry_left(before, now, lifetime);
                law_remove_expired_keeps_order(before, now, lifetime);
            }
        }
        self.remove_expired_at(now);
        proof {
            let k = expired_prefix_len(before, now, lifetime) as int;
            assert(self@ == before.skip(k));
            if old(self).in_clock_order() {
                assert forall|i: int| 0 <= i < self@.len()
                    implies (#[trigger] self@[i]).created_at.nanos <= self.clock.latest() by {
                    assert(self@[i] == before[k + i]);
                    assert(before[k + i].created_at.nanos <= old(self).clock.latest());
                }
            }
        }
    }

    /// Drops, from the front, every entry that has expired at `now`, stopping at
    /// the first entry that has not expired.
    pub fn remove_expired_at(&mut self, now: Instant)
        ensures
            final(self)@ == old(self)@.skip(expired_prefix_len(old(self)@, now, old(self).entry_lifetime) as int),
            final(self)@ == buffer_after(old(self)@, seq![BufferCall::RemoveExpiredAt(now)], old(self).entry_lifetime),
            forall|i: int| 0 <= i < old(self)@.len() - final(self)@.len()
                ==> is_expired(#[trigger] old(self)@[i].created_at, now, old(self).entry_lifetime),
            final(self)@.len() > 0 ==> !is_expired(final(self)@[0].created_at, now, old(self).entry_lifetime),
            final(self).entry_lifetime == old(self).entry_lifetime,
            final(self).clock == old(self).clock,
    {
        let ghost initial = self@;
        let ghost lifetime = self.entry_lifetime;
        let ghost mut removed: int = 0;
        proof { lemma_one_call(initial, BufferCall::RemoveExpiredAt(now), lifetime); }
        proof { lemma_expired_prefix(initial, now, lifetime); }
        while self.buffer.len() > 0
            invariant
                0 <= removed <= initial.len(),
                self@ == initial.skip(removed),
                self.entry_lifetime == lifetime,
                self.clock == old(self).clock,
                initial == old(self)@,
                lifetime == old(self).entry_lifetime,
                buffer_after(initial, seq![BufferCall::RemoveExpiredAt(now)], lifetime)
                    == initial.skip(expired_prefix_len(initial, now, lifetime) as int),
                expired_prefix_len(initial, now, lifetime)
                    == removed + expired_prefix_len(initial.skip(removed), now, lifetime),
            decreases self@.len(),
        {
            let created_at = self.buffer[0].created_at;
            let age = now.duration_since(created_at);
            if age.nanos > self.entry_lifetime.nanos {
                proof {
                    assert(initial.skip(removed).drop_first() =~= initial.skip(removed + 1));
                }
                self.buffer.pop_front();
                proof { removed = removed + 1; }
            } else {
                assert(!is_expired(initial.skip(removed)[0].created_at, now, lifetime));
                assert(expired_prefix_len(initial.skip(removed), now, lifetime) == 0);
                assert(expired_prefix_len(initial, now, lifetime) == removed);
                assert(self@.len() == initial.len() - removed);
                proof { lemma_expired_prefix(initial, now, lifetime); }
                return;
            }
        }
        proof {
            assert(self@.len() == 0);
        }
    }

    /// Iterates over the entries, oldest first.
    pub fn iter(&self) -> (it: std::collections::vec_deque::Iter<'_, BufferEntry<T>>)
        ensures
            vstd::std_specs::iter::IteratorSpec::remaining(&it) == self@.map_values(|e: BufferEntry<T>| &e),
    {
        self.buffer.iter()
    }

    /// The number of entries.
    pub fn len(&self) -> (n: usize)
        ensures
            n == self@.len(),
    {
        self.buffer.len()
    }
}

/// When the entries were created in order of time, removing the expired
/// entries at the front removes exactly the expired entries: an entry goes if
/// and only if it has expired, so no expired entry is left anywhere in the
/// buffer, and what is left is as long as the count of entries that have not.
pub proof fn law_ordered_buffer_has_no_expired_entry_left<T>(
    s: Seq<BufferEntry<T>>,
    now: Instant,
    lifetime: Duration,
)
    requires
        created_in_order(s),
    ensures
        forall|i: int| 0 <= i < s.len()
            ==> (is_expired(#[trigger] s[i].created_at, now, lifetime) <==> i < expired_prefix_len(s, now, lifetime)),
        forall|i: int| 0 <= i < s.skip(expired_prefix_len(s, now, lifetime) as int).len()
            ==> !is_expired(
                #[trigger] s.skip(expired_prefix_len(s, now, lifetime) as int)[i].created_at,
                now,
                lifetime,
            ),
{
    lemma_expired_prefix(s, now, lifetime);
    let k = expired_prefix_len(s, now, lifetime) as int;
    assert forall|i: int| 0 <= i < s.len()
        implies (is_expired(#[trigger] s[i].created_at, now, lifetime) <==> i < k) by {
        if i >= k {
            assert(s[k].created_at.nanos <= s[i].created_at.nanos);
        }
    }
    assert forall|i: int| 0 <= i < s.skip(k).len()
        implies !is_expired(#[trigger] s.skip(k)[i].created_at, now, lifetime) by {
        assert(s[k].created_at.nanos <= s[k + i].created_at.nanos);
    }
}

/// Removing expired entries keeps the entries in order of creation.
pub proof fn law_remove_expired_keeps_order<T>(
    s: Seq<BufferEntry<T>>,
    now: Instant,
    lifetime: Duration,
)
    requires
        created_in_order(s),
    ensures
        created_in_order(s.skip(expired_prefix_len(s, now, lifetime) as int)),
{
    lemma_expired_prefix(s, now, lifetime);
    let k = expired_prefix_len(s, now, lifetime) as int;
    assert forall|i: int, j: int| 0 <= i <= j < s.skip(k).len()
        implies s.skip(k)[i].created_at.nanos <= s.skip(k)[j].created_at.nanos by {
        assert(s.skip(k)[i] == s[k + i] && s.skip(k)[j] == s[k + j]);
    }
}

/// Adding an entry created no earlier than the newest one keeps the entries in
/// order of creation.
pub proof fn law_push_in_time_keeps_order<T>(s: Seq<BufferEntry<T>>, entry: BufferEntry<T>)
    requires
        created_in_order(s),
        s.len() > 0 ==> s.last().created_at.nanos <= entry.created_at.nanos,
    ensures
        created_in_order(s.push(entry)),
{
    assert forall|i: int, j: int| 0 <= i <= j < s.push(entry).len()
        implies s.push(entry)[i].created_at.nanos <= s.push(entry)[j].created_at.nanos by {
        if j == s.len() && i < s.len() {
            assert(s[i].created_at.nanos <= s[s.len() - 1].created_at.nanos);
        }
    }
}

/// A call that changes a buffer: adding an entry at the back, as
/// `push_back_at` does (and `push_back`, at the clock's reading), or removing
/// the entries at the front that have expired at a moment, as
/// `remove_expired_at` does (and `remove_expired`, at the clock's reading).
pub enum BufferCall<T> {
    Push(BufferEntry<T>),
    RemoveExpiredAt(Instant),
}

/// The entries of a buffer holding `s`, after `calls` in turn.
pub open spec fn buffer_after<T>(s: Seq<BufferEntry<T>>, calls: Seq<BufferCall<T>>, lifetime: Duration) -> Seq<BufferEntry<T>>
    decreases calls.len(),
{
    if calls.len() == 0 {
        s
    } else {
        let before = buffer_after(s, calls.drop_last(), lifetime);
        match calls.last() {
            BufferCall::Push(entry) => before.push(entry),
            BufferCall::RemoveExpiredAt(now) => before.skip(expired_prefix_len(before, now, lifetime) as int),
        }
    }
}

/// The entries that `calls` add, in order.
pub open spec fn pushed_entries<T>(calls: Seq<BufferCall<T>>) -> Seq<BufferEntry<T>>
    decreases calls.len(),
{
    if calls.len() == 0 {
        Seq::empty()
    } else {
        let rest = pushed_entries(calls.drop_last());
        match calls.last() {
            BufferCall::Push(entry) => rest.push(entry),
            BufferCall::RemoveExpiredAt(_) => rest,
        }
    }
}

/// How many entries `calls` remove from a buffer holding `s`, all removals
/// together.
pub open spec fn removed_count<T>(s: Seq<BufferEntry<T>>, calls: Seq<BufferCall<T>>, lifetime: Duration) -> nat
    decreases calls.len(),
{
    if calls.len() == 0 {
        0
    } else {
        let rest = removed_count(s, calls.drop_last(), lifetime);
        match calls.last() {
            BufferCall::Push(_) => rest,
            BufferCall::RemoveExpiredAt(now) =>
                rest + expired_prefix_len(buffer_after(s, calls.drop_last(), lifetime), now, lifetime),
        }
    }
}

/// One call does to the buffer what its case of `buffer_after` says.
proof fn lemma_one_call<T>(s: Seq<BufferEntry<T>>, call: BufferCall<T>, lifetime: Duration)
    ensures
        buffer_after(s, seq![call], lifetime) == match call {
            BufferCall::Push(entry) => s.push(entry),
            BufferCall::RemoveExpiredAt(now) => s.skip(expired_prefix_len(s, now, lifetime) as int),
        },
{
    let calls = seq![call];
    assert(calls.drop_last() =~= Seq::<BufferCall<T>>::empty());
    assert(calls.last() == call);
    assert(buffer_after(s, calls.drop_last(), lifetime) == s);
}

/// Over any sequence of calls, the buffer is first in, first out: it holds
/// what it held and what was added, in order, less the oldest entries that
/// the removals took. So its length is the entries it held, plus the entries
/// added, less the entries removed.
pub proof fn law_buffer_is_first_in_first_out<T>(s: Seq<BufferEntry<T>>, calls: Seq<BufferCall<T>>, lifetime: Duration)
    ensures
        removed_count(s, calls, lifetime) <= s.len() + pushed_entries(calls).len(),
        buffer_after(s, calls, lifetime) == (s + pushed_entries(calls)).skip(removed_count(s, calls, lifetime) as int),
        buffer_after(s, calls, lifetime).len()
            == s.len() + pushed_entries(calls).len() - removed_count(s, calls, lifetime),
    decreases calls.len(),
{
    if calls.len() == 0 {
        assert(s + Seq::<BufferEntry<T>>::empty() =~= s);
        assert(s.skip(0) =~= s);
    } else {
        let prefix = calls.drop_last();
        law_buffer_is_first_in_first_out(s, prefix, lifetime);
        let before = buffer_after(s, prefix, lifetime);
        let x = s + pushed_entries(prefix);
        let d = removed_count(s, prefix, lifetime) as int;
        match calls.last() {
            BufferCall::Push(entry) => {
                assert(s + pushed_entries(calls) =~= x.push(entry));
                assert(x.skip(d).push(entry) =~= x.push(entry).skip(d));
            },
            BufferCall::RemoveExpiredAt(now) => {
                lemma_expired_prefix(before, now, lifetime);
                let m = expired_prefix_len(before, now, lifetime) as int;
                assert(s + pushed_entries(calls) =~= x);
                assert(x.skip(d).skip(m) =~= x.skip(d + m));
            },
        }
    }
}

/// The entries before `expired_prefix_len` have expired, and the entry at that
/// position, if any, has not.
pub(crate) proof fn lemma_expired_prefix<T>(s: Seq<BufferEntry<T>>, now: Instant, lifetime: Duration)
    ensures
        expired_prefix_len(s, now, lifetime) <= s.len(),
        forall|i: int| 0 <= i < expired_prefix_len(s, now, lifetime)
            ==> is_expired(#[trigger] s[i].created_at, now, lifetime),
        expired_prefix_len(s, now, lifetime) < s.len()
            ==> !is_expired(s[expired_prefix_len(s, now, lifetime) as int].created_at, now, lifetime),
    decreases s.len(),
{
    if s.len() > 0 && is_expired(s[0].created_at, now, lifetime) {
        let t = s.drop_first();
        lemma_expired_prefix(t, now, lifetime);
        assert forall|i: int| 0 <= i < expired_prefix_len(s, now, lifetime)
            implies is_expired(#[trigger] s[i].created_at, now, lifetime) by {
            if i > 0 {
                assert(s[i] == t[i - 1]);
            }
        }
    }
}

} // verus!
