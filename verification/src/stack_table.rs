//! The stack table: a tree of frames, stored as a list of entries. Each entry
//! holds a frame's address and the entry of the frame that called it, its
//! prefix; the entry therefore stands for the path of frames from a root frame
//! down to its own. A stack's frames are read in the order its native stack
//! holds them, the frame at index 0 taken as the root. Every path of frames
//! that the samples hold, root first, has exactly one entry.
use vstd::prelude::*;
use crate::sampler::{ProcessMemoryAddress, StackForSerialization};

verus! {

/// The index of the first entry of `table`, from `from` on, equal to `entry`;
/// the table's length when there is none.
pub open spec fn first_index_of(table: Seq<StackForSerialization>, entry: StackForSerialization, from: int) -> int
    decreases table.len() - from,
{
    if from < 0 || from >= table.len() {
        table.len() as int
    } else if table[from] == entry {
        from
    } else {
        first_index_of(table, entry, from + 1)
    }
}

/// Places the frame `ip` under the entry `prefix`: the entry with that prefix
/// and address, which is appended when the table has none. Gives the table
/// and the frame's entry.
pub open spec fn place_frame(
    table: Seq<StackForSerialization>,
    prefix: Option<usize>,
    ip: ProcessMemoryAddress,
) -> (Seq<StackForSerialization>, int) {
    let entry = StackForSerialization { prefix, instruction_ptr: ip };
    let j = first_index_of(table, entry, 0);
    if j < table.len() {
        (table, j)
    } else {
        (table.push(entry), table.len() as int)
    }
}

/// Places the frames of a stack, root (index 0) first, each under the one before, the
/// first under `prefix`. Gives the table and the entry of the last frame
/// (`prefix` when there are no frames).
pub open spec fn place_frames(
    table: Seq<StackForSerialization>,
    prefix: Option<usize>,
    frames: Seq<ProcessMemoryAddress>,
) -> (Seq<StackForSerialization>, Option<usize>)
    decreases frames.len(),
{
    if frames.len() == 0 {
        (table, prefix)
    } else {
        let (t, j) = place_frame(table, prefix, frames[0]);
        place_frames(t, Some(j as usize), frames.drop_first())
    }
}

/// The stack table once the first `n` stacks have been placed.
pub open spec fn stack_table_after(stacks: Seq<Seq<ProcessMemoryAddress>>, n: nat) -> Seq<StackForSerialization>
    decreases n,
{
    if n == 0 {
        Seq::empty()
    } else {
        place_frames(stack_table_after(stacks, (n - 1) as nat), None, stacks[n - 1]).0
    }
}

/// The entry of stack `k`: the entry of its last frame; the first entry for a
/// stack without frames.
pub open spec fn stack_index_of(stacks: Seq<Seq<ProcessMemoryAddress>>, k: int) -> int {
    match place_frames(stack_table_after(stacks, k as nat), None, stacks[k]).1 {
        Some(j) => j as int,
        None => 0,
    }
}

/// The stack table of all the stacks.
pub open spec fn stack_table_of(stacks: Seq<Seq<ProcessMemoryAddress>>) -> Seq<StackForSerialization> {
    stack_table_after(stacks, stacks.len())
}

/// The path of frames that entry `i` stands for, root first: the path of its
/// prefix, then its own address.
pub open spec fn stack_path(table: Seq<StackForSerialization>, i: int) -> Seq<ProcessMemoryAddress>
    decreases i,
{
    if 0 <= i < table.len() {
        match table[i].prefix {
            Some(p) => if p < i {
                stack_path(table, p as int).push(table[i].instruction_ptr)
            } else {
                seq![table[i].instruction_ptr]
            },
            None => seq![table[i].instruction_ptr],
        }
    } else {
        Seq::empty()
    }
}

/// The path of frames under `prefix`: empty for none, the prefix's path otherwise.
pub open spec fn prefix_path(table: Seq<StackForSerialization>, prefix: Option<usize>) -> Seq<ProcessMemoryAddress> {
    match prefix {
        Some(p) => stack_path(table, p as int),
        None => Seq::empty(),
    }
}

/// `a` is a prefix of `b`: `b` holds every entry of `a` at the same place.
pub open spec fn extends(b: Seq<StackForSerialization>, a: Seq<StackForSerialization>) -> bool {
    &&& a.len() <= b.len()
    &&& forall|i: int| 0 <= i < a.len() ==> #[trigger] b[i] == a[i]
}

/// Every prefix names an earlier entry, no entry has the null address, and no
/// entry occurs twice.
pub open spec fn stack_table_well_formed(table: Seq<StackForSerialization>) -> bool {
    &&& forall|i: int| 0 <= i < table.len() ==> {
        &&& (#[trigger] table[i]).instruction_ptr.value != 0
        &&& (table[i].prefix matches Some(p) ==> p < i)
    }
    &&& forall|i: int, j: int| 0 <= i < j < table.len() ==> table[i] != table[j]
}

/// No frame of any stack has the null address.
pub open spec fn stacks_have_no_null_frame(stacks: Seq<Seq<ProcessMemoryAddress>>) -> bool {
    forall|k: int, i: int| 0 <= k < stacks.len() && 0 <= i < stacks[k].len()
        ==> (#[trigger] stacks[k][i]).value != 0
}

/// `path` is the path of some entry of `table`.
pub open spec fn has_entry_for(table: Seq<StackForSerialization>, path: Seq<ProcessMemoryAddress>) -> bool {
    exists|i: int| 0 <= i < table.len() && #[trigger] stack_path(table, i) == path
}

/// `path` is a non-empty root part of one of the stacks.
pub open spec fn is_root_path_of(stacks: Seq<Seq<ProcessMemoryAddress>>, path: Seq<ProcessMemoryAddress>) -> bool {
    exists|k: int, m: int| 0 <= k < stacks.len() && 1 <= m <= stacks[k].len() && path == #[trigger] stacks[k].take(m)
}

// ---------------------------------------------------------------------------
// Lemmas

proof fn lemma_first_index_of(table: Seq<StackForSerialization>, entry: StackForSerialization, from: int)
    requires
        0 <= from <= table.len(),
    ensures
        from <= first_index_of(table, entry, from) <= table.len(),
        first_index_of(table, entry, from) < table.len() ==> table[first_index_of(table, entry, from)] == entry,
        forall|m: int| from <= m < first_index_of(table, entry, from) ==> table[m] != entry,
    decreases table.len() - from,
{
    if from < table.len() && table[from] != entry {
        lemma_first_index_of(table, entry, from + 1);
    }
}

/// Paths of the entries of a table do not change when the table is extended.
proof fn lemma_path_stable(t: Seq<StackForSerialization>, later: Seq<StackForSerialization>, i: int)
    requires
        extends(later, t),
        0 <= i < t.len(),
    ensures
        stack_path(later, i) == stack_path(t, i),
    decreases i,
{
    assert(later[i] == t[i]);
    if let Some(p) = t[i].prefix {
        if p < i {
            lemma_path_stable(t, later, p as int);
        }
    }
}

/// The path of an entry is not empty and ends in the entry's address.
proof fn lemma_path_ends_in_entry(t: Seq<StackForSerialization>, i: int)
    requires
        0 <= i < t.len(),
    ensures
        stack_path(t, i).len() >= 1,
        stack_path(t, i).last() == t[i].instruction_ptr,
        (t[i].prefix is None || t[i].prefix->0 >= i) ==> stack_path(t, i).len() == 1,
        forall|p: usize| t[i].prefix == Some(p) && p < i ==> stack_path(t, i).drop_last() == stack_path(t, p as int),
    decreases i,
{
    if let Some(p) = t[i].prefix {
        if p < i {
            lemma_path_ends_in_entry(t, p as int);
            assert(stack_path(t, i).drop_last() =~= stack_path(t, p as int));
        }
    }
}

/// In a well formed table, entries with the same path are the same entry.
proof fn lemma_path_injective(t: Seq<StackForSerialization>, i: int, j: int)
    requires
        stack_table_well_formed(t),
        0 <= i < t.len(),
        0 <= j < t.len(),
        stack_path(t, i) == stack_path(t, j),
    ensures
        i == j,
    decreases i + j,
{
    lemma_path_ends_in_entry(t, i);
    lemma_path_ends_in_entry(t, j);
    assert(t[i].instruction_ptr == t[j].instruction_ptr);
    match (t[i].prefix, t[j].prefix) {
        (Some(p), Some(q)) => {
            lemma_path_ends_in_entry(t, p as int);
            lemma_path_ends_in_entry(t, q as int);
            lemma_path_injective(t, p as int, q as int);
        },
        (Some(p), None) => {
            lemma_path_ends_in_entry(t, p as int);
        },
        (None, Some(q)) => {
            lemma_path_ends_in_entry(t, q as int);
        },
        (None, None) => {},
    }
    assert(t[i] == t[j]);
}

/// Placing a frame only ever appends; the frame's entry has the given prefix
/// and address, and the table stays well formed.
proof fn lemma_place_frame(table: Seq<StackForSerialization>, prefix: Option<usize>, ip: ProcessMemoryAddress)
    requires
        stack_table_well_formed(table),
        prefix matches Some(p) ==> p < table.len(),
        ip.value != 0,
    ensures
        ({
            let (t, j) = place_frame(table, prefix, ip);
            &&& extends(t, table)
            &&& 0 <= j < t.len()
            &&& t[j] == (StackForSerialization { prefix, instruction_ptr: ip })
            &&& stack_table_well_formed(t)
            &&& t.len() == table.len() || (t.len() == table.len() + 1 && j == table.len())
        }),
{
    let entry = StackForSerialization { prefix, instruction_ptr: ip };
    lemma_first_index_of(table, entry, 0);
    let (t, j) = place_frame(table, prefix, ip);
    if j == table.len() {
        assert forall|a: int, b: int| 0 <= a < b < t.len() implies t[a] != t[b] by {
            if b == table.len() {
                assert(t[a] == table[a]);
            } else {
                assert(t[a] == table[a] && t[b] == table[b]);
            }
        }
        assert forall|i: int| 0 <= i < t.len() implies {
            &&& (#[trigger] t[i]).instruction_ptr.value != 0
            &&& (t[i].prefix matches Some(p) ==> p < i)
        } by {
            if i < table.len() {
                assert(t[i] == table[i]);
            }
        }
    }
}

/// Placing the frames of a stack under `prefix` only ever appends, keeps the
/// table well formed, gives the last frame an entry whose path is the prefix's
/// path followed by the frames, gives every part of the frames from the first
/// one an entry, and gives every appended entry such a part as its path.
proof fn lemma_place_frames(
    table: Seq<StackForSerialization>,
    prefix: Option<usize>,
    frames: Seq<ProcessMemoryAddress>,
)
    requires
        stack_table_well_formed(table),
        prefix matches Some(p) ==> p < table.len(),
        forall|i: int| 0 <= i < frames.len() ==> (#[trigger] frames[i]).value != 0,
        place_frames(table, prefix, frames).0.len() <= usize::MAX + 1,
    ensures
        ({
            let (t, last) = place_frames(table, prefix, frames);
            &&& extends(t, table)
            &&& stack_table_well_formed(t)
            &&& frames.len() == 0 ==> t == table && last == prefix
            &&& frames.len() > 0 ==> (last matches Some(j) && j < t.len()
                && stack_path(t, j as int) == prefix_path(table, prefix) + frames)
            &&& forall|m: int| 1 <= m <= frames.len()
                ==> has_entry_for(t, #[trigger] (prefix_path(table, prefix) + frames.take(m)))
            &&& forall|i: int| table.len() <= i < t.len()
                ==> exists|m: int| 1 <= m <= frames.len()
                    && #[trigger] stack_path(t, i) == prefix_path(table, prefix) + frames.take(m)
        }),
    decreases frames.len(),
{
    if frames.len() > 0 {
        let ip = frames[0];
        let (t1, j) = place_frame(table, prefix, ip);
        lemma_place_frame(table, prefix, ip);
        let rest = frames.drop_first();
        assert forall|i: int| 0 <= i < rest.len() implies (#[trigger] rest[i]).value != 0 by {
            assert(rest[i] == frames[i + 1]);
        }
        lemma_place_frames(t1, Some(j as usize), rest);
        let (t, last) = place_frames(t1, Some(j as usize), rest);
        assert(j as usize == j);
        // The path of the first frame's entry.
        let base = prefix_path(table, prefix);
        assert(stack_path(t1, j) == base.push(ip)) by {
            match prefix {
                Some(p) => {
                    lemma_path_stable(table, t1, p as int);
                },
                None => {
                    assert(base =~= Seq::<ProcessMemoryAddress>::empty());
                    assert(seq![ip] =~= Seq::<ProcessMemoryAddress>::empty().push(ip));
                },
            }
        }
        assert(prefix_path(t1, Some(j as usize)) == base.push(ip));
        assert forall|m: int| 0 <= m <= rest.len() implies
            #[trigger] (base.push(ip) + rest.take(m)) == base + frames.take(m + 1) by {
            assert(base.push(ip) + rest.take(m) =~= base + frames.take(m + 1));
        }
        assert(extends(t, table)) by {
            assert forall|i: int| 0 <= i < table.len() implies #[trigger] t[i] == table[i] by {
                assert(t1[i] == table[i]);
            }
        }
        if rest.len() > 0 {
            assert(base.push(ip) + rest == base + frames) by {
                assert(rest.take(rest.len() as int) =~= rest);
                assert(frames.take(frames.len() as int) =~= frames);
            }
        } else {
            assert(base + frames =~= base.push(ip));
            lemma_path_stable(t1, t, j);
        }
        assert forall|m: int| 1 <= m <= frames.len()
            implies has_entry_for(t, #[trigger] (base + frames.take(m))) by {
            if m == 1 {
                lemma_path_stable(t1, t, j);
                assert(base + frames.take(1) =~= base.push(ip));
                assert(stack_path(t, j) == base + frames.take(1));
            } else {
                assert(base.push(ip) + rest.take(m - 1) == base + frames.take(m));
                assert(has_entry_for(t, base.push(ip) + rest.take(m - 1)));
            }
        }
        assert forall|i: int| table.len() <= i < t.len()
            implies exists|m: int| 1 <= m <= frames.len()
                && #[trigger] stack_path(t, i) == base + frames.take(m) by {
            if i < t1.len() {
                // The entry of the first frame was appended.
                assert(i == j);
                lemma_path_stable(t1, t, j);
                assert(base + frames.take(1) =~= base.push(ip));
                assert(stack_path(t, i) == base + frames.take(1));
            } else {
                let m = choose|m: int| 1 <= m <= rest.len()
                    && #[trigger] stack_path(t, i) == base.push(ip) + rest.take(m);
                assert(base.push(ip) + rest.take(m) == base + frames.take(m + 1));
                assert(stack_path(t, i) == base + frames.take(m + 1));
            }
        }
    } else {
    }
}

/// The table after `m` stacks is a prefix of the table after `n >= m` stacks.
proof fn lemma_stack_table_grows(stacks: Seq<Seq<ProcessMemoryAddress>>, m: nat, n: nat)
    requires
        m <= n <= stacks.len(),
    ensures
        extends(stack_table_after(stacks, n), stack_table_after(stacks, m)),
    decreases n - m,
{
    if m < n {
        lemma_stack_table_grows(stacks, m, (n - 1) as nat);
        let before = stack_table_after(stacks, (n - 1) as nat);
        lemma_place_frames_extends(before, None, stacks[n - 1]);
        let after = stack_table_after(stacks, n);
        let start = stack_table_after(stacks, m);
        assert forall|i: int| 0 <= i < start.len() implies #[trigger] after[i] == start[i] by {
            assert(before[i] == start[i]);
        }
    }
}

/// Placing frames only ever appends (whatever the table holds).
proof fn lemma_place_frames_extends(
    table: Seq<StackForSerialization>,
    prefix: Option<usize>,
    frames: Seq<ProcessMemoryAddress>,
)
    ensures
        extends(place_frames(table, prefix, frames).0, table),
    decreases frames.len(),
{
    if frames.len() > 0 {
        let (t1, j) = place_frame(table, prefix, frames[0]);
        let entry = StackForSerialization { prefix, instruction_ptr: frames[0] };
        lemma_first_index_of(table, entry, 0);
        lemma_place_frames_extends(t1, Some(j as usize), frames.drop_first());
        let t = place_frames(table, prefix, frames).0;
        assert forall|i: int| 0 <= i < table.len() implies #[trigger] t[i] == table[i] by {
            assert(t1[i] == table[i]);
        }
    }
}

/// After `n` stacks the table is well formed, the stacks placed so far point to
/// entries that spell them, every root part of them has an entry, and every
/// entry spells such a root part.
proof fn lemma_table_after(stacks: Seq<Seq<ProcessMemoryAddress>>, n: nat)
    requires
        n <= stacks.len(),
        stacks_have_no_null_frame(stacks),
        stack_table_of(stacks).len() <= usize::MAX + 1,
    ensures
        stack_table_well_formed(stack_table_after(stacks, n)),
        forall|k: int| 0 <= k < n && stacks[k].len() > 0 ==> {
            &&& 0 <= #[trigger] stack_index_of(stacks, k) < stack_table_after(stacks, n).len()
            &&& stack_path(stack_table_after(stacks, n), stack_index_of(stacks, k)) == stacks[k]
        },
        forall|k: int, m: int| 0 <= k < n && 1 <= m <= stacks[k].len()
            ==> has_entry_for(stack_table_after(stacks, n), #[trigger] stacks[k].take(m)),
        forall|i: int| 0 <= i < stack_table_after(stacks, n).len()
            ==> is_root_path_of(stacks.take(n as int), #[trigger] stack_path(stack_table_after(stacks, n), i)),
    decreases n,
{
    if n > 0 {
        let p = (n - 1) as nat;
        lemma_table_after(stacks, p);
        lemma_stack_table_grows(stacks, n, stacks.len());
        let before = stack_table_after(stacks, p);
        let after = stack_table_after(stacks, n);
        let frames = stacks[p as int];
        assert forall|i: int| 0 <= i < frames.len() implies (#[trigger] frames[i]).value != 0 by {
            assert(stacks[p as int][i].value != 0);
        }
        lemma_place_frames(before, None, frames);
        assert(prefix_path(before, None) == Seq::<ProcessMemoryAddress>::empty());
        assert forall|m: int| 0 <= m <= frames.len() implies
            #[trigger] (Seq::<ProcessMemoryAddress>::empty() + frames.take(m)) == frames.take(m) by {
            assert(Seq::<ProcessMemoryAddress>::empty() + frames.take(m) =~= frames.take(m));
        }
        assert(Seq::<ProcessMemoryAddress>::empty() + frames =~= frames);
        // Stacks placed before keep their entries and paths.
        assert forall|k: int| 0 <= k < n && stacks[k].len() > 0 implies {
            &&& 0 <= #[trigger] stack_index_of(stacks, k) < after.len()
            &&& stack_path(after, stack_index_of(stacks, k)) == stacks[k]
        } by {
            if k < p {
                lemma_path_stable(before, after, stack_index_of(stacks, k));
            }
        }
        assert forall|k: int, m: int| 0 <= k < n && 1 <= m <= stacks[k].len()
            implies has_entry_for(after, #[trigger] stacks[k].take(m)) by {
            if k < p {
                let i = choose|i: int| 0 <= i < before.len() && #[trigger] stack_path(before, i) == stacks[k].take(m);
                lemma_path_stable(before, after, i);
                assert(stack_path(after, i) == stacks[k].take(m));
            } else {
                assert(has_entry_for(after, Seq::<ProcessMemoryAddress>::empty() + frames.take(m)));
            }
        }
        assert forall|i: int| 0 <= i < after.len()
            implies is_root_path_of(stacks.take(n as int), #[trigger] stack_path(after, i)) by {
            if i < before.len() {
                lemma_path_stable(before, after, i);
                assert(is_root_path_of(stacks.take(p as int), stack_path(before, i)));
                let (k, m) = choose|k: int, m: int| 0 <= k < stacks.take(p as int).len()
                    && 1 <= m <= stacks.take(p as int)[k].len()
                    && stack_path(before, i) == #[trigger] stacks.take(p as int)[k].take(m);
                assert(stacks.take(n as int)[k] == stacks.take(p as int)[k]);
                assert(stack_path(after, i) == stacks.take(n as int)[k].take(m));
            } else {
                let m = choose|m: int| 1 <= m <= frames.len()
                    && #[trigger] stack_path(after, i) == Seq::<ProcessMemoryAddress>::empty() + frames.take(m);
                assert(stacks.take(n as int)[p as int] == frames);
                assert(stack_path(after, i) == stacks.take(n as int)[p as int].take(m));
            }
        }
    } else {
        assert(stack_table_after(stacks, 0) =~= Seq::<StackForSerialization>::empty());
    }
}

// ---------------------------------------------------------------------------
// Laws

/// The table grows by appending only: the stack table after the first `m`
/// stacks is a prefix of the table after the first `n >= m` stacks.
pub proof fn law_stack_table_only_appends(stacks: Seq<Seq<ProcessMemoryAddress>>, m: nat, n: nat)
    requires
        m <= n <= stacks.len(),
    ensures
        extends(stack_table_after(stacks, n), stack_table_after(stacks, m)),
{
    lemma_stack_table_grows(stacks, m, n);
}

/// The stack table is a tree of the stacks' paths: every prefix names an
/// earlier entry, no address is null, no entry occurs twice, and each sample
/// with frames points to the entry whose path is exactly its frames, root
/// first. A sample without frames points to the first entry.
pub proof fn law_stack_table_spells_each_stack(stacks: Seq<Seq<ProcessMemoryAddress>>)
    requires
        stacks_have_no_null_frame(stacks),
        stack_table_of(stacks).len() <= usize::MAX + 1,
    ensures
        stack_table_well_formed(stack_table_of(stacks)),
        forall|k: int| 0 <= k < stacks.len() && stacks[k].len() > 0 ==> {
            &&& 0 <= #[trigger] stack_index_of(stacks, k) < stack_table_of(stacks).len()
            &&& stack_path(stack_table_of(stacks), stack_index_of(stacks, k)) == stacks[k]
        },
        forall|k: int| 0 <= k < stacks.len() && stacks[k].len() == 0 ==> #[trigger] stack_index_of(stacks, k) == 0,
{
    lemma_table_after(stacks, stacks.len());
    assert forall|k: int| 0 <= k < stacks.len() && stacks[k].len() == 0
        implies #[trigger] stack_index_of(stacks, k) == 0 by {
    }
}

/// The entries of the stack table are exactly the root paths of the stacks:
/// every non-empty root part of a stack has an entry, every entry's path is
/// such a part, and no two entries have the same path. So there is one entry
/// per distinct root path, none missing and none extra.
pub proof fn law_one_entry_per_root_path(stacks: Seq<Seq<ProcessMemoryAddress>>)
    requires
        stacks_have_no_null_frame(stacks),
        stack_table_of(stacks).len() <= usize::MAX + 1,
    ensures
        forall|k: int, m: int| 0 <= k < stacks.len() && 1 <= m <= stacks[k].len()
            ==> has_entry_for(stack_table_of(stacks), #[trigger] stacks[k].take(m)),
        forall|i: int| 0 <= i < stack_table_of(stacks).len()
            ==> is_root_path_of(stacks, #[trigger] stack_path(stack_table_of(stacks), i)),
        forall|i: int, j: int| 0 <= i < stack_table_of(stacks).len() && 0 <= j < stack_table_of(stacks).len()
            && #[trigger] stack_path(stack_table_of(stacks), i) == #[trigger] stack_path(stack_table_of(stacks), j)
            ==> i == j,
{
    lemma_table_after(stacks, stacks.len());
    assert(stacks.take(stacks.len() as int) =~= stacks);
    let t = stack_table_of(stacks);
    assert forall|i: int, j: int| 0 <= i < t.len() && 0 <= j < t.len()
        && #[trigger] stack_path(t, i) == #[trigger] stack_path(t, j) implies i == j by {
        lemma_path_injective(t, i, j);
    }
}

/// Two samples with the same frames point to the same stack table entry.
pub proof fn law_identical_stacks_share_an_entry(stacks: Seq<Seq<ProcessMemoryAddress>>, a: int, b: int)
    requires
        stacks_have_no_null_frame(stacks),
        stack_table_of(stacks).len() <= usize::MAX + 1,
        0 <= a < stacks.len(),
        0 <= b < stacks.len(),
        stacks[a] == stacks[b],
    ensures
        stack_index_of(stacks, a) == stack_index_of(stacks, b),
{
    law_stack_table_spells_each_stack(stacks);
    if stacks[a].len() > 0 {
        lemma_path_injective(stack_table_of(stacks), stack_index_of(stacks, a), stack_index_of(stacks, b));
    }
}

} // verus!
