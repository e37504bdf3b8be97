//! Markers: named moments that a thread records, and their rows in the
//! profile's markers table.
use vstd::prelude::*;
use crate::sampler::time_column_value;
use crate::string_table::{intern, law_intern, strings_distinct, StringTable};
use crate::time::Instant;
use crate::time_expiring_buffer::{BufferEntry, TimeExpiringBuffer};

verus! {

broadcast use vstd::std_specs::vecdeque::group_vec_dequeue_axioms;

/// One row of the markers table, following its schema: the string table index
/// of the marker's name, the milliseconds from the thread's start, and the
/// category.
#[derive(Clone, Copy, Debug, PartialEq, Eq, Structural)]
pub struct MarkerTuple {
    pub name: usize,
    pub time: u64,
    pub category: u32,
}

/// A marker turns itself into a row of the markers table, interning the
/// strings it needs in the string table.
pub trait Marker: Send {
    /// The row, and the string table afterwards, for a marker created at
    /// `created_at` in a thread that started at `thread_start`, with the
    /// string table `strings` before.
    spec fn spec_serialize(
        &self,
        thread_start: Instant,
        created_at: Instant,
        strings: Seq<Seq<char>>,
    ) -> (MarkerTuple, Seq<Seq<char>>);

    fn serialize(
        &self,
        thread_start: &Instant,
        created_at: &Instant,
        string_table: &mut StringTable,
    ) -> (row: MarkerTuple)
        requires
            old(string_table).well_formed(),
        ensures
            final(string_table).well_formed(),
            (row, final(string_table)@) == self.spec_serialize(*thread_start, *created_at, old(string_table)@),
    ;
}

/// A marker named by a static string.
pub struct StaticStringMarker {
    pub string: &'static str,
}

impl StaticStringMarker {
    pub fn new(string: &'static str) -> (m: StaticStringMarker)
        ensures
            m.string@ == string@,
    {
        StaticStringMarker { string }
    }
}

impl Marker for StaticStringMarker {
    /// The row names the marker's string, gives the milliseconds since the
    /// thread's start, and has category zero.
    open spec fn spec_serialize(
        &self,
        thread_start: Instant,
        created_at: Instant,
        strings: Seq<Seq<char>>,
    ) -> (MarkerTuple, Seq<Seq<char>>) {
        let (table, index) = intern(strings, self.string@);
        (MarkerTuple { name: index as usize, time: time_column_value(created_at, thread_start), category: 0 }, table)
    }

    fn serialize(
        &self,
        thread_start: &Instant,
        created_at: &Instant,
        string_table: &mut StringTable,
    ) -> (row: MarkerTuple) {
        let time = created_at.duration_since(*thread_start).as_millis();
        let name = string_table.get_index(self.string);
        MarkerTuple { name, time: time as u64, category: 0 }
    }
}

/// The row of a static string marker names its string: the string table
/// afterwards holds the marker's string at the row's name index, keeps every
/// string it held before at the same index, and still holds no string twice.
pub proof fn law_static_marker_row_names_its_string(
    marker: StaticStringMarker,
    thread_start: Instant,
    created_at: Instant,
    strings: Seq<Seq<char>>,
)
    requires
        strings_distinct(strings),
        strings.len() < usize::MAX,
    ensures
        ({
            let (row, table) = marker.spec_serialize(thread_start, created_at, strings);
            &&& 0 <= row.name < table.len()
            &&& table[row.name as int] == marker.string@
            &&& strings.is_prefix_of(table)
            &&& strings_distinct(table)
            &&& row.time == time_column_value(created_at, thread_start)
            &&& row.category == 0
        }),
{
    law_intern(strings, marker.string@);
}

/// Where each field of a marker stands in a row of the markers table.
#[derive(Clone, Copy, Debug, PartialEq, Eq, Structural)]
pub struct MarkerSchema {
    pub name: usize,
    pub time: usize,
    pub category: usize,
    pub data: usize,
}

/// The layout of a row: the name, then the time, the category and the data.
pub open spec fn marker_schema() -> MarkerSchema {
    MarkerSchema { name: 0, time: 1, category: 2, data: 3 }
}

impl MarkerSchema {
    /// The layout of a row of the markers table.
    pub fn new() -> (s: MarkerSchema)
        ensures
            s == marker_schema(),
    {
        MarkerSchema { name: 0, time: 1, category: 2, data: 3 }
    }
}

/// The markers table: the layout of its rows, and one row per marker.
pub struct MarkersTable {
    pub schema: MarkerSchema,
    pub data: Vec<MarkerTuple>,
}

/// The rows of the first `n` markers of `entries`, serialized in order from the
/// string table `strings`, and the string table afterwards.
pub open spec fn markers_after(
    entries: Seq<BufferEntry<Box<dyn Marker>>>,
    thread_start: Instant,
    strings: Seq<Seq<char>>,
    n: nat,
) -> (Seq<MarkerTuple>, Seq<Seq<char>>)
    decreases n,
{
    if n == 0 {
        (Seq::empty(), strings)
    } else {
        let (rows, table) = markers_after(entries, thread_start, strings, (n - 1) as nat);
        let (row, next) = (*entries[n - 1].value).spec_serialize(thread_start, entries[n - 1].created_at, table);
        (rows.push(row), next)
    }
}

/// Serializes the markers of the buffer, oldest first, into the markers table.
pub fn serialize_markers_in_buffer(
    buffer: &TimeExpiringBuffer<Box<dyn Marker>>,
    thread_start: &Instant,
    string_table: &mut StringTable,
) -> (table: MarkersTable)
    requires
        old(string_table).well_formed(),
    ensures
        final(string_table).well_formed(),
        table.schema == marker_schema(),
        (table.data@, final(string_table)@)
            == markers_after(buffer@, *thread_start, old(string_table)@, buffer@.len()),
{
    let n = buffer.buffer.len();
    let mut data: Vec<MarkerTuple> = Vec::new();
    let mut i: usize = 0;
    while i < n
        invariant
            n == buffer@.len(),
            i <= n,
            string_table.well_formed(),
            (data@, string_table@) == markers_after(buffer@, *thread_start, old(string_table)@, i as nat),
        decreases n - i,
    {
        let entry = &buffer.buffer[i];
        let row = (*entry.value).serialize(thread_start, &entry.created_at, string_table);
        data.push(row);
        i = i + 1;
    }
    MarkersTable { schema: MarkerSchema::new(), data }
}

/// A marker, with the id of the thread that recorded it.
pub struct ThreadMarker {
    pub thread_id: u32,
    pub marker: Box<dyn Marker>,
}

/// The rows of those of the first `n` markers of `entries` that thread
/// `thread_id` recorded, serialized in order from the string table `strings`,
/// and the string table afterwards.
pub open spec fn thread_markers_after(
    entries: Seq<BufferEntry<ThreadMarker>>,
    thread_id: u32,
    thread_start: Instant,
    strings: Seq<Seq<char>>,
    n: nat,
) -> (Seq<MarkerTuple>, Seq<Seq<char>>)
    decreases n,
{
    if n == 0 {
        (Seq::empty(), strings)
    } else {
        let (rows, table) = thread_markers_after(entries, thread_id, thread_start, strings, (n - 1) as nat);
        let entry = entries[n - 1];
        if entry.value.thread_id == thread_id {
            let (row, next) = (*entry.value.marker).spec_serialize(thread_start, entry.created_at, table);
            (rows.push(row), next)
        } else {
            (rows, table)
        }
    }
}

/// Serializes the markers of thread `thread_id` in the buffer, oldest first,
/// into the thread's markers table.
pub fn serialize_thread_markers_in_buffer(
    buffer: &TimeExpiringBuffer<ThreadMarker>,
    thread_id: u32,
    thread_start: &Instant,
    string_table: &mut StringTable,
) -> (table: MarkersTable)
    requires
        old(string_table).well_formed(),
    ensures
        final(string_table).well_formed(),
        table.schema == marker_schema(),
        (table.data@, final(string_table)@)
            == thread_markers_after(buffer@, thread_id, *thread_start, old(string_table)@, buffer@.len()),
{
    let n = buffer.buffer.len();
    let mut data: Vec<MarkerTuple> = Vec::new();
    let mut i: usize = 0;
    while i < n
        invariant
            n == buffer@.len(),
            i <= n,
            string_table.well_formed(),
            (data@, string_table@)
                == thread_markers_after(buffer@, thread_id, *thread_start, old(string_table)@, i as nat),
        decreases n - i,
    {
        let entry = &buffer.buffer[i];
        if entry.value.thread_id == thread_id {
            let row = (*entry.value.marker).serialize(thread_start, &entry.created_at, string_table);
            data.push(row);
        }
        i = i + 1;
    }
    MarkersTable { schema: MarkerSchema::new(), data }
}

} // verus!
