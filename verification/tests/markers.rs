use profiler::markers::{serialize_markers_in_buffer, Marker, MarkerTuple, StaticStringMarker};
use profiler::string_table::StringTable;
use profiler::time::{Duration, Instant};
use profiler::time_expiring_buffer::TimeExpiringBuffer;

#[test]
fn a_static_string_marker_names_its_string() {
    let mut string_table = StringTable::new();
    string_table.get_index("Other");
    let marker = StaticStringMarker::new("Thread 1, Marker 1");
    let row = marker.serialize(
        &Instant { nanos: 1_000_000 },
        &Instant { nanos: 4_500_000 },
        &mut string_table,
    );
    assert_eq!(row, MarkerTuple { name: 1, time: 3, category: 0 });
    assert_eq!(string_table.len(), 2);
}

#[test]
fn markers_in_a_buffer_become_rows_in_order() {
    let start = Instant { nanos: 0 };
    let mut buffer: TimeExpiringBuffer<Box<dyn Marker>> = TimeExpiringBuffer::new(Duration::new(60, 0));
    buffer.push_back_at(Box::new(StaticStringMarker::new("Thread 1, Marker 1")), Instant { nanos: 0 });
    buffer.push_back_at(Box::new(StaticStringMarker::new("Thread 1, Marker 2")), Instant { nanos: 2_000_000 });
    buffer.push_back_at(Box::new(StaticStringMarker::new("Thread 1, Marker 1")), Instant { nanos: 3_000_000 });
    let mut string_table = StringTable::new();
    let table = serialize_markers_in_buffer(&buffer, &start, &mut string_table);
    assert_eq!(
        table.data,
        vec![
            MarkerTuple { name: 0, time: 0, category: 0 },
            MarkerTuple { name: 1, time: 2, category: 0 },
            MarkerTuple { name: 0, time: 3, category: 0 },
        ]
    );
    assert_eq!(
        string_table.serialize(),
        vec!["Thread 1, Marker 1".to_string(), "Thread 1, Marker 2".to_string()]
    );
}
