pub mod buffer_thread;
pub mod markers;
pub mod sampler;
pub mod string_table;
pub mod time;
pub mod time_expiring_buffer;
pub mod sampler_thread;
pub mod signal_safe_linked_list;
pub mod startup;
pub mod stack_table;
pub mod stack_walk;
