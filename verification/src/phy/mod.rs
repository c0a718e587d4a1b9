//! What hosted network devices decide and compute around their system calls.
pub mod bpf_records;
pub mod hosted;
