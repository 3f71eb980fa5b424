//! procscope: the kernel-independent core of a live per-process syscall
//! monitor. Events captured by eBPF probes are decoded from their raw record,
//! aggregated per process, ordered by activity and rendered as text.

pub mod event;
pub mod model;
pub mod text;
pub mod format;
pub mod decode;
pub mod view;
