//! A process-tracing sandbox core: the tracer's scheduler and per-task state
//! machine, the trampoline contract shared with injected code, the remote
//! memory access discipline, and the sandbox bootstrap rules.

pub mod bootstrap;
pub mod consts;
pub mod counter;
pub mod hooks;
pub mod launch;
pub mod remote;
pub mod remote_model;
pub mod sched;
pub mod sched_laws;
pub mod sched_model;
pub mod task;
pub mod tasks;
pub mod trampoline;
