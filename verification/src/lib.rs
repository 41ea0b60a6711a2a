//! Process-management and scheduling core of a small multitasking kernel:
//! the task control block model, the proportional-share (stride) scheduler,
//! and the system-call handlers that create, terminate, wait on, and remap
//! the address space of processes.
//!
//! The trap/context-switch mechanism, the page-table layer beneath the
//! address-space abstraction, the program-image loader's storage, and the
//! hardware clock are external collaborators: the handlers here take their
//! readings (the current time, a translated user buffer) as plain arguments
//! and state in their contracts exactly what they decide and mutate.

pub mod info;
pub mod mm;
pub mod loader;
pub mod manager;
pub mod task;
pub mod syscall;
pub mod fairness;
