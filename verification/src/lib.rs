//! A cooperative, round-robin fiber runtime, modelled and verified.
//!
//! A fixed pool of fibers ("threads") is scheduled round-robin on a single
//! logical thread of control.  Each fiber owns a stack buffer, a context
//! record, a scheduling state and an optional payload.  A payload is either a
//! plain callable, which runs a body between voluntary yields and then
//! returns, or a pollable task, which is polled once per activation and
//! either completes or parks the fiber until an external waker marks it ready
//! again.
//!
//! The raw register save/restore of a real context switch is inherently
//! machine code and out of reach of verification; its scheduling effect — who
//! runs next, and how every fiber's state changes — is what this crate
//! models and proves.  A payload is therefore represented by the data the
//! scheduler observes at each suspension point: how many yields a callable
//! has left, or how many polls a task will report "not ready".

pub mod fiber;
pub mod measure;
pub mod runtime;
pub mod select;
pub mod trace;

pub use fiber::Payload;
pub use fiber::Resume;
pub use fiber::State;
pub use fiber::Thread;
pub use fiber::ThreadContext;
pub use fiber::DEFAULT_STACK_SIZE;
pub use fiber::MAX_THREADS;
pub use measure::count_of;
pub use runtime::yield_thread;
pub use runtime::Runtime;
pub use runtime::SpawnError;
pub use runtime::Waker;
pub use select::next_ready;
