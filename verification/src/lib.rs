//! Reference counting with standard and exclusive references.
//!
//! A [`RefCount`] counts standard references, of which there can be many at once, and hands out
//! exclusive ones, which are alone. Futures that cannot have their reference yet wait in a bounded
//! queue and are woken in the order in which they came.
//!
//! [`refcount`], [`futures`] and [`array_queue`] hold the counter, its futures and its queue as one
//! thread sees them that has them to itself, and say exactly what each operation does. All of them
//! run on steps: [`queue_steps`], [`poll_steps`] and [`state`] part each operation into single
//! accesses to memory and decide, from what an access gave, what comes next. The same steps serve
//! threads that share the memory; [`queue_laws`], [`ref_laws`] and [`wake_laws`] say what holds
//! then, in whichever order the accesses come. [`shared`] runs the steps of a request on a state
//! word in an atomic, and [`traced`] notes each access to it.

pub mod array_queue;
pub mod backoff;
pub mod consts;
pub mod discard;
pub mod futures;
pub mod hints;
pub mod pad;
pub mod poll_steps;
pub mod queue_laws;
pub mod queue_steps;
pub mod ref_laws;
pub mod refcount;
pub mod ring;
pub mod shared;
pub mod stamp;
pub mod state;
pub mod traced;
pub mod waiter;
pub mod wake_laws;

pub use refcount::ExclusiveRef;
pub use refcount::Ref;
pub use refcount::RefCount;
pub use state::State;
