//! The core of a task queue daemon: the store of tasks and groups, the
//! scheduling decisions of the task handler, and the rules that keep the
//! two in step. Spawning, signalling and reaping children, the socket and
//! the disk are the caller's business.

pub mod aliasing;
pub mod bootstrap;
pub mod dispatch;
pub mod groups;
pub mod handler;
pub mod laws;
pub mod messages;
pub mod registry;
pub mod scheduler;
pub mod state;
pub mod store;
pub mod task;
pub mod transitions;
pub mod validity;
