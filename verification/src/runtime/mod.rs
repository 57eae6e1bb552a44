pub mod assembly;
pub mod batches;
pub mod deque;
pub mod runtime;
pub mod workpool;

pub use runtime::{Job, Manager, WorkConfig, WorkQueue, Worker};
