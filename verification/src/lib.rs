//! A static batch scheduler: a sequence of inputs is cut into equal batches,
//! the batches are dealt out to workers, a job is run on every item, and the
//! results are put back into input order. A renderer uses it to compute the
//! pixels of an image.

pub mod rendering;
pub mod runtime;

pub use rendering::{Image, Pixel, Renderer};
pub use runtime::{Job, Manager, WorkConfig, WorkQueue, Worker};
