//! Keyed double-ended queues: a map from keys to independent deques that
//! are created on the first push for a key and dropped as soon as they
//! become empty.
pub mod keyed_queue;
pub mod laws;
pub mod model;

pub use keyed_queue::KeyedQueue;
