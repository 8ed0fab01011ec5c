//! The decisions of a session: what a driver does next, whom an event wakes, and how
//! operations on stream halves end. Waiting, waking and I/O are left to the runtime.

pub mod driver;
pub mod halves;
pub mod wake;
