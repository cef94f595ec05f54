//! A single-threaded cooperative runtime core: a FIFO task queue, a
//! scheduling state machine, and a readiness reactor that turns OS events
//! into wake fan-out. Polling futures and talking to the OS happen in the
//! thin driver around this library; every decision is made here.
pub mod executor;
pub mod net;
pub mod reactor;
