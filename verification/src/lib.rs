//! Core primitives of a cooperative coroutine runtime: the park/unpark
//! rendezvous that suspends a coroutine until an event wakes it, the
//! hierarchical timeout list that drives timed suspension, and the small
//! utilities (cookie handling, once-cells, string trimming) built beside them.
pub mod cookie;
pub mod lazy;
pub mod park;
pub mod poison;
pub mod spsc;
pub mod textproto;
pub mod time;
pub mod timeout_list;
