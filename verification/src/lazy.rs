//! Write-once cells and lazily initialized values, in two flavors for
//! their two uses: `unsync` for single-threaded owners and `sync` for
//! cells that a lock or the runtime shell shares between threads. Both
//! enforce the same single-assignment discipline: a cell is written at most
//! once through `set` or an init closure, and read thereafter.
pub mod sync;
pub mod unsync;
