//! A discrete-event simulator of a single-CPU operating system's process
//! lifecycle: process creation, FIFO scheduling, voluntary blocking
//! (sleep, wait) and termination (exit), driven by per-process scripts of
//! pseudo-instructions, producing a cycle-by-cycle trace of kernel state.

pub mod types;
pub mod text;
pub mod parse;
pub mod state;
pub mod render;
pub mod engine;
pub mod laws;
