//! A trace-driven model of a set-associative cache hierarchy: levels with LRU
//! replacement and write-back, write-through and write-allocate policies over
//! a fixed-latency backing store, with counters from which the average memory
//! access time follows, and the trace lines that drive it. Around it stand the
//! pieces of a small RISC-V pipeline model: registers, segmented memory,
//! instruction fields, ELF records and the stage accounting.
pub mod action;
pub mod cache;
pub mod elf;
pub mod endian;
pub mod instruction;
pub mod lines;
pub mod memory;
pub mod model;
pub mod pipeline;
pub mod register;
pub mod theorems;
pub mod trace;
