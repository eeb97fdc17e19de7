//! Verified core of a parallel directory crawler: nul-terminated path
//! buffers, decoding of raw directory-entry records, the worker that expands
//! directories and decides when no work is left, and what a crawl yields in
//! whatever order its jobs are taken.
//!
//! The library makes no system call and starts no thread. The program around
//! it opens and reads the directories and runs one loop per worker.

pub mod crawl;
pub mod directory;
pub mod dirent;
pub mod path;
pub mod queue;
pub mod worker;
