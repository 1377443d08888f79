//! A blob fuzzer for KFuzzTest kernel targets: the verified core.
//!
//! The library holds the fuzzer's logic: the byte-level mutations, the
//! corpus with its energy-weighted scheduling, the coverage bookkeeping,
//! the parsing of KUnit fuzz-target listings and the interpretation of the
//! kcov trace buffer. Talking to the kernel (debugfs files, ioctls, the
//! kcov mapping) and the monitoring thread live in the application.

pub mod random;
pub mod text;
pub mod blob_mutator;
pub mod kfuzz_target;
pub mod kfuzz_manager;
pub mod kcov;
pub mod kfuzz_executor;
pub mod kfuzz_stats;
