//! Streaming match-and-aggregate core for pipe-delimited, gzip-compressed logs.
//!
//! The library decides which records of a log file are kept: it splits records
//! into fields, evaluates IP and domain rules on the fields of interest, frames
//! the kept records into output chunks, and keeps the bookkeeping of a run.
//! Threads, channels and files are driven by the caller.
pub mod field;
pub mod text;
pub mod domain;
pub mod ip;
pub mod chunk;
pub mod processor;
pub mod pipeline;
pub mod select;
pub mod naming;
pub mod progress;
pub mod config;
