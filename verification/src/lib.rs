//! Four line-oriented text filters, each with its contract: copying with line
//! numbers, copying the start of each input, counting, and folding runs of
//! equal lines.
//!
//! Each filter comes in two forms. Its pieces take one line at a time, for a
//! caller that reads real files: [`cat::Numberer`], [`head::Truncator`],
//! [`wc::FileInfo`], [`uniq::Deduplicator`]. Its `run` takes inputs that are
//! held in memory and writes to two texts that stand for standard output and
//! standard error; what it writes is stated over the bytes of the inputs.
//!
//! - [`text`]: whitespace and words, line terminators, decimal columns.
//! - [`lines`]: the lines of a byte stream.
//! - [`input`]: what a file name refers to, and streams held in memory.
//! - [`driver`]: what a run over several inputs writes.
//! - [`cli`]: the command line, as clap reads it.
//! - [`cat`], [`head`], [`wc`], [`uniq`]: the filters.

pub mod cat;
pub mod cli;
pub mod driver;
pub mod head;
pub mod input;
pub mod lines;
pub mod text;
pub mod uniq;
pub mod wc;
