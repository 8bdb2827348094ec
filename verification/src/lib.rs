//! A batch engine for structured records: validation, statistics, filtering
//! and grouping of log entries and of tagged measurements.
//!
//! Quantities are fixed-point numbers: an `i64` counts thousandths, so that
//! `1500` stands for one and a half. Every operation works on a batch that
//! is wholly in memory and returns a fresh value; nothing is kept between
//! calls.
//!
//! Log entries: [`entry`] holds the types, [`entry_rules`] the rules and the
//! ranks of the levels, [`log_filter`] the selection, [`log_stats`] the
//! statistics and [`pipeline`] the operations on whole batches of input
//! lines.
//!
//! Tagged measurements: [`record`] holds the types, [`validate`] the rules,
//! [`aggregate`] the statistics of a batch, [`category`] the grouping,
//! [`filter`] the selection, [`transform`] the scaling and [`generate`]
//! sample batches.
//!
//! Underneath stand [`sample`], the statistics of a sequence of numbers,
//! [`decimal`], the notation of numbers, and [`lexical`], the order of texts.

pub mod lexical;
pub mod decimal;
pub mod sample;
pub mod record;
pub mod validate;
pub mod entry;
pub mod entry_rules;
pub mod log_filter;
pub mod log_stats;
pub mod pipeline;
pub mod category;
pub mod aggregate;
pub mod filter;
pub mod transform;
pub mod generate;
