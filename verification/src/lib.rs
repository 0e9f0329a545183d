//! A brute-force search library for key pairs whose derived hexadecimal
//! address ends in a long run of one repeated digit.
//!
//! The verified core covers the suffix-run predicate, batch key and address
//! generation, the worker loop racing on shared stop/counter state, the
//! fan-in that surfaces exactly one winning result per round, configuration
//! validation, and the text of the appended result record.
use vstd::prelude::*;

pub mod config;
pub mod hexcode;
pub mod keygen;
pub mod pattern;
pub mod report;
pub mod search;
