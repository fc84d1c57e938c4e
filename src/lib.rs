//! Edit distances between token sequences.
//!
//! `metric` defines Levenshtein and optimal string alignment distances as
//! recurrences and proves their laws; `kernel` computes them by memoized
//! recursion; `tokens` cuts text into bytes, scalar values or words;
//! `dispatch` binds a metric and an atom to a runner that scores two texts;
//! `record` splits an input line into its two fields.

use vstd::prelude::*;

pub mod metric;
pub mod kernel;
pub mod tokens;
pub mod dispatch;
pub mod record;

verus! {

} // verus!
