//! A read-optimised multimap with one writer and many readers, and parts of
//! the query engine that stores its results in it.
//!
//! The map (`bag`, `inner`, `epoch`, `handles`, with `model` for what the
//! operations mean and `laws` for what follows) keeps two copies of its
//! contents. Readers look at one copy while the writer works on the other;
//! `publish` makes the writer's changes visible by exchanging the roles of
//! the two copies.
//!
//! Of the query engine there are the `USE` statement (`use_statement`), SQL
//! expressions as written and as evaluated (`sql`, `lower`, `expr`, over
//! `value`, `text`, `dates`, `times`, `json` and `maths`), and the pass that
//! pulls columns through a query plan (`mir`, `pull_columns`).

pub mod bag;
pub mod dates;
pub mod epoch;
pub mod expr;
pub mod handles;
pub mod inner;
pub mod json;
pub mod laws;
pub mod lower;
pub mod maths;
pub mod mir;
pub mod model;
pub mod pull_columns;
pub mod sql;
pub mod text;
pub mod times;
pub mod use_statement;
pub mod value;
