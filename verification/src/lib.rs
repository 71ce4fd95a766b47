//! A chess engine core whose rules are proved: evaluation, move ordering,
//! network inference and match bookkeeping.
#![allow(unused_imports)]
pub mod arith;
pub mod bits;
pub mod board;
pub mod book;
pub mod commands;
pub mod config;
pub mod endgame;
pub mod evaluation;
pub mod matchplay;
pub mod move_ordering;
pub mod nnue;
pub mod openings;
pub mod rating;
pub mod regression;
pub mod sums;
pub mod text;
pub mod types;
