//! Verified models of three small schemes by which concurrent workers keep
//! in step, together with a handful of sequential utilities.
//!
//! - [`ordered`]: three tasks on three units, run in order by two signals.
//! - [`dining`]: workers round a table who share chopsticks and never lock
//!   each other out.
//! - [`pipeline`] and [`ring`]: three stages that pass one token round and
//!   write the numbers from 1 to 100 with `Fizz` and `Buzz`.
//! - [`tictactoe`], [`closest`], [`arith`] and [`english`]: a board of
//!   noughts and crosses, the smallest distance between two lists, the larger
//!   of two numbers, and numbers in English words.

pub mod arith;
pub mod closest;
pub mod dining;
pub mod english;
pub mod ordered;
pub mod pipeline;
pub mod ring;
pub mod tictactoe;

pub use crate::arith::number_max;
pub use crate::closest::smallest_difference;
pub use crate::english::english_int;
pub use crate::tictactoe::ParseErr;
pub use crate::tictactoe::TicTacToeGrid;
pub use crate::tictactoe::TicTacToeSymbol;
