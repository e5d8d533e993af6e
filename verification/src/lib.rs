//! Small verified exercises: a number-guessing game whose rules are proved
//! against a mathematical model of one session, and the Fibonacci numbers.

pub mod branches;
pub mod guessing_game;
