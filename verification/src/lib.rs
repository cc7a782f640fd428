//! Verification engine for practice-problem solutions.
//!
//! A candidate program is run once per fixture (an input / expected-output
//! pair), its exit and output are captured under a wall-clock budget, and the
//! result is classified into a closed set of verdicts. A suite runner drives
//! the fixtures in order and stops at the first verdict that is not a success.

pub mod cli;
pub mod command_guesser;
pub mod problem;
pub mod resolve;
pub mod runner;
pub mod tester;
pub mod text;
