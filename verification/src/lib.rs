//! The core of a function plotter: what a typed text stands for, and what a
//! set of functions looks like over a sample grid.
pub mod binary64;
pub mod decimal;
pub mod evaluation;
pub mod input;
