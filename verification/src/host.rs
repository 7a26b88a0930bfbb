//! What the library asks of its caller: the arithmetic of doubles, and the
//! time.
use vstd::prelude::*;

verus! {

/// The four operations of arithmetic.
#[derive(Debug, Clone, Copy, PartialEq, Eq, Structural)]
pub enum ArithOp {
    Add,
    Subtract,
    Multiply,
    Divide,
}

/// How two doubles compare. A NaN is unordered with every double.
#[derive(Debug, Clone, Copy, PartialEq, Eq, Structural)]
pub enum NumberOrder {
    Less,
    Equal,
    Greater,
    Unordered,
}

/// The operations on doubles, which the library carries as bit patterns,
/// and the clock. The library states of each result only that the host
/// returned it for the arguments handed over.
pub trait Host {
    /// The double that the numeral `text` denotes.
    fn parse_number(&self, text: &String) -> u64;

    /// `a op b`.
    fn arith(&self, op: ArithOp, a: u64, b: u64) -> u64;

    /// How `a` compares with `b`.
    fn compare(&self, a: u64, b: u64) -> NumberOrder;

    /// The text that stands for `n` in output.
    fn show_number(&self, n: u64) -> String;

    /// The time in milliseconds, as a double.
    fn clock(&self) -> u64;
}

} // verus!
