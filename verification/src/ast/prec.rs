//! Binding strengths of the operators, weakest first.

use vstd::prelude::*;

verus! {

/// Below every operator: where a whole expression starts.
pub const LOWEST: u8 = 0;

/// `=`
pub const ASSIGN: u8 = 1;

/// `== != < <= > >=`
pub const COMPARE: u8 = 2;

/// `+ -`
pub const PLUS: u8 = 3;

/// `* /`
pub const MUL: u8 = 4;

/// Unary `-`
pub const UNARY: u8 = 5;

/// `^`
pub const POW: u8 = 6;

} // verus!
