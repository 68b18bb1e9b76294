//! Sets of admissible types per operand, and the groups of operands that
//! must share a type.

pub mod type_bounds;
pub mod type_range;
