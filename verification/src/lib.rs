//! Cart pricing engine: tax categories with a deterministic rounding rule,
//! items identified by name, and a cart that accumulates quantities and
//! derives overflow-checked receipt totals in integer minor currency units.

pub mod cart;
pub mod item;
pub mod parser;
pub mod tax;
pub mod text;
