//! Foundations the domain modules stand on.

pub mod decimal;
pub mod dup;
pub mod name;
pub mod order;
pub mod sort;
pub mod table;
pub mod text;
