pub mod registry;
pub mod symbol;
