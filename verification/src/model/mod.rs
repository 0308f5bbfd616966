pub mod base;
pub mod msg0001;
