pub mod address;
pub mod codec;
pub mod instruction;
pub mod processor;
pub mod error;
