pub mod error;
pub mod text;
pub mod statement;
pub mod scope;
pub mod compiler;
pub mod laws;
