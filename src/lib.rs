pub mod error;
pub mod label;
pub mod laws;
pub mod lexical;
pub mod line;
pub mod mneumonic;
pub mod operand;
pub mod operation;
