pub mod bytecode;
pub mod laws;
pub mod scanner;
pub mod source;
pub mod text;
pub mod tokens;
pub mod value;
pub mod vm;
