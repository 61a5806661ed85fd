pub mod scanner;
pub mod statement;
