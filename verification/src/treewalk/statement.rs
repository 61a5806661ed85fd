pub use crate::statement::{Stmt, StmtView};
