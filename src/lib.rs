pub mod bf;
pub mod brackets;
pub mod console;
pub mod instruction;
pub mod io;
