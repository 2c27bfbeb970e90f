pub mod bug;
pub mod compiler;
pub mod parser;
pub mod tokens;
pub mod utils;
