pub mod bug;
pub mod miku;
pub mod tuci;
pub mod utils;
pub mod interpreter;
