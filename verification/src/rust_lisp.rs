pub mod c;
pub mod compiler;
pub mod lisp;
