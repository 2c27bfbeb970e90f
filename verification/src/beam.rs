pub mod mach;
pub mod parser;
pub mod fast;
pub mod front;
pub mod program;
pub mod run;
pub mod slice;
pub mod rt;
