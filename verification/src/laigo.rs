pub mod arm;
pub mod laigo;
pub mod x86;
