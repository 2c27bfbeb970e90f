//! Front ends and code generators for a family of small programming languages.
pub mod text;
pub mod rust_lisp;
pub mod bug;
pub mod bug_new;
pub mod beam;
pub mod miku;
pub mod laigo;
pub mod table;
pub mod number;
