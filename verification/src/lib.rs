pub mod bst;
pub mod errors;
