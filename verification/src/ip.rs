pub mod parse;
pub mod validation;
