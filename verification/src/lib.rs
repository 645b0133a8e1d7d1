pub mod ip;
pub mod result;
pub mod text;
pub mod validation;
