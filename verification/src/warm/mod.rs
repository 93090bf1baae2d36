pub mod retention;
pub mod source;
