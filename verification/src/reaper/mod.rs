pub mod images;
pub mod plan;
pub mod sweep;
