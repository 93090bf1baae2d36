pub mod allocation;
pub mod hot;
pub mod image;
pub mod profile;
