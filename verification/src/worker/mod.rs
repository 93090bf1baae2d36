pub mod budget;
pub mod contract;
pub mod error;
pub mod model;
