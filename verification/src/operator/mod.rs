pub mod control;
pub mod model;
pub mod status;
pub mod token;
