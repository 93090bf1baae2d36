pub mod allocations;
pub mod hot;
pub mod pass;
pub mod warm;
