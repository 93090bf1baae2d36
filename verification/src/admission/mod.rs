pub mod capacity;
pub mod hot;
pub mod probe;
pub mod storage;
