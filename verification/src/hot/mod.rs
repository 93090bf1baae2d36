pub mod bounds;
pub mod claim;
pub mod evict;
pub mod model;
pub mod ready;
pub mod recycle;
pub mod reload;
pub mod select;
pub mod yield_slot;
