//! Decides which jobs get a guest, from which image, on whose machine, and what
//! becomes of the machine afterwards.
//!
//! Every decision is a function of values: the entries, the records and the
//! listing that were read, and the clock. What reads, writes and waits is
//! outside.

pub mod admission;
pub mod config_reload;
pub mod creation;
pub mod domain;
pub mod error;
pub mod event;
pub mod hot;
pub mod ident;
pub mod lifecycle;
pub mod names;
pub mod operator;
pub mod order;
pub mod reaper;
pub mod recovery;
pub mod resolve;
pub mod service;
pub mod shutdown;
pub mod state;
pub mod teardown;
pub mod text;
pub mod timeline;
pub mod tuning;
pub mod warm;
pub mod worker;

pub use config_reload::ConfigHandle;
pub use error::{BusyReason, ManagerError};
pub use event::{EventKind, Fact, Payload};
pub use hot::model::HotGuestStatus;
pub use operator::model::{AllocationSummary, CapacityStatus, OperatorStatus, WarmImageStatus};
pub use operator::token::{
    ensure_operator_token, is_token_match, operator_token_path, OPERATOR_TOKEN_HEADER,
};
pub use reaper::plan::{
    plan_sweep, reserved_image_names, unaged_candidates, ReapAuthorization, ReapCandidate,
    ReapInputs,
};
pub use reaper::sweep::{SweepInertReason, SweepReport};
pub use service::{AllocationManager, CreateAllocation};
pub use shutdown::{AllocationLeak, LeakReason, ShutdownReport};
pub use warm::retention::RetentionPlan;
pub use warm::source::SourceSelection;
pub use worker::budget::CleanupBudget;
pub use worker::error::WorkerError;
pub use worker::model::{
    HostMachine, HotReset, HotRetainRequest, ImageSweep, MachineOwnership, MachineState,
    ReapRequest, RetiredImage, WarmAvailability,
};
