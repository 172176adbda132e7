//! Capability-gated delegation of work between participants, humans and
//! agents alike.

pub mod capability;
pub mod manager;
pub mod participant;
pub mod work_item;

pub use capability::Capability;
pub use manager::{DelegationEvent, DelegationManager};
pub use participant::RegisteredParticipant;
pub use work_item::{ApprovalRequest, ApprovalStatus, WorkItem, WorkItemStatus};
