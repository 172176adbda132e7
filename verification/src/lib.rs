//! Server core of a real-time collaborative conversation platform.
//!
//! Every module is a plain state machine or a pure function with a contract:
//! nothing here performs I/O, awaits or locks. The embedding server owns the
//! sockets, the database and the task runtime, and drives these types.

use vstd::prelude::*;

pub mod text;
pub mod tui;
pub mod table;
pub mod base64;
pub mod ident;
pub mod clock;
pub mod error;
pub mod models;
pub mod crdt;
pub mod delegation;
pub mod opencode;
pub mod startup;
pub mod store;
pub mod websocket;

verus! {

/// The state that all connections share.
pub struct AppState {
    pub store: store::Store,
    pub room_manager: crdt::room::RoomManager,
    pub delegation_manager: delegation::manager::DelegationManager,
}

impl AppState {
    /// Whether every part of the state is well-formed.
    pub open spec fn wf(&self) -> bool {
        self.store.wf() && self.room_manager.wf() && self.delegation_manager.wf()
    }

    /// The state of a server that has seen nothing yet.
    pub fn new() -> (r: AppState)
        ensures
            r.wf(),
            r.store.journals() == Seq::<models::Journal>::empty(),
            r.store.blocks() == Seq::<models::Block>::empty(),
            r.room_manager.rooms() == Map::<u128, crdt::room::JournalRoom>::empty(),
            r.delegation_manager.participants() == Map::<
                u128,
                delegation::participant::RegisteredParticipant,
            >::empty(),
            r.delegation_manager.items() == Map::<u128, delegation::work_item::WorkItem>::empty(),
            r.delegation_manager.requests() == Map::<
                u128,
                delegation::work_item::ApprovalRequest,
            >::empty(),
            forall|p: u128| #[trigger]
                r.delegation_manager.work_queue(p) == Seq::<u128>::empty(),
            forall|p: u128| #[trigger]
                r.delegation_manager.approval_queue(p) == Seq::<u128>::empty(),
            r.delegation_manager.events() == Seq::<delegation::manager::DelegationEvent>::empty(),
    {
        AppState {
            store: store::Store::new(),
            room_manager: crdt::room::RoomManager::new(),
            delegation_manager: delegation::manager::DelegationManager::new(),
        }
    }
}

} // verus!
