//! Presence and shared documents of a journal.

pub mod journal_doc;
pub mod participant;
pub mod room;

pub use journal_doc::JournalDoc;
pub use participant::{Participant, ParticipantKind, ParticipantStatus};
pub use room::{JournalRoom, RoomEvent};
