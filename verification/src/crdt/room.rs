//! The live coordination state of a journal: who is present, the shared
//! document, and the events that tell subscribers what happened.
//!
//! A room appends what it has to tell to its event log, oldest first. The
//! embedding server drains the log into its broadcast channel.

use vstd::prelude::*;
use std::collections::HashMap;
use crate::clock::{now, Duration, Timestamp};
use crate::crdt::journal_doc::{update_read, vector_read, JournalDoc};
use crate::crdt::participant::{Participant, ParticipantKind, ParticipantStatus};
use crate::ident::canonical_text;
use crate::table::{has, keys_of, lookup, put, take};

verus! {

/// What a room tells its subscribers.
#[derive(Debug, Clone)]
pub enum RoomEvent {
    ParticipantJoined(Participant),
    ParticipantLeft { participant_id: u128 },
    CursorMoved { participant_id: u128, block_id: Option<u128>, offset: Option<u32> },
    /// A participant became active, idle or disconnected.
    StatusChanged { participant_id: u128, status: ParticipantStatus },
    /// An update of the shared document, and the participant whose input
    /// made it, if one did.
    CrdtUpdate { source: Option<u128>, update: Vec<u8> },
    /// The whole state of the shared document.
    SyncState { state: Vec<u8> },
}

/// The room of a journal.
pub struct JournalRoom {
    journal_id: u128,
    doc: JournalDoc,
    participants: HashMap<u128, Participant>,
    events: Vec<RoomEvent>,
}

/// The status that the sweep gives a participant at the time `at`: one
/// that was silent for longer than `disconnect` becomes disconnected; an
/// active one that was silent for longer than `idle` becomes idle.
pub open spec fn swept(p: Participant, at: Timestamp, idle: Duration, disconnect: Duration) -> ParticipantStatus {
    if p.stale_at(at, disconnect) && p.status != ParticipantStatus::Disconnected {
        ParticipantStatus::Disconnected
    } else if p.stale_at(at, idle) && p.status == ParticipantStatus::Active {
        ParticipantStatus::Idle
    } else {
        p.status
    }
}

/// Whether the participants are filed under their own ids.
pub open spec fn people_keyed(people: Map<u128, Participant>) -> bool {
    forall|id: u128| #[trigger] people.contains_key(id) ==> people[id].id == id
}

impl JournalRoom {
    /// The journal that the room belongs to.
    pub closed spec fn id(&self) -> u128 {
        self.journal_id
    }

    /// The participants that are present.
    pub closed spec fn people(&self) -> Map<u128, Participant> {
        self.participants@
    }

    /// The events that were not handed out yet, oldest first.
    pub closed spec fn events(&self) -> Seq<RoomEvent> {
        self.events@
    }

    /// The texts of the shared document by key.
    pub open spec fn texts(&self) -> Map<Seq<char>, Seq<char>> {
        self.document().texts()
    }

    /// The keys of the shared document.
    pub open spec fn keys(&self) -> Set<Seq<char>> {
        self.document().keys()
    }

    /// Whether the shared document can take the bytes as an update.
    pub open spec fn fits(&self, bytes: Seq<u8>) -> bool {
        self.document().fits(bytes)
    }

    /// The texts of the shared document once it has merged the bytes.
    pub open spec fn merged(&self, bytes: Seq<u8>) -> Map<Seq<char>, Seq<char>> {
        self.document().merged(bytes)
    }

    /// The keys of the shared document once it has merged the bytes.
    pub open spec fn merged_keys(&self, bytes: Seq<u8>) -> Set<Seq<char>> {
        self.document().merged_keys(bytes)
    }

    /// The invariant of the room: participants are filed under their ids,
    /// and the document is that of the room's journal.
    pub closed spec fn wf(&self) -> bool {
        people_keyed(self.participants@) && self.doc.id() == self.journal_id
    }

    /// Whether this room is `pre` with one more event in its log.
    pub open spec fn logged_one_more(&self, pre: &JournalRoom) -> bool {
        self.events().len() == pre.events().len() + 1 && self.events().drop_last()
            == pre.events()
    }

    /// The shared document.
    pub closed spec fn document(&self) -> JournalDoc {
        self.doc
    }

    /// Whether the bytes are the state vector of the shared document.
    pub open spec fn summed(&self, bytes: Seq<u8>) -> bool {
        self.document().summed(bytes)
    }

    /// Whether the bytes carry what a replica with the state vector
    /// `remote_sv` lacks of the shared document.
    pub open spec fn carries_missing(&self, remote_sv: Seq<u8>, bytes: Seq<u8>) -> bool {
        self.document().carries_missing(remote_sv, bytes)
    }

    /// Whether the bytes are the whole state of the shared document: a new
    /// document can start from them and then reads as the shared one.
    pub open spec fn holds_state(&self, bytes: Seq<u8>) -> bool {
        self.document().wrote(bytes) && self.document().state_in(bytes)
    }

    /// Whether this room is `pre` after its subscribers were told of an
    /// update of the document that `source` made: the log holds one more
    /// event, which names `source` and carries an update that a document
    /// reads, with what a replica lacks that has the state of `pre`.
    pub open spec fn told_of_update(&self, pre: &JournalRoom, source: Option<u128>) -> bool {
        self.logged_one_more(pre) && (self.events().last() matches RoomEvent::CrdtUpdate {
            source: by,
            update,
        } && by == source && update_read(update@) && exists|sv: Seq<u8>| #[trigger]
            pre.summed(sv) && self.carries_missing(sv, update@))
    }

    /// Whether the document of this room reads as that of `pre`.
    pub open spec fn same_document(&self, pre: &JournalRoom) -> bool {
        self.texts() == pre.texts() && self.keys() == pre.keys()
    }

    /// A new room with an empty document.
    pub fn new(journal_id: u128) -> (r: JournalRoom)
        ensures
            r.wf(),
            r.id() == journal_id,
            r.people() == Map::<u128, Participant>::empty(),
            r.events() == Seq::<RoomEvent>::empty(),
            r.texts() == crate::crdt::journal_doc::no_texts(),
            r.keys() == Set::<Seq<char>>::empty(),
            r.document().is_new(),
            forall|bytes: Seq<u8>|
                crate::crdt::journal_doc::starts_document(bytes) ==> #[trigger] r.fits(bytes),
    {
        JournalRoom {
            journal_id,
            doc: JournalDoc::new(journal_id),
            participants: HashMap::new(),
            events: Vec::new(),
        }
    }

    /// A new room around an existing document.
    pub fn with_doc(doc: JournalDoc) -> (r: JournalRoom)
        ensures
            r.wf(),
            r.id() == doc.id(),
            r.people() == Map::<u128, Participant>::empty(),
            r.events() == Seq::<RoomEvent>::empty(),
            r.document() == doc,
    {
        JournalRoom {
            journal_id: doc.journal_id(),
            doc,
            participants: HashMap::new(),
            events: Vec::new(),
        }
    }

    pub fn journal_id(&self) -> (r: u128)
        ensures
            r == self.id(),
    {
        self.journal_id
    }

    /// The shared document.
    pub fn doc(&self) -> (r: &JournalDoc)
        ensures
            *r == self.document(),
    {
        &self.doc
    }

    /// Hands out the events logged since the last call, oldest first, and
    /// empties the log.
    pub fn take_events(&mut self) -> (r: Vec<RoomEvent>)
        ensures
            r@ == old(self).events(),
            final(self).events() == Seq::<RoomEvent>::empty(),
            final(self).people() == old(self).people(),
            final(self).id() == old(self).id(),
            final(self).same_document(old(self)),
            old(self).wf() ==> final(self).wf(),
    {
        let mut out: Vec<RoomEvent> = Vec::new();
        std::mem::swap(&mut out, &mut self.events);
        out
    }

    /// A participant with a fresh identifier joins.
    pub fn join(&mut self, name: &str, kind: ParticipantKind) -> (r: Participant)
        ensures
            r.joined(r.id, name@, kind),
            final(self).people() == old(self).people().insert(r.id, r),
            final(self).events() == old(self).events().push(RoomEvent::ParticipantJoined(r)),
            final(self).id() == old(self).id(),
            final(self).same_document(old(self)),
            old(self).wf() ==> final(self).wf(),
    {
        self.rejoin(Participant::new(name, kind))
    }

    /// A participant that has an identifier already joins, as on
    /// reconnection. Whoever was present under that identifier is replaced.
    pub fn rejoin(&mut self, participant: Participant) -> (r: Participant)
        ensures
            r == participant,
            final(self).people() == old(self).people().insert(participant.id, participant),
            final(self).events() == old(self).events().push(
                RoomEvent::ParticipantJoined(participant),
            ),
            final(self).id() == old(self).id(),
            final(self).same_document(old(self)),
            old(self).wf() ==> final(self).wf(),
    {
        let id = participant.id;
        put(&mut self.participants, id, participant.duplicate());
        self.events.push(RoomEvent::ParticipantJoined(participant.duplicate()));
        participant
    }

    /// A participant leaves. Where it was present, the room says so.
    pub fn leave(&mut self, participant_id: u128) -> (r: Option<Participant>)
        ensures
            r == (if old(self).people().contains_key(participant_id) {
                Some(old(self).people()[participant_id])
            } else {
                None
            }),
            final(self).people() == old(self).people().remove(participant_id),
            final(self).events() == (if r is Some {
                old(self).events().push(RoomEvent::ParticipantLeft { participant_id })
            } else {
                old(self).events()
            }),
            final(self).id() == old(self).id(),
            final(self).same_document(old(self)),
            old(self).wf() ==> final(self).wf(),
    {
        let removed = take(&mut self.participants, participant_id);
        if removed.is_some() {
            self.events.push(RoomEvent::ParticipantLeft { participant_id });
        }
        removed
    }

    /// Moves the cursor of a participant that is present, which also
    /// counts as a sign of life. Says whether the participant was present.
    pub fn update_cursor(
        &mut self,
        participant_id: u128,
        block_id: Option<u128>,
        offset: Option<u32>,
    ) -> (r: bool)
        ensures
            r == old(self).people().contains_key(participant_id),
            final(self).id() == old(self).id(),
            final(self).same_document(old(self)),
            old(self).wf() ==> final(self).wf(),
            if r {
                &&& final(self).people().dom() == old(self).people().dom()
                &&& final(self).people().remove(participant_id) == old(self).people().remove(
                    participant_id,
                )
                &&& final(self).people()[participant_id] == (Participant {
                    cursor_block_id: block_id,
                    cursor_offset: offset,
                    status: Participant::woken(old(self).people()[participant_id].status),
                    last_seen_at: final(self).people()[participant_id].last_seen_at,
                    ..old(self).people()[participant_id]
                })
                &&& final(self).events() == old(self).events().push(
                    RoomEvent::CursorMoved { participant_id, block_id, offset },
                )
            } else {
                *final(self) == *old(self)
            },
    {
        let mut participant = match lookup(&self.participants, participant_id) {
            Some(p) => p.duplicate(),
            None => {
                return false;
            },
        };
        participant.set_cursor(block_id, offset);
        put(&mut self.participants, participant_id, participant);
        self.events.push(RoomEvent::CursorMoved { participant_id, block_id, offset });
        proof {
            assert(final(self).people().dom() =~= old(self).people().dom());
            assert(final(self).people().remove(participant_id) =~= old(self).people().remove(
                participant_id,
            ));
        }
        true
    }

    /// Everyone who is present, each once, in no particular order.
    pub fn participants(&self) -> (r: Vec<Participant>)
        requires
            self.wf(),
        ensures
            r@.len() == self.people().len(),
            forall|i: int|
                0 <= i < r@.len() ==> self.people().contains_key((#[trigger] r@[i]).id)
                    && self.people()[r@[i].id] == r@[i],
            forall|i: int, j: int|
                0 <= i < j < r@.len() ==> (#[trigger] r@[i]).id != (#[trigger] r@[j]).id,
            forall|id: u128|
                self.people().contains_key(id) ==> r@.contains(#[trigger] self.people()[id]),
    {
        let keys = keys_of(&self.participants);
        let mut out: Vec<Participant> = Vec::new();
        let mut i: usize = 0;
        proof {
            keys@.unique_seq_to_set();
        }
        while i < keys.len()
            invariant
                i <= keys@.len(),
                self.wf(),
                keys@.to_set() == self.people().dom(),
                out@.len() == i,
                forall|j: int|
                    0 <= j < i ==> #[trigger] out@[j] == self.people()[keys@[j]] && out@[j].id
                        == keys@[j],
            decreases keys@.len() - i,
        {
            proof {
                assert(keys@.to_set().contains(keys@[i as int]));
            }
            match lookup(&self.participants, keys[i]) {
                Some(p) => {
                    out.push(p.duplicate());
                },
                None => {},
            }
            i = i + 1;
        }
        proof {
            assert forall|i: int| 0 <= i < out@.len() implies self.people().contains_key(
                (#[trigger] out@[i]).id,
            ) && self.people()[out@[i].id] == out@[i] by {
                assert(keys@.to_set().contains(keys@[i]));
            }
            assert forall|id: u128| self.people().contains_key(id) implies out@.contains(
                #[trigger] self.people()[id],
            ) by {
                assert(keys@.to_set().contains(id));
                let j = choose|j: int| 0 <= j < keys@.len() && keys@[j] == id;
                assert(out@[j] == self.people()[id]);
            }
        }
        out
    }

    /// The participant with the given id, if it is present.
    pub fn get_participant(&self, participant_id: u128) -> (r: Option<Participant>)
        ensures
            r == (if self.people().contains_key(participant_id) {
                Some(self.people()[participant_id])
            } else {
                None
            }),
    {
        match lookup(&self.participants, participant_id) {
            Some(p) => Some(p.duplicate()),
            None => None,
        }
    }

    /// How many participants are present.
    pub fn participant_count(&self) -> (r: usize)
        ensures
            r == self.people().len(),
    {
        broadcast use vstd::std_specs::hash::group_hash_axioms;

        self.participants.len()
    }

    /// Whether nobody is present.
    pub fn is_empty(&self) -> (r: bool)
        ensures
            r == (self.people().len() == 0),
    {
        broadcast use vstd::std_specs::hash::group_hash_axioms;

        self.participants.len() == 0
    }

    /// Merges an update that the shared document can take and, where that
    /// worked, tells the subscribers: the event is logged once the document
    /// has merged. `source` names the participant whose input made the
    /// update, so that it is not echoed back.
    pub fn apply_update(&mut self, source: Option<u128>, update: &[u8]) -> (r: Result<
        (),
        yrs::encoding::read::Error,
    >)
        requires
            old(self).fits(update@),
        ensures
            r.is_ok() == update_read(update@),
            r is Ok ==> final(self).texts() == old(self).merged(update@) && final(self).keys()
                == old(self).merged_keys(update@),
            r is Ok ==> final(self).fits(update@) && final(self).merged(update@)
                == final(self).texts() && final(self).merged_keys(update@) == final(self).keys(),
            final(self).id() == old(self).id(),
            final(self).people() == old(self).people(),
            old(self).wf() ==> final(self).wf(),
            match r {
                Ok(_) => final(self).logged_one_more(old(self)) && (final(self).events().last() matches RoomEvent::CrdtUpdate { source: by, update: bytes }
                    && by == source && bytes@ == update@),
                Err(_) => final(self).events() == old(self).events() && final(self).same_document(
                    old(self),
                ),
            },
    {
        match self.doc.apply_update(update) {
            Err(e) => Err(e),
            Ok(_) => {
                self.events.push(
                    RoomEvent::CrdtUpdate { source, update: vstd::slice::slice_to_vec(update) },
                );
                proof {
                    assert(self.events().drop_last() =~= old(self).events());
                }
                Ok(())
            },
        }
    }

    /// Puts `doc` in the place of the shared document and tells the
    /// subscribers of the update that made the difference. This is for a
    /// replica of the shared document that has merged `update` outside the
    /// room.
    pub fn adopt(&mut self, doc: JournalDoc, source: Option<u128>, update: Vec<u8>)
        requires
            doc.id() == old(self).id(),
        ensures
            final(self).id() == old(self).id(),
            final(self).people() == old(self).people(),
            old(self).wf() ==> final(self).wf(),
            final(self).document() == doc,
            final(self).events() == old(self).events().push(
                RoomEvent::CrdtUpdate { source, update },
            ),
    {
        self.doc = doc;
        self.events.push(RoomEvent::CrdtUpdate { source, update });
    }

    /// The whole state of the shared document, for a subscriber that has to
    /// catch up: one update, which a document reads.
    pub fn get_sync_state(&self) -> (r: Vec<u8>)
        ensures
            update_read(r@),
            crate::crdt::journal_doc::starts_document(r@),
            self.holds_state(r@),
    {
        self.doc.encode_state()
    }

    /// What a replica with the state vector `remote_sv` lacks of the shared
    /// document, as an update. A vector that cannot be read is refused.
    pub fn encode_diff(&self, remote_sv: &[u8]) -> (r: Result<Vec<u8>, yrs::encoding::read::Error>)
        ensures
            r.is_ok() == vector_read(remote_sv@),
            r matches Ok(bytes) ==> update_read(bytes@) && self.carries_missing(
                remote_sv@,
                bytes@,
            ),
    {
        self.doc.encode_diff(remote_sv)
    }

    /// Tells the subscribers the whole state of the shared document.
    pub fn broadcast_sync(&mut self)
        ensures
            final(self).id() == old(self).id(),
            final(self).people() == old(self).people(),
            final(self).same_document(old(self)),
            old(self).wf() ==> final(self).wf(),
            final(self).logged_one_more(old(self)),
            final(self).events().last() matches RoomEvent::SyncState { state } && update_read(state@)
                && crate::crdt::journal_doc::starts_document(state@) && old(self).holds_state(
                state@,
            ),
    {
        let state = self.doc.encode_state();
        self.events.push(RoomEvent::SyncState { state });
        proof {
            assert(self.events().drop_last() =~= old(self).events());
        }
    }

    /// Tells the subscribers what the document has that a replica with the
    /// state vector `before` lacks, as an update made by `source`. A
    /// vector that cannot be read tells nothing.
    fn tell_what_changed(&mut self, before: &Vec<u8>, source: Option<u128>)
        ensures
            final(self).id() == old(self).id(),
            final(self).people() == old(self).people(),
            final(self).same_document(old(self)),
            old(self).wf() ==> final(self).wf(),
            if vector_read(before@) {
                final(self).logged_one_more(old(self)) && (
                final(self).events().last() matches RoomEvent::CrdtUpdate { source: by, update }
                    && by == source && update_read(update@) && final(self).carries_missing(
                    before@,
                    update@,
                ))
            } else {
                final(self).events() == old(self).events()
            },
    {
        match self.encode_diff(before.as_slice()) {
            Ok(update) => {
                self.events.push(RoomEvent::CrdtUpdate { source, update });
                proof {
                    assert(self.events().drop_last() =~= old(self).events());
                }
            },
            Err(_) => {},
        }
    }

    /// Replaces what a block's text reads, and tells the subscribers the
    /// difference as an update of the document.
    pub fn set_block_content(&mut self, block_id: u128, content: &str, source: Option<u128>)
        ensures
            final(self).id() == old(self).id(),
            final(self).people() == old(self).people(),
            old(self).wf() ==> final(self).wf(),
            final(self).texts() == old(self).texts().insert(canonical_text(block_id), content@),
            final(self).keys() == old(self).keys().insert(canonical_text(block_id)),
            final(self).told_of_update(old(self), source),
    {
        let before = self.doc.state_vector();
        self.doc.set_block_content(block_id, content);
        self.tell_what_changed(&before, source);
        proof {
            let told = self.events().last();
            assert(told matches RoomEvent::CrdtUpdate { source: by, update } && old(
                self,
            ).summed(before@) && self.carries_missing(before@, update@));
        }
    }

    /// Appends to what a block's text reads, and tells the subscribers the
    /// difference as an update of the document.
    pub fn append_block_content(&mut self, block_id: u128, delta: &str, source: Option<u128>)
        ensures
            final(self).id() == old(self).id(),
            final(self).people() == old(self).people(),
            old(self).wf() ==> final(self).wf(),
            final(self).texts() == old(self).texts().insert(
                canonical_text(block_id),
                (if old(self).texts().contains_key(canonical_text(block_id)) {
                    old(self).texts()[canonical_text(block_id)]
                } else {
                    Seq::<char>::empty()
                }) + delta@,
            ),
            final(self).keys() == old(self).keys().insert(canonical_text(block_id)),
            final(self).told_of_update(old(self), source),
    {
        let before = self.doc.state_vector();
        self.doc.append_block_content(block_id, delta);
        self.tell_what_changed(&before, source);
        proof {
            let told = self.events().last();
            assert(told matches RoomEvent::CrdtUpdate { source: by, update } && old(
                self,
            ).summed(before@) && self.carries_missing(before@, update@));
        }
    }

    fn sweep_status(p: &Participant, at: Timestamp, idle: Duration, disconnect: Duration) -> (r:
        ParticipantStatus)
        ensures
            r == swept(*p, at, idle, disconnect),
    {
        let gone = match p.status {
            ParticipantStatus::Disconnected => true,
            _ => false,
        };
        let active = match p.status {
            ParticipantStatus::Active => true,
            _ => false,
        };
        if p.is_stale_at(at, disconnect) && !gone {
            ParticipantStatus::Disconnected
        } else if p.is_stale_at(at, idle) && active {
            ParticipantStatus::Idle
        } else {
            p.status
        }
    }

    /// Whether this room is `pre` after the sweep at the time `at`: every
    /// participant has the status that the sweep gives it, and the log
    /// grew by one notice for each participant whose status changed.
    pub open spec fn swept_from(
        &self,
        pre: &JournalRoom,
        at: Timestamp,
        idle: Duration,
        disconnect: Duration,
    ) -> bool {
        let before = pre.events().len() as int;
        &&& self.people().dom() == pre.people().dom()
        &&& forall|id: u128| #[trigger]
            pre.people().contains_key(id) ==> self.people()[id] == (Participant {
                status: swept(pre.people()[id], at, idle, disconnect),
                ..pre.people()[id]
            })
        &&& before <= self.events().len()
        &&& self.events().take(before) == pre.events()
        &&& forall|a: int|
            before <= a < self.events().len() ==> pre.sweep_notice(
                #[trigger] self.events()[a],
                at,
                idle,
                disconnect,
            )
        &&& forall|a: int, b: int|
            before <= a < b < self.events().len() ==> #[trigger] self.events()[a] != #[trigger] self.events()[b]
        &&& forall|id: u128|
            pre.people().contains_key(id) && swept(pre.people()[id], at, idle, disconnect)
                != pre.people()[id].status ==> exists|a: int|
                before <= a < self.events().len() && #[trigger] self.events()[a] == (
                RoomEvent::StatusChanged {
                    participant_id: id,
                    status: swept(pre.people()[id], at, idle, disconnect),
                })
    }

    /// Whether the event tells of a status that the sweep changed.
    pub open spec fn sweep_notice(
        &self,
        e: RoomEvent,
        at: Timestamp,
        idle: Duration,
        disconnect: Duration,
    ) -> bool {
        e matches RoomEvent::StatusChanged { participant_id, status }
            && self.people().contains_key(participant_id) && status == swept(
            self.people()[participant_id],
            at,
            idle,
            disconnect,
        ) && status != self.people()[participant_id].status
    }

    /// Marks those who were silent for too long as idle or disconnected, as
    /// of now.
    pub fn cleanup_stale_participants(&mut self, idle_timeout: Duration, disconnect_timeout: Duration)
        requires
            old(self).wf(),
        ensures
            final(self).wf(),
            final(self).id() == old(self).id(),
            final(self).same_document(old(self)),
            exists|at: Timestamp| #[trigger]
                final(self).swept_from(old(self), at, idle_timeout, disconnect_timeout),
    {
        let at = now();
        self.cleanup_stale_participants_at(at, idle_timeout, disconnect_timeout);
        proof {
            assert(final(self).swept_from(old(self), at, idle_timeout, disconnect_timeout));
        }
    }

    /// Marks those who were silent for too long at the time `at` as idle or
    /// disconnected.
    pub fn cleanup_stale_participants_at(
        &mut self,
        at: Timestamp,
        idle_timeout: Duration,
        disconnect_timeout: Duration,
    )
        requires
            old(self).wf(),
        ensures
            final(self).wf(),
            final(self).id() == old(self).id(),
            final(self).same_document(old(self)),
            final(self).swept_from(old(self), at, idle_timeout, disconnect_timeout),
    {
        let keys = keys_of(&self.participants);
        let ghost people0 = self.participants@;
        let ghost events0 = self.events@;
        let ghost n0 = self.events@.len() as int;
        let mut i: usize = 0;
        proof {
            assert(self.events@.take(n0) =~= events0);
        }
        while i < keys.len()
            invariant
                i <= keys@.len(),
                keys@.no_duplicates(),
                keys@.to_set() == people0.dom(),
                people_keyed(people0),
                self.wf(),
                self.journal_id == old(self).journal_id,
                self.doc == old(self).doc,
                n0 == events0.len(),
                self.participants@.dom() == people0.dom(),
                forall|j: int|
                    0 <= j < i ==> self.participants@[#[trigger] keys@[j]] == (Participant {
                        status: swept(people0[keys@[j]], at, idle_timeout, disconnect_timeout),
                        ..people0[keys@[j]]
                    }),
                forall|j: int|
                    i <= j < keys@.len() ==> self.participants@[#[trigger] keys@[j]]
                        == people0[keys@[j]],
                n0 <= self.events@.len(),
                self.events@.take(n0) == events0,
                forall|a: int|
                    n0 <= a < self.events@.len() ==> exists|j: int|
                        0 <= j < i && #[trigger] self.events@[a] == (RoomEvent::StatusChanged {
                            participant_id: keys@[j],
                            status: swept(
                                people0[keys@[j]],
                                at,
                                idle_timeout,
                                disconnect_timeout,
                            ),
                        }) && swept(people0[keys@[j]], at, idle_timeout, disconnect_timeout)
                            != people0[keys@[j]].status,
                forall|a: int, b: int|
                    n0 <= a < b < self.events@.len() ==> #[trigger] self.events@[a]
                        != #[trigger] self.events@[b],
                forall|j: int|
                    0 <= j < i && swept(
                        people0[#[trigger] keys@[j]],
                        at,
                        idle_timeout,
                        disconnect_timeout,
                    ) != people0[keys@[j]].status ==> exists|a: int|
                        n0 <= a < self.events@.len() && #[trigger] self.events@[a] == (
                        RoomEvent::StatusChanged {
                            participant_id: keys@[j],
                            status: swept(
                                people0[keys@[j]],
                                at,
                                idle_timeout,
                                disconnect_timeout,
                            ),
                        }),
            decreases keys@.len() - i,
        {
            let key = keys[i];
            let ghost people1 = self.participants@;
            let ghost events1 = self.events@;
            proof {
                assert(keys@.to_set().contains(keys@[i as int]));
                assert(people1[keys@[i as int]] == people0[key]);
            }
            let changed = match lookup(&self.participants, key) {
                None => None,
                Some(p) => {
                    let status = Self::sweep_status(p, at, idle_timeout, disconnect_timeout);
                    if status == p.status {
                        None
                    } else {
                        let mut q = p.duplicate();
                        q.status = status;
                        Some(q)
                    }
                },
            };
            match changed {
                None => {
                    proof {
                        assert(people0[key] == (Participant {
                            status: swept(people0[key], at, idle_timeout, disconnect_timeout),
                            ..people0[key]
                        }));
                    }
                },
                Some(q) => {
                    let status = q.status;
                    put(&mut self.participants, key, q);
                    self.events.push(RoomEvent::StatusChanged { participant_id: key, status });
                    proof {
                        let notice = RoomEvent::StatusChanged { participant_id: key, status };
                        assert(self.participants@.dom() =~= people0.dom());
                        assert(self.events@.take(n0) =~= events1.take(n0));
                        assert forall|j: int| 0 <= j < keys@.len() && j != i implies keys@[j]
                            != key by {}
                        assert forall|a: int|
                            n0 <= a < self.events@.len() implies exists|j: int|
                            0 <= j < i + 1 && #[trigger] self.events@[a] == (
                            RoomEvent::StatusChanged {
                                participant_id: keys@[j],
                                status: swept(
                                    people0[keys@[j]],
                                    at,
                                    idle_timeout,
                                    disconnect_timeout,
                                ),
                            }) && swept(people0[keys@[j]], at, idle_timeout, disconnect_timeout)
                                != people0[keys@[j]].status by {
                            if a < events1.len() {
                                assert(self.events@[a] == events1[a]);
                                let j = choose|j: int|
                                    0 <= j < i && events1[a] == (RoomEvent::StatusChanged {
                                        participant_id: keys@[j],
                                        status: swept(
                                            people0[keys@[j]],
                                            at,
                                            idle_timeout,
                                            disconnect_timeout,
                                        ),
                                    }) && swept(
                                        people0[keys@[j]],
                                        at,
                                        idle_timeout,
                                        disconnect_timeout,
                                    ) != people0[keys@[j]].status;
                                assert(0 <= j < i + 1);
                            } else {
                                assert(self.events@[a] == notice);
                                assert(keys@[i as int] == key);
                            }
                        }
                        assert forall|a: int, b: int|
                            n0 <= a < b < self.events@.len() implies #[trigger] self.events@[a]
                            != #[trigger] self.events@[b] by {
                            if b < events1.len() {
                                assert(self.events@[a] == events1[a]);
                                assert(self.events@[b] == events1[b]);
                            } else {
                                assert(self.events@[a] == events1[a]);
                                let j = choose|j: int|
                                    0 <= j < i && events1[a] == (RoomEvent::StatusChanged {
                                        participant_id: keys@[j],
                                        status: swept(
                                            people0[keys@[j]],
                                            at,
                                            idle_timeout,
                                            disconnect_timeout,
                                        ),
                                    }) && swept(
                                        people0[keys@[j]],
                                        at,
                                        idle_timeout,
                                        disconnect_timeout,
                                    ) != people0[keys@[j]].status;
                                assert(keys@[j] != key);
                            }
                        }
                        assert forall|j: int|
                            0 <= j < i + 1 && swept(
                                people0[#[trigger] keys@[j]],
                                at,
                                idle_timeout,
                                disconnect_timeout,
                            ) != people0[keys@[j]].status implies exists|a: int|
                            n0 <= a < self.events@.len() && #[trigger] self.events@[a] == (
                            RoomEvent::StatusChanged {
                                participant_id: keys@[j],
                                status: swept(
                                    people0[keys@[j]],
                                    at,
                                    idle_timeout,
                                    disconnect_timeout,
                                ),
                            }) by {
                            if j < i {
                                let a = choose|a: int|
                                    n0 <= a < events1.len() && #[trigger] events1[a] == (
                                    RoomEvent::StatusChanged {
                                        participant_id: keys@[j],
                                        status: swept(
                                            people0[keys@[j]],
                                            at,
                                            idle_timeout,
                                            disconnect_timeout,
                                        ),
                                    });
                                assert(self.events@[a] == events1[a]);
                            } else {
                                assert(self.events@[events1.len() as int] == notice);
                            }
                        }
                    }
                },
            }
            i = i + 1;
        }
        proof {
            assert forall|id: u128| #[trigger] people0.contains_key(id) implies self.participants@[id]
                == (Participant {
                status: swept(people0[id], at, idle_timeout, disconnect_timeout),
                ..people0[id]
            }) by {
                assert(keys@.to_set().contains(id));
                let j = choose|j: int| 0 <= j < keys@.len() && keys@[j] == id;
                assert(self.participants@[keys@[j]] == (Participant {
                    status: swept(people0[keys@[j]], at, idle_timeout, disconnect_timeout),
                    ..people0[keys@[j]]
                }));
            }
            assert forall|id: u128|
                people0.contains_key(id) && swept(people0[id], at, idle_timeout, disconnect_timeout)
                    != people0[id].status implies exists|a: int|
                n0 <= a < self.events@.len() && #[trigger] self.events@[a] == (
                RoomEvent::StatusChanged {
                    participant_id: id,
                    status: swept(people0[id], at, idle_timeout, disconnect_timeout),
                }) by {
                assert(keys@.to_set().contains(id));
                let j = choose|j: int| 0 <= j < keys@.len() && keys@[j] == id;
                assert(swept(people0[keys@[j]], at, idle_timeout, disconnect_timeout)
                    != people0[keys@[j]].status);
            }
            assert forall|a: int| n0 <= a < self.events@.len() implies old(self).sweep_notice(
                #[trigger] self.events@[a],
                at,
                idle_timeout,
                disconnect_timeout,
            ) by {
                let j = choose|j: int|
                    0 <= j < i && self.events@[a] == (RoomEvent::StatusChanged {
                        participant_id: keys@[j],
                        status: swept(people0[keys@[j]], at, idle_timeout, disconnect_timeout),
                    }) && swept(people0[keys@[j]], at, idle_timeout, disconnect_timeout)
                        != people0[keys@[j]].status;
                assert(keys@.to_set().contains(keys@[j]));
            }
            assert forall|id: u128| #[trigger] self.participants@.contains_key(id) implies self.participants@[id].id
                == id by {
                assert(people0.contains_key(id));
            }
        }
    }
}

/// The rooms that are live, by journal.
pub struct RoomManager {
    rooms: HashMap<u128, JournalRoom>,
}

impl RoomManager {
    /// The live rooms by journal id.
    pub closed spec fn rooms(&self) -> Map<u128, JournalRoom> {
        self.rooms@
    }

    /// The invariant of the registry: every room is well-formed and filed
    /// under the id of its journal.
    pub open spec fn wf(&self) -> bool {
        forall|id: u128| #[trigger]
            self.rooms().contains_key(id) ==> self.rooms()[id].wf() && self.rooms()[id].id() == id
    }

    /// A registry without rooms.
    pub fn new() -> (r: RoomManager)
        ensures
            r.wf(),
            r.rooms() == Map::<u128, JournalRoom>::empty(),
    {
        RoomManager { rooms: HashMap::new() }
    }

    /// Makes sure that the journal has a room; a new room is empty. Says
    /// whether the room is new.
    pub fn get_or_create(&mut self, journal_id: u128) -> (created: bool)
        requires
            old(self).wf(),
        ensures
            final(self).wf(),
            created == !old(self).rooms().contains_key(journal_id),
            final(self).rooms().contains_key(journal_id),
            !created ==> final(self).rooms() == old(self).rooms(),
            created ==> final(self).rooms().remove(journal_id) == old(self).rooms() && {
                let room = final(self).rooms()[journal_id];
                &&& room.people() == Map::<u128, Participant>::empty()
                &&& room.events() == Seq::<RoomEvent>::empty()
                &&& room.texts() == crate::crdt::journal_doc::no_texts()
            },
    {
        if has(&self.rooms, journal_id) {
            false
        } else {
            put(&mut self.rooms, journal_id, JournalRoom::new(journal_id));
            proof {
                assert(final(self).rooms().remove(journal_id) =~= old(self).rooms());
                assert forall|k: u128| #[trigger] self.rooms().contains_key(k) implies self.rooms()[k].wf()
                    && self.rooms()[k].id() == k by {
                    if k != journal_id {
                        assert(old(self).rooms().contains_key(k));
                    }
                }
            }
            true
        }
    }

    /// The room of a journal, if it has one.
    pub fn get(&self, journal_id: u128) -> (r: Option<&JournalRoom>)
        ensures
            match r {
                Some(room) => self.rooms().contains_key(journal_id) && *room
                    == self.rooms()[journal_id],
                None => !self.rooms().contains_key(journal_id),
            },
    {
        lookup(&self.rooms, journal_id)
    }

    /// Takes the room of a journal out of the registry, to work on it; it
    /// goes back with `put`.
    pub fn take(&mut self, journal_id: u128) -> (r: Option<JournalRoom>)
        requires
            old(self).wf(),
        ensures
            final(self).wf(),
            final(self).rooms() == old(self).rooms().remove(journal_id),
            match r {
                Some(room) => old(self).rooms().contains_key(journal_id) && room == old(self).rooms()[journal_id] && room.wf() && room.id() == journal_id,
                None => !old(self).rooms().contains_key(journal_id),
            },
    {
        let r = take(&mut self.rooms, journal_id);
        proof {
            assert forall|id: u128| #[trigger] self.rooms().contains_key(id) implies self.rooms()[id].wf()
                && self.rooms()[id].id() == id by {
                assert(old(self).rooms().contains_key(id));
            }
        }
        r
    }

    /// Files a room under the id of its journal.
    pub fn put(&mut self, room: JournalRoom)
        requires
            old(self).wf(),
            room.wf(),
        ensures
            final(self).wf(),
            final(self).rooms() == old(self).rooms().insert(room.id(), room),
    {
        let id = room.journal_id();
        put(&mut self.rooms, id, room);
        proof {
            assert forall|k: u128| #[trigger] self.rooms().contains_key(k) implies self.rooms()[k].wf()
                && self.rooms()[k].id() == k by {
                if k != id {
                    assert(old(self).rooms().contains_key(k));
                }
            }
        }
    }

    /// Removes the room of a journal and returns it.
    pub fn remove(&mut self, journal_id: u128) -> (r: Option<JournalRoom>)
        requires
            old(self).wf(),
        ensures
            final(self).wf(),
            final(self).rooms() == old(self).rooms().remove(journal_id),
            match r {
                Some(room) => old(self).rooms().contains_key(journal_id) && room == old(self).rooms()[journal_id],
                None => !old(self).rooms().contains_key(journal_id),
            },
    {
        let r = take(&mut self.rooms, journal_id);
        proof {
            assert forall|id: u128| #[trigger] self.rooms().contains_key(id) implies self.rooms()[id].wf()
                && self.rooms()[id].id() == id by {
                assert(old(self).rooms().contains_key(id));
            }
        }
        r
    }

    /// Reclaims the rooms in which nobody is present.
    pub fn cleanup_empty_rooms(&mut self)
        requires
            old(self).wf(),
        ensures
            final(self).wf(),
            forall|id: u128|
                final(self).rooms().contains_key(id) <==> #[trigger] old(self).rooms().contains_key(
                    id,
                ) && old(self).rooms()[id].people().len() != 0,
            forall|id: u128| #[trigger]
                final(self).rooms().contains_key(id) ==> final(self).rooms()[id] == old(self).rooms()[id],
    {
        let keys = keys_of(&self.rooms);
        let ghost rooms0 = self.rooms@;
        let mut i: usize = 0;
        while i < keys.len()
            invariant
                i <= keys@.len(),
                keys@.no_duplicates(),
                keys@.to_set() == rooms0.dom(),
                rooms0 == old(self).rooms(),
                old(self).wf(),
                self.wf(),
                forall|id: u128| #[trigger]
                    self.rooms@.contains_key(id) ==> rooms0.contains_key(id) && self.rooms@[id]
                        == rooms0[id],
                forall|j: int|
                    0 <= j < i ==> (self.rooms@.contains_key(#[trigger] keys@[j])
                        <==> rooms0[keys@[j]].people().len() != 0),
                forall|j: int| i <= j < keys@.len() ==> self.rooms@.contains_key(#[trigger] keys@[j]),
            decreases keys@.len() - i,
        {
            let key = keys[i];
            proof {
                assert(keys@.to_set().contains(keys@[i as int]));
            }
            let empty = match lookup(&self.rooms, key) {
                Some(room) => room.is_empty(),
                None => false,
            };
            if empty {
                let _ = take(&mut self.rooms, key);
                proof {
                    assert forall|j: int| 0 <= j < keys@.len() && j != i implies keys@[j]
                        != key by {}
                }
            }
            i = i + 1;
        }
        proof {
            assert forall|id: u128|
                final(self).rooms().contains_key(id) <==> #[trigger] old(self).rooms().contains_key(
                    id,
                ) && old(self).rooms()[id].people().len() != 0 by {
                if old(self).rooms().contains_key(id) {
                    assert(keys@.to_set().contains(id));
                    let j = choose|j: int| 0 <= j < keys@.len() && keys@[j] == id;
                    assert(self.rooms@.contains_key(keys@[j]) <==> rooms0[keys@[j]].people().len()
                        != 0);
                }
            }
        }
    }

    /// The journals that have a room, each once, in no particular order.
    pub fn journal_ids(&self) -> (r: Vec<u128>)
        ensures
            r@.no_duplicates(),
            r@.to_set() == self.rooms().dom(),
    {
        keys_of(&self.rooms)
    }

    /// How many rooms are live.
    pub fn room_count(&self) -> (r: usize)
        ensures
            r == self.rooms().len(),
    {
        broadcast use vstd::std_specs::hash::group_hash_axioms;

        self.rooms.len()
    }
}

impl Default for RoomManager {
    fn default() -> (r: Self)
        ensures
            r.wf(),
    {
        RoomManager::new()
    }
}

} // verus!
