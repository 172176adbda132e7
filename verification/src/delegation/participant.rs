//! A participant as the delegation engine knows it.

use vstd::prelude::*;
use crate::clock::{now, Timestamp};
use crate::crdt::participant::{Participant, ParticipantKind};
use crate::delegation::capability::{Capability, CapabilitySet};

verus! {

/// A presence participant with its capabilities and its readiness for work.
#[derive(Debug)]
pub struct RegisteredParticipant {
    /// Who this is.
    pub participant: Participant,
    /// What this participant may do.
    pub capabilities: CapabilitySet,
    /// Whether work may be delegated to this participant.
    pub accepting_work: bool,
    /// How many work items this participant can handle at once.
    pub work_capacity: u32,
    pub registered_at: Timestamp,
}

/// The capabilities that a participant of a kind starts with.
pub open spec fn default_capabilities(kind: ParticipantKind) -> Set<Capability> {
    match kind {
        ParticipantKind::User => Capability::user_defaults(),
        ParticipantKind::Agent => Capability::agent_defaults(),
        ParticipantKind::Observer => Capability::observer_defaults(),
    }
}

/// The work capacity of a participant of a kind.
pub open spec fn default_capacity(kind: ParticipantKind) -> u32 {
    match kind {
        ParticipantKind::User => 5,
        ParticipantKind::Agent => 10,
        ParticipantKind::Observer => 0,
    }
}

fn capacity_for(kind: ParticipantKind) -> (r: u32)
    ensures
        r == default_capacity(kind),
{
    match kind {
        ParticipantKind::User => 5,
        ParticipantKind::Agent => 10,
        ParticipantKind::Observer => 0,
    }
}

impl RegisteredParticipant {
    /// Whether work can be delegated to this participant: it accepts work
    /// and has capacity.
    pub open spec fn receives_work(self) -> bool {
        self.accepting_work && self.work_capacity > 0
    }

    /// A registration of `participant` with `capabilities`, open for work.
    pub open spec fn registered(
        self,
        participant: Participant,
        capabilities: Set<Capability>,
    ) -> bool {
        &&& self.participant == participant
        &&& self.capabilities@ == capabilities
        &&& self.accepting_work
        &&& self.work_capacity == default_capacity(participant.kind)
    }

    /// Registers a participant with the capabilities of its kind.
    pub fn new(participant: Participant) -> (r: RegisteredParticipant)
        ensures
            r.registered(participant, default_capabilities(participant.kind)),
    {
        let capabilities = match participant.kind {
            ParticipantKind::User => CapabilitySet::from_set(Capability::default_user()),
            ParticipantKind::Agent => CapabilitySet::from_set(Capability::default_agent()),
            ParticipantKind::Observer => CapabilitySet::from_set(Capability::default_observer()),
        };
        RegisteredParticipant::with_capabilities(participant, capabilities)
    }

    /// Registers a participant with the given capabilities.
    pub fn with_capabilities(participant: Participant, capabilities: CapabilitySet) -> (r:
        RegisteredParticipant)
        ensures
            r.registered(participant, capabilities@),
    {
        let work_capacity = capacity_for(participant.kind);
        RegisteredParticipant {
            participant,
            capabilities,
            accepting_work: true,
            work_capacity,
            registered_at: now(),
        }
    }

    pub fn id(&self) -> (r: u128)
        ensures
            r == self.participant.id,
    {
        self.participant.id
    }

    pub fn name(&self) -> (r: &str)
        ensures
            r@ == self.participant.name@,
    {
        self.participant.name.as_str()
    }

    pub fn kind(&self) -> (r: ParticipantKind)
        ensures
            r == self.participant.kind,
    {
        self.participant.kind
    }

    /// Whether the participant holds `cap`, directly or as an admin.
    pub fn has_capability(&self, cap: Capability) -> (r: bool)
        ensures
            r == self.capabilities.grants(cap),
    {
        self.capabilities.has(cap)
    }

    /// Whether the participant may delegate work.
    pub fn can_delegate(&self) -> (r: bool)
        ensures
            r == self.capabilities.grants(Capability::Delegate),
    {
        self.has_capability(Capability::Delegate)
    }

    /// Whether the participant may approve or reject work.
    pub fn can_approve(&self) -> (r: bool)
        ensures
            r == self.capabilities.grants(Capability::Approve),
    {
        self.has_capability(Capability::Approve)
    }

    /// Whether work can be delegated to the participant.
    pub fn can_receive_work(&self) -> (r: bool)
        ensures
            r == self.receives_work(),
    {
        self.accepting_work && self.work_capacity > 0
    }

    pub fn set_accepting_work(&mut self, accepting: bool)
        ensures
            final(self).accepting_work == accepting,
            final(self).participant == old(self).participant,
            final(self).capabilities@ == old(self).capabilities@,
            final(self).work_capacity == old(self).work_capacity,
            final(self).registered_at == old(self).registered_at,
    {
        self.accepting_work = accepting;
    }

    pub fn grant_capability(&mut self, cap: Capability)
        ensures
            final(self).capabilities@ == old(self).capabilities@.insert(cap),
            final(self).participant == old(self).participant,
            final(self).accepting_work == old(self).accepting_work,
            final(self).work_capacity == old(self).work_capacity,
            final(self).registered_at == old(self).registered_at,
    {
        self.capabilities.add(cap);
    }

    pub fn revoke_capability(&mut self, cap: Capability)
        ensures
            final(self).capabilities@ == old(self).capabilities@.remove(cap),
            final(self).participant == old(self).participant,
            final(self).accepting_work == old(self).accepting_work,
            final(self).work_capacity == old(self).work_capacity,
            final(self).registered_at == old(self).registered_at,
    {
        self.capabilities.remove(cap);
    }

    /// A copy of the registration.
    pub fn duplicate(&self) -> (r: RegisteredParticipant)
        ensures
            r.same_as(*self),
    {
        RegisteredParticipant {
            participant: self.participant.duplicate(),
            capabilities: self.capabilities.duplicate(),
            accepting_work: self.accepting_work,
            work_capacity: self.work_capacity,
            registered_at: self.registered_at,
        }
    }

    /// Whether two registrations say the same.
    pub open spec fn same_as(self, other: RegisteredParticipant) -> bool {
        &&& self.participant == other.participant
        &&& self.capabilities@ == other.capabilities@
        &&& self.accepting_work == other.accepting_work
        &&& self.work_capacity == other.work_capacity
        &&& self.registered_at == other.registered_at
    }
}

impl Clone for RegisteredParticipant {
    fn clone(&self) -> (r: Self)
        ensures
            r.same_as(*self),
    {
        self.duplicate()
    }
}

} // verus!
