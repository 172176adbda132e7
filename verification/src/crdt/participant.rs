//! Who is watching or editing a journal.

use vstd::prelude::*;
use crate::clock::{now, Duration, Timestamp};
use crate::ident::fresh_id;
use crate::text::{concat, owned, text_eq};

verus! {

/// What sort of participant this is.
#[derive(Debug, Clone, Copy, PartialEq, Eq, Structural)]
pub enum ParticipantKind {
    /// A human.
    User,
    /// An autonomous agent.
    Agent,
    /// A watcher that never edits.
    Observer,
}

/// How a participant's connection is doing.
#[derive(Debug, Clone, Copy, PartialEq, Eq, Structural)]
pub enum ParticipantStatus {
    Active,
    Idle,
    Disconnected,
}

/// The participant kind that a text names.
pub open spec fn participant_kind_named(s: Seq<char>) -> Option<ParticipantKind> {
    if s == "user"@ {
        Some(ParticipantKind::User)
    } else if s == "agent"@ {
        Some(ParticipantKind::Agent)
    } else if s == "observer"@ {
        Some(ParticipantKind::Observer)
    } else {
        None
    }
}

/// The participant status that a text names.
pub open spec fn participant_status_named(s: Seq<char>) -> Option<ParticipantStatus> {
    if s == "active"@ {
        Some(ParticipantStatus::Active)
    } else if s == "idle"@ {
        Some(ParticipantStatus::Idle)
    } else if s == "disconnected"@ {
        Some(ParticipantStatus::Disconnected)
    } else {
        None
    }
}

impl ParticipantKind {
    /// The wire name of the kind.
    pub open spec fn name(self) -> Seq<char> {
        match self {
            ParticipantKind::User => "user"@,
            ParticipantKind::Agent => "agent"@,
            ParticipantKind::Observer => "observer"@,
        }
    }

    pub fn as_str(&self) -> (r: &'static str)
        ensures
            r@ == self.name(),
    {
        match self {
            ParticipantKind::User => "user",
            ParticipantKind::Agent => "agent",
            ParticipantKind::Observer => "observer",
        }
    }

    /// Reads a wire name; any other text is refused with a message that
    /// quotes it.
    pub fn parse(s: &str) -> (r: Result<ParticipantKind, String>)
        ensures
            match r {
                Ok(k) => participant_kind_named(s@) == Some(k),
                Err(e) => participant_kind_named(s@) is None && e@
                    == "Invalid participant kind: "@ + s@,
            },
    {
        if text_eq(s, "user") {
            Ok(ParticipantKind::User)
        } else if text_eq(s, "agent") {
            Ok(ParticipantKind::Agent)
        } else if text_eq(s, "observer") {
            Ok(ParticipantKind::Observer)
        } else {
            Err(concat("Invalid participant kind: ", s))
        }
    }
}

impl std::str::FromStr for ParticipantKind {
    type Err = String;

    /// Reads a wire name, as `parse` does.
    fn from_str(s: &str) -> (r: Result<Self, Self::Err>)
        ensures
            match r {
                Ok(k) => participant_kind_named(s@) == Some(k),
                Err(e) => participant_kind_named(s@) is None && e@
                    == "Invalid participant kind: "@ + s@,
            },
    {
        ParticipantKind::parse(s)
    }
}

impl ParticipantStatus {
    /// The wire name of the status.
    pub open spec fn name(self) -> Seq<char> {
        match self {
            ParticipantStatus::Active => "active"@,
            ParticipantStatus::Idle => "idle"@,
            ParticipantStatus::Disconnected => "disconnected"@,
        }
    }

    pub fn as_str(&self) -> (r: &'static str)
        ensures
            r@ == self.name(),
    {
        match self {
            ParticipantStatus::Active => "active",
            ParticipantStatus::Idle => "idle",
            ParticipantStatus::Disconnected => "disconnected",
        }
    }

    /// Reads a wire name; any other text is refused with a message that
    /// quotes it.
    pub fn parse(s: &str) -> (r: Result<ParticipantStatus, String>)
        ensures
            match r {
                Ok(k) => participant_status_named(s@) == Some(k),
                Err(e) => participant_status_named(s@) is None && e@
                    == "Invalid participant status: "@ + s@,
            },
    {
        if text_eq(s, "active") {
            Ok(ParticipantStatus::Active)
        } else if text_eq(s, "idle") {
            Ok(ParticipantStatus::Idle)
        } else if text_eq(s, "disconnected") {
            Ok(ParticipantStatus::Disconnected)
        } else {
            Err(concat("Invalid participant status: ", s))
        }
    }
}

impl std::str::FromStr for ParticipantStatus {
    type Err = String;

    /// Reads a wire name, as `parse` does.
    fn from_str(s: &str) -> (r: Result<Self, Self::Err>)
        ensures
            match r {
                Ok(k) => participant_status_named(s@) == Some(k),
                Err(e) => participant_status_named(s@) is None && e@
                    == "Invalid participant status: "@ + s@,
            },
    {
        ParticipantStatus::parse(s)
    }
}

/// The eight cursor colours.
pub open spec fn palette(index: int) -> Seq<char> {
    if index == 0 {
        "#FF6B6B"@
    } else if index == 1 {
        "#4ECDC4"@
    } else if index == 2 {
        "#45B7D1"@
    } else if index == 3 {
        "#96CEB4"@
    } else if index == 4 {
        "#FFEAA7"@
    } else if index == 5 {
        "#DDA0DD"@
    } else if index == 6 {
        "#98D8C8"@
    } else {
        "#F7DC6F"@
    }
}

/// The colour of a participant: picked by the first byte of its id.
pub open spec fn color_of(id: u128) -> Seq<char> {
    palette(((id >> 120) % 8) as int)
}

/// Picks the colour that belongs to an identifier.
pub fn color_for(id: u128) -> (r: &'static str)
    ensures
        r@ == color_of(id),
{
    let index: u128 = (id >> 120) % 8;
    if index == 0 {
        "#FF6B6B"
    } else if index == 1 {
        "#4ECDC4"
    } else if index == 2 {
        "#45B7D1"
    } else if index == 3 {
        "#96CEB4"
    } else if index == 4 {
        "#FFEAA7"
    } else if index == 5 {
        "#DDA0DD"
    } else if index == 6 {
        "#98D8C8"
    } else {
        "#F7DC6F"
    }
}

/// A participant of a journal room.
#[derive(Debug)]
pub struct Participant {
    /// Identifies this participant session.
    pub id: u128,
    /// Display name.
    pub name: String,
    pub kind: ParticipantKind,
    pub status: ParticipantStatus,
    /// The block that the cursor stands in, if any.
    pub cursor_block_id: Option<u128>,
    /// The character offset of the cursor within that block.
    pub cursor_offset: Option<u32>,
    /// The colour of this participant's cursor.
    pub color: String,
    pub joined_at: Timestamp,
    pub last_seen_at: Timestamp,
}

impl Participant {
    /// The participant that joins under `id` at the time `at`.
    pub open spec fn joined(self, id: u128, name: Seq<char>, kind: ParticipantKind) -> bool {
        &&& self.id == id
        &&& self.name@ == name
        &&& self.kind == kind
        &&& self.status == ParticipantStatus::Active
        &&& self.cursor_block_id is None
        &&& self.cursor_offset is None
        &&& self.color@ == color_of(id)
        &&& self.joined_at == self.last_seen_at
    }

    /// Whether nothing was heard of the participant for more than
    /// `timeout` before `at`.
    pub open spec fn stale_at(self, at: Timestamp, timeout: Duration) -> bool {
        at.total_nanos() - self.last_seen_at.total_nanos() > timeout.total_nanos()
    }

    /// The status after a sign of life: idle wakes up, the rest stays.
    pub open spec fn woken(status: ParticipantStatus) -> ParticipantStatus {
        if status == ParticipantStatus::Idle {
            ParticipantStatus::Active
        } else {
            status
        }
    }

    /// A new participant with a fresh identifier.
    pub fn new(name: &str, kind: ParticipantKind) -> (r: Participant)
        ensures
            r.joined(r.id, name@, kind),
    {
        Participant::with_id(fresh_id(), name, kind)
    }

    /// A new participant under a known identifier, as on reconnection.
    pub fn with_id(id: u128, name: &str, kind: ParticipantKind) -> (r: Participant)
        ensures
            r.joined(id, name@, kind),
    {
        Participant::with_id_at(id, name, kind, now())
    }

    /// A new participant under a known identifier, joining at `at`.
    pub fn with_id_at(id: u128, name: &str, kind: ParticipantKind, at: Timestamp) -> (r:
        Participant)
        ensures
            r.joined(id, name@, kind),
            r.joined_at == at,
    {
        Participant {
            id,
            name: owned(name),
            kind,
            status: ParticipantStatus::Active,
            cursor_block_id: None,
            cursor_offset: None,
            color: owned(color_for(id)),
            joined_at: at,
            last_seen_at: at,
        }
    }

    /// Moves the cursor, which is a sign of life.
    pub fn set_cursor(&mut self, block_id: Option<u128>, offset: Option<u32>)
        ensures
            *final(self) == (Participant {
                cursor_block_id: block_id,
                cursor_offset: offset,
                status: Participant::woken(old(self).status),
                last_seen_at: final(self).last_seen_at,
                ..*old(self)
            }),
    {
        self.cursor_block_id = block_id;
        self.cursor_offset = offset;
        self.touch();
    }

    /// Records a sign of life now.
    pub fn touch(&mut self)
        ensures
            *final(self) == (Participant {
                status: Participant::woken(old(self).status),
                last_seen_at: final(self).last_seen_at,
                ..*old(self)
            }),
    {
        self.touch_at(now());
    }

    /// Records a sign of life at `at`.
    pub fn touch_at(&mut self, at: Timestamp)
        ensures
            *final(self) == (Participant {
                status: Participant::woken(old(self).status),
                last_seen_at: at,
                ..*old(self)
            }),
    {
        self.last_seen_at = at;
        if self.status == ParticipantStatus::Idle {
            self.status = ParticipantStatus::Active;
        }
    }

    pub fn mark_idle(&mut self)
        ensures
            *final(self) == (Participant { status: ParticipantStatus::Idle, ..*old(self) }),
    {
        self.status = ParticipantStatus::Idle;
    }

    pub fn mark_disconnected(&mut self)
        ensures
            *final(self) == (Participant { status: ParticipantStatus::Disconnected, ..*old(self) }),
    {
        self.status = ParticipantStatus::Disconnected;
    }

    /// Whether nothing was heard of the participant for more than `timeout`
    /// before the present moment; the answer is `is_stale_at` of some time.
    pub fn is_stale(&self, timeout: Duration) -> (r: bool)
        ensures
            exists|at: Timestamp| r == #[trigger] self.stale_at(at, timeout),
    {
        let at = now();
        let r = self.is_stale_at(at, timeout);
        proof {
            assert(r == self.stale_at(at, timeout));
        }
        r
    }

    /// Whether nothing was heard of the participant for more than `timeout`
    /// before `at`.
    pub fn is_stale_at(&self, at: Timestamp, timeout: Duration) -> (r: bool)
        ensures
            r == self.stale_at(at, timeout),
    {
        at.is_later_by_more_than(&self.last_seen_at, &timeout)
    }

    /// A copy of the participant.
    pub fn duplicate(&self) -> (r: Participant)
        ensures
            r == *self,
    {
        Participant {
            id: self.id,
            name: self.name.clone(),
            kind: self.kind,
            status: self.status,
            cursor_block_id: self.cursor_block_id,
            cursor_offset: self.cursor_offset,
            color: self.color.clone(),
            joined_at: self.joined_at,
            last_seen_at: self.last_seen_at,
        }
    }
}

impl Clone for Participant {
    fn clone(&self) -> (r: Self)
        ensures
            r == *self,
    {
        self.duplicate()
    }
}

} // verus!
