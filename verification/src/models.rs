//! Journals and blocks.

use vstd::prelude::*;
use crate::clock::Timestamp;
use crate::text::{concat, text_eq};

verus! {

/// A conversation document.
#[derive(Debug)]
pub struct Journal {
    pub id: u128,
    pub title: String,
    pub created_at: Timestamp,
    pub updated_at: Timestamp,
}

/// One turn of a conversation.
#[derive(Debug)]
pub struct Block {
    pub id: u128,
    pub journal_id: u128,
    pub block_type: BlockType,
    pub content: String,
    pub status: BlockStatus,
    /// The block that this one follows, where it marks a branch point.
    pub parent_id: Option<u128>,
    /// The block that a fork or rerun derived this one from.
    pub forked_from_id: Option<u128>,
    pub created_at: Timestamp,
    pub updated_at: Timestamp,
}

/// Who wrote a block.
#[derive(Debug, Clone, Copy, PartialEq, Eq, Structural)]
pub enum BlockType {
    User,
    Assistant,
}

/// How far a block's content has come.
#[derive(Debug, Clone, Copy, PartialEq, Eq, Structural)]
pub enum BlockStatus {
    Pending,
    Streaming,
    Complete,
    Error,
}

/// A request to create a journal.
#[derive(Debug)]
pub struct CreateJournalRequest {
    pub title: Option<String>,
}

/// A request to create a block.
#[derive(Debug)]
pub struct CreateBlockRequest {
    pub journal_id: u128,
    pub content: String,
}

/// The block type that a text names.
pub open spec fn block_type_named(s: Seq<char>) -> Option<BlockType> {
    if s == "user"@ {
        Some(BlockType::User)
    } else if s == "assistant"@ {
        Some(BlockType::Assistant)
    } else {
        None
    }
}

/// The block status that a text names.
pub open spec fn block_status_named(s: Seq<char>) -> Option<BlockStatus> {
    if s == "pending"@ {
        Some(BlockStatus::Pending)
    } else if s == "streaming"@ {
        Some(BlockStatus::Streaming)
    } else if s == "complete"@ {
        Some(BlockStatus::Complete)
    } else if s == "error"@ {
        Some(BlockStatus::Error)
    } else {
        None
    }
}

impl BlockType {
    /// The wire name of the type.
    pub open spec fn name(self) -> Seq<char> {
        match self {
            BlockType::User => "user"@,
            BlockType::Assistant => "assistant"@,
        }
    }

    /// The status a block of this type is born with: what a user wrote is
    /// complete at once, what the assistant will write is pending.
    pub open spec fn initial_status(self) -> BlockStatus {
        match self {
            BlockType::User => BlockStatus::Complete,
            BlockType::Assistant => BlockStatus::Pending,
        }
    }

    pub fn as_str(&self) -> (r: &'static str)
        ensures
            r@ == self.name(),
    {
        match self {
            BlockType::User => "user",
            BlockType::Assistant => "assistant",
        }
    }

    /// Reads a wire name; any other text is refused with a message that
    /// quotes it.
    pub fn parse(s: &str) -> (r: Result<BlockType, String>)
        ensures
            match r {
                Ok(t) => block_type_named(s@) == Some(t),
                Err(e) => block_type_named(s@) is None && e@ == "Invalid block type: "@ + s@,
            },
    {
        if text_eq(s, "user") {
            Ok(BlockType::User)
        } else if text_eq(s, "assistant") {
            Ok(BlockType::Assistant)
        } else {
            Err(concat("Invalid block type: ", s))
        }
    }

    /// The status that a new block of this type starts in.
    pub fn starting_status(&self) -> (r: BlockStatus)
        ensures
            r == self.initial_status(),
    {
        match self {
            BlockType::User => BlockStatus::Complete,
            BlockType::Assistant => BlockStatus::Pending,
        }
    }
}

impl std::str::FromStr for BlockType {
    type Err = String;

    /// Reads a wire name, as `parse` does.
    fn from_str(s: &str) -> (r: Result<Self, Self::Err>)
        ensures
            match r {
                Ok(t) => block_type_named(s@) == Some(t),
                Err(e) => block_type_named(s@) is None && e@ == "Invalid block type: "@ + s@,
            },
    {
        BlockType::parse(s)
    }
}

impl BlockStatus {
    /// The wire name of the status.
    pub open spec fn name(self) -> Seq<char> {
        match self {
            BlockStatus::Pending => "pending"@,
            BlockStatus::Streaming => "streaming"@,
            BlockStatus::Complete => "complete"@,
            BlockStatus::Error => "error"@,
        }
    }

    /// Whether the status is final.
    pub open spec fn terminal(self) -> bool {
        self == BlockStatus::Complete || self == BlockStatus::Error
    }

    /// How far along the path pending, streaming, final a status lies.
    pub open spec fn rank(self) -> int {
        match self {
            BlockStatus::Pending => 0,
            BlockStatus::Streaming => 1,
            BlockStatus::Complete => 2,
            BlockStatus::Error => 2,
        }
    }

    /// Whether a block in this status may be seen in `next` afterwards: the
    /// same status again, or one further along the path, and nothing after a
    /// final status but itself.
    pub open spec fn may_become(self, next: BlockStatus) -> bool {
        self == next || (!self.terminal() && self.rank() < next.rank())
    }

    pub fn as_str(&self) -> (r: &'static str)
        ensures
            r@ == self.name(),
    {
        match self {
            BlockStatus::Pending => "pending",
            BlockStatus::Streaming => "streaming",
            BlockStatus::Complete => "complete",
            BlockStatus::Error => "error",
        }
    }

    /// Reads a wire name; any other text is refused with a message that
    /// quotes it.
    pub fn parse(s: &str) -> (r: Result<BlockStatus, String>)
        ensures
            match r {
                Ok(t) => block_status_named(s@) == Some(t),
                Err(e) => block_status_named(s@) is None && e@ == "Invalid block status: "@ + s@,
            },
    {
        if text_eq(s, "pending") {
            Ok(BlockStatus::Pending)
        } else if text_eq(s, "streaming") {
            Ok(BlockStatus::Streaming)
        } else if text_eq(s, "complete") {
            Ok(BlockStatus::Complete)
        } else if text_eq(s, "error") {
            Ok(BlockStatus::Error)
        } else {
            Err(concat("Invalid block status: ", s))
        }
    }

    /// Whether the status is final: complete or error.
    pub fn is_terminal(&self) -> (r: bool)
        ensures
            r == self.terminal(),
    {
        match self {
            BlockStatus::Complete => true,
            BlockStatus::Error => true,
            _ => false,
        }
    }

    /// Decides whether a block in this status may move to `next`.
    pub fn can_become(&self, next: BlockStatus) -> (r: bool)
        ensures
            r == self.may_become(next),
    {
        match (*self, next) {
            (BlockStatus::Pending, _) => true,
            (BlockStatus::Streaming, BlockStatus::Pending) => false,
            (BlockStatus::Streaming, _) => true,
            (BlockStatus::Complete, BlockStatus::Complete) => true,
            (BlockStatus::Error, BlockStatus::Error) => true,
            _ => false,
        }
    }
}

impl std::str::FromStr for BlockStatus {
    type Err = String;

    /// Reads a wire name, as `parse` does.
    fn from_str(s: &str) -> (r: Result<Self, Self::Err>)
        ensures
            match r {
                Ok(t) => block_status_named(s@) == Some(t),
                Err(e) => block_status_named(s@) is None && e@ == "Invalid block status: "@ + s@,
            },
    {
        BlockStatus::parse(s)
    }
}

impl Journal {
    /// A copy of the journal.
    pub fn duplicate(&self) -> (r: Journal)
        ensures
            r == *self,
    {
        Journal {
            id: self.id,
            title: self.title.clone(),
            created_at: self.created_at,
            updated_at: self.updated_at,
        }
    }
}

impl Block {
    /// A copy of the block.
    pub fn duplicate(&self) -> (r: Block)
        ensures
            r == *self,
    {
        Block {
            id: self.id,
            journal_id: self.journal_id,
            block_type: self.block_type,
            content: self.content.clone(),
            status: self.status,
            parent_id: self.parent_id,
            forked_from_id: self.forked_from_id,
            created_at: self.created_at,
            updated_at: self.updated_at,
        }
    }
}

impl Clone for Journal {
    fn clone(&self) -> (r: Self)
        ensures
            r == *self,
    {
        self.duplicate()
    }
}

impl Clone for Block {
    fn clone(&self) -> (r: Self)
        ensures
            r == *self,
    {
        self.duplicate()
    }
}

/// Law: a status never moves backwards, and a final status never changes.
pub proof fn lemma_status_path(a: BlockStatus, b: BlockStatus, c: BlockStatus)
    requires
        a.may_become(b),
        b.may_become(c),
    ensures
        a.may_become(c),
        a.rank() <= b.rank(),
        a.terminal() ==> b == a,
{
}

/// Law: reading the wire name of a type or status gives it back.
pub proof fn lemma_names_round_trip(t: BlockType, s: BlockStatus)
    ensures
        block_type_named(t.name()) == Some(t),
        block_status_named(s.name()) == Some(s),
{
    reveal_strlit("user");
    reveal_strlit("assistant");
    reveal_strlit("pending");
    reveal_strlit("streaming");
    reveal_strlit("complete");
    reveal_strlit("error");
    assert("user"@.len() == 4 && "assistant"@.len() == 9);
    assert("pending"@.len() == 7 && "streaming"@.len() == 9);
    assert("complete"@.len() == 8 && "error"@.len() == 5);
}

} // verus!
