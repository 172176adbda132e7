//! What a terminal client shows of a conversation: the blocks, who is
//! present, and the state of the answer that is streaming in.

use vstd::prelude::*;
use crate::crdt::participant::Participant;
use crate::models::{Block, BlockStatus, BlockType};
use crate::text::{concat, owned, push_text};
use crate::websocket::ServerMessage;

verus! {

/// The state of the view.
#[derive(Debug)]
pub struct App {
    /// The journal on show.
    pub journal_id: u128,
    /// The blocks of the conversation.
    pub blocks: Vec<Block>,
    /// Who is present.
    pub participants: Vec<Participant>,
    /// What the user has typed.
    pub input: String,
    /// How far the conversation is scrolled.
    pub scroll: usize,
    /// Whether an answer is streaming in.
    pub streaming: bool,
    /// The text of the answer so far.
    pub streaming_content: String,
    /// The block that the answer streams into.
    pub streaming_block_id: Option<u128>,
    pub should_quit: bool,
    /// The status line.
    pub status: String,
}

/// The position of the first block with the given id, or the number of
/// blocks where there is none.
pub open spec fn first_with_id(blocks: Seq<Block>, id: u128) -> int
    decreases blocks.len(),
{
    if blocks.len() == 0 || blocks[0].id == id {
        0
    } else {
        1 + first_with_id(blocks.drop_first(), id)
    }
}

/// The participants other than the one with the given id, in their order.
pub open spec fn others(people: Seq<Participant>, id: u128) -> Seq<Participant>
    decreases people.len(),
{
    if people.len() == 0 {
        people
    } else {
        let rest = others(people.drop_last(), id);
        if people.last().id == id {
            rest
        } else {
            rest.push(people.last())
        }
    }
}

fn find_block(blocks: &Vec<Block>, id: u128) -> (r: usize)
    ensures
        r == first_with_id(blocks@, id),
        r <= blocks@.len(),
        r < blocks@.len() ==> blocks@[r as int].id == id,
{
    let mut i: usize = 0;
    let ghost mut rest = blocks@;
    while i < blocks.len() && blocks[i].id != id
        invariant
            i <= blocks@.len(),
            rest == blocks@.skip(i as int),
            first_with_id(blocks@, id) == i + first_with_id(rest, id),
        decreases blocks@.len() - i,
    {
        proof {
            assert(rest[0] == blocks@[i as int]);
            assert(rest.drop_first() =~= blocks@.skip(i + 1));
            rest = rest.drop_first();
        }
        i = i + 1;
    }
    proof {
        if i < blocks@.len() {
            assert(rest[0] == blocks@[i as int]);
        } else {
            assert(rest.len() == 0);
        }
    }
    i
}

impl App {
    /// The view of a journal before anything has arrived.
    pub fn new(journal_id: u128) -> (r: App)
        ensures
            r.journal_id == journal_id,
            r.blocks@.len() == 0,
            r.participants@.len() == 0,
            r.input@.len() == 0,
            r.scroll == 0,
            !r.streaming,
            r.streaming_content@.len() == 0,
            r.streaming_block_id is None,
            !r.should_quit,
            r.status@ == "Connected"@,
    {
        App {
            journal_id,
            blocks: Vec::new(),
            participants: Vec::new(),
            input: String::new(),
            scroll: 0,
            streaming: false,
            streaming_content: String::new(),
            streaming_block_id: None,
            should_quit: false,
            status: owned("Connected"),
        }
    }

    /// Shows the blocks of the journal as they were fetched.
    pub fn load_journal(&mut self, blocks: Vec<Block>)
        ensures
            *final(self) == (App { blocks, ..*old(self) }),
    {
        self.blocks = blocks;
    }

    /// Whether the view differs from `pre` in nothing but its blocks, the
    /// state of the stream and the status line.
    pub open spec fn same_frame(&self, pre: &App) -> bool {
        &&& self.journal_id == pre.journal_id
        &&& self.participants == pre.participants
        &&& self.input == pre.input
        &&& self.scroll == pre.scroll
        &&& self.should_quit == pre.should_quit
    }

    /// Takes a frame of the server into the view.
    ///
    /// A new block is shown; a new assistant block becomes the one that
    /// streams. A delta for the streaming block is added to it and to the
    /// text so far. A new status is shown on its block; a final status of
    /// the streaming block ends the stream. Who joins is listed, who leaves
    /// is struck off, and a subscription brings the list of all. An error
    /// goes to the status line. Anything else changes nothing.
    pub fn handle_server_message(&mut self, msg: ServerMessage)
        ensures
            match msg {
                ServerMessage::BlockCreated { block } => {
                    &&& final(self).same_frame(old(self))
                    &&& final(self).blocks@ == old(self).blocks@.push(block)
                    &&& final(self).status == old(self).status
                    &&& if block.block_type == BlockType::Assistant {
                        &&& final(self).streaming
                        &&& final(self).streaming_block_id == Some(block.id)
                        &&& final(self).streaming_content@.len() == 0
                    } else {
                        &&& final(self).streaming == old(self).streaming
                        &&& final(self).streaming_block_id == old(self).streaming_block_id
                        &&& final(self).streaming_content == old(self).streaming_content
                    }
                },
                ServerMessage::BlockContentDelta { block_id, delta } => {
                    let at = first_with_id(old(self).blocks@, block_id);
                    &&& final(self).same_frame(old(self))
                    &&& final(self).streaming == old(self).streaming
                    &&& final(self).streaming_block_id == old(self).streaming_block_id
                    &&& final(self).status == old(self).status
                    &&& final(self).blocks@.len() == old(self).blocks@.len()
                    &&& if old(self).streaming_block_id == Some(block_id) {
                        &&& final(self).streaming_content@ == old(self).streaming_content@
                            + delta@
                        &&& forall|k: int|
                            0 <= k < old(self).blocks@.len() ==> if k == at {
                                (#[trigger] final(self).blocks@[k]).content@ == old(
                                    self,
                                ).blocks@[k].content@ + delta@ && (Block {
                                    content: old(self).blocks@[k].content,
                                    ..final(self).blocks@[k]
                                }) == old(self).blocks@[k]
                            } else {
                                final(self).blocks@[k] == old(self).blocks@[k]
                            }
                    } else {
                        *final(self) == *old(self)
                    }
                },
                ServerMessage::BlockStatusChanged { block_id, status } => {
                    let at = first_with_id(old(self).blocks@, block_id);
                    &&& final(self).same_frame(old(self))
                    &&& final(self).streaming_content == old(self).streaming_content
                    &&& final(self).blocks@.len() == old(self).blocks@.len()
                    &&& forall|k: int|
                        0 <= k < old(self).blocks@.len() ==> #[trigger] final(self).blocks@[k]
                            == (if k == at {
                            Block { status, ..old(self).blocks@[k] }
                        } else {
                            old(self).blocks@[k]
                        })
                    &&& if old(self).streaming_block_id == Some(block_id) && status.terminal() {
                        &&& !final(self).streaming
                        &&& final(self).streaming_block_id is None
                        &&& final(self).status@ == (if status == BlockStatus::Complete {
                            "Ready"@
                        } else {
                            "Error"@
                        })
                    } else {
                        &&& final(self).streaming == old(self).streaming
                        &&& final(self).streaming_block_id == old(self).streaming_block_id
                        &&& final(self).status == old(self).status
                    }
                },
                ServerMessage::ParticipantJoined { participant, .. } => *final(self) == (App {
                    participants: final(self).participants,
                    ..*old(self)
                }) && final(self).participants@ == old(self).participants@.push(participant),
                ServerMessage::ParticipantLeft { participant_id, .. } => *final(self) == (App {
                    participants: final(self).participants,
                    ..*old(self)
                }) && final(self).participants@ == others(old(self).participants@, participant_id),
                ServerMessage::Subscribed { participants, .. } => *final(self) == (App {
                    participants,
                    ..*old(self)
                }),
                ServerMessage::Error { message } => *final(self) == (App {
                    status: final(self).status,
                    ..*old(self)
                }) && final(self).status@ == "Error: "@ + message@,
                _ => *final(self) == *old(self),
            },
    {
        match msg {
            ServerMessage::BlockCreated { block } => {
                match block.block_type {
                    BlockType::Assistant => {
                        self.streaming_block_id = Some(block.id);
                        self.streaming = true;
                        self.streaming_content = String::new();
                    },
                    BlockType::User => {},
                }
                self.blocks.push(block);
            },
            ServerMessage::BlockContentDelta { block_id, delta } => {
                let streams = match self.streaming_block_id {
                    Some(id) => id == block_id,
                    None => false,
                };
                if streams {
                    push_text(&mut self.streaming_content, delta.as_str());
                    let at = find_block(&self.blocks, block_id);
                    if at < self.blocks.len() {
                        let mut block = self.blocks[at].duplicate();
                        push_text(&mut block.content, delta.as_str());
                        self.blocks.set(at, block);
                    }
                }
            },
            ServerMessage::BlockStatusChanged { block_id, status } => {
                let at = find_block(&self.blocks, block_id);
                if at < self.blocks.len() {
                    let mut block = self.blocks[at].duplicate();
                    block.status = status;
                    self.blocks.set(at, block);
                }
                let streams = match self.streaming_block_id {
                    Some(id) => id == block_id,
                    None => false,
                };
                if streams && status.is_terminal() {
                    self.streaming = false;
                    self.streaming_block_id = None;
                    self.status = match status {
                        BlockStatus::Complete => owned("Ready"),
                        _ => owned("Error"),
                    };
                }
            },
            ServerMessage::ParticipantJoined { journal_id: _, participant } => {
                self.participants.push(participant);
            },
            ServerMessage::ParticipantLeft { journal_id: _, participant_id } => {
                let mut kept: Vec<Participant> = Vec::new();
                let mut i: usize = 0;
                proof {
                    assert(self.participants@.take(0) =~= Seq::<Participant>::empty());
                }
                while i < self.participants.len()
                    invariant
                        i <= self.participants@.len(),
                        *self == *old(self),
                        kept@ == others(self.participants@.take(i as int), participant_id),
                    decreases self.participants@.len() - i,
                {
                    proof {
                        assert(self.participants@.take(i + 1).drop_last()
                            =~= self.participants@.take(i as int));
                    }
                    if self.participants[i].id != participant_id {
                        kept.push(self.participants[i].duplicate());
                    }
                    i = i + 1;
                }
                proof {
                    assert(self.participants@.take(i as int) =~= self.participants@);
                }
                self.participants = kept;
            },
            ServerMessage::Subscribed { journal_id: _, participant: _, participants } => {
                self.participants = participants;
            },
            ServerMessage::Error { message } => {
                self.status = concat("Error: ", message.as_str());
            },
            _ => {},
        }
    }

    /// Takes what the user has typed, to send it: nothing where nothing was
    /// typed or an answer is still streaming in.
    pub fn submit_input(&mut self) -> (r: Option<String>)
        ensures
            match r {
                Some(content) => {
                    &&& old(self).input@.len() > 0 && !old(self).streaming
                    &&& content == old(self).input
                    &&& final(self).input@.len() == 0
                    &&& final(self).status@ == "Sending..."@
                    &&& (App { input: old(self).input, status: old(self).status, ..*final(self) })
                        == *old(self)
                },
                None => (old(self).input@.len() == 0 || old(self).streaming) && *final(self)
                    == *old(self),
            },
    {
        if self.input.as_str().is_empty() || self.streaming {
            return None;
        }
        let mut content = String::new();
        std::mem::swap(&mut content, &mut self.input);
        self.status = owned("Sending...");
        Some(content)
    }
}

} // verus!
