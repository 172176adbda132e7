//! The block lineage store: journals, their blocks, and the edges that
//! forks and reruns draw between blocks.
//!
//! The store keeps its tables in memory, in the order of creation. The
//! embedding server writes what the store returns to its database, and
//! turns the rows it reads back into journals and blocks with
//! `journal_from_row` and `block_from_row`.

use vstd::prelude::*;
use crate::clock::{now, Timestamp};
use crate::error::AppError;
use crate::ident::{canonical_text, fresh_id, id_text, parse_failure_text, parse_id, parsed_id};
use crate::models::{
    block_status_named,
    block_type_named,
    Block,
    BlockStatus,
    BlockType,
    Journal,
};
use crate::text::{concat, owned, starts_with};

verus! {

/// A journal as the database holds it.
#[derive(Debug)]
pub struct JournalRow {
    pub id: String,
    pub title: String,
    pub created_at: Timestamp,
    pub updated_at: Timestamp,
}

/// A block as the database holds it.
#[derive(Debug)]
pub struct BlockRow {
    pub id: String,
    pub journal_id: String,
    pub block_type: String,
    pub content: String,
    pub status: String,
    pub parent_id: Option<String>,
    pub forked_from_id: Option<String>,
    pub created_at: Timestamp,
    pub updated_at: Timestamp,
}

/// Which blocks a query asks for.
#[derive(Debug, Clone, Copy, PartialEq, Eq, Structural)]
pub enum Selector {
    /// The blocks of a journal.
    InJournal(u128),
    /// The blocks forked or rerun from a block.
    ForkedFrom(u128),
    /// The blocks that follow a block.
    ChildOf(u128),
}

/// Whether a journal with this id is among `journals`.
pub open spec fn has_journal(journals: Seq<Journal>, id: u128) -> bool {
    exists|i: int| 0 <= i < journals.len() && #[trigger] journals[i].id == id
}

/// Whether a block with this id is among `blocks`.
pub open spec fn has_block(blocks: Seq<Block>, id: u128) -> bool {
    exists|i: int| 0 <= i < blocks.len() && #[trigger] blocks[i].id == id
}

/// Whether the optional id names a block among `blocks`, or names none.
pub open spec fn names_block(blocks: Seq<Block>, id: Option<u128>) -> bool {
    match id {
        Some(b) => has_block(blocks, b),
        None => true,
    }
}

/// Whether the optional id names a block among `blocks` that lies in the
/// journal, or names none.
pub open spec fn names_origin(blocks: Seq<Block>, id: Option<u128>, journal_id: u128) -> bool {
    match id {
        Some(b) => exists|i: int|
            0 <= i < blocks.len() && #[trigger] blocks[i].id == b && blocks[i].journal_id
                == journal_id,
        None => true,
    }
}

/// Whether a query asks for a block.
pub open spec fn selected(which: Selector, b: Block) -> bool {
    match which {
        Selector::InJournal(j) => b.journal_id == j,
        Selector::ForkedFrom(f) => b.forked_from_id == Some(f),
        Selector::ChildOf(p) => b.parent_id == Some(p),
    }
}

/// The invariant of the tables: ids are unique, every block belongs to a
/// journal of the store, and every lineage edge ends at a block of the
/// store.
pub open spec fn tables_wf(journals: Seq<Journal>, blocks: Seq<Block>) -> bool {
    &&& forall|i: int, j: int|
        0 <= i < j < journals.len() ==> (#[trigger] journals[i]).id != (#[trigger] journals[j]).id
    &&& forall|i: int, j: int|
        0 <= i < j < blocks.len() ==> (#[trigger] blocks[i]).id != (#[trigger] blocks[j]).id
    &&& forall|i: int|
        0 <= i < blocks.len() ==> has_journal(journals, (#[trigger] blocks[i]).journal_id)
            && names_block(blocks, blocks[i].parent_id) && names_block(
            blocks,
            blocks[i].forked_from_id,
        )
}

/// Whether every block that was derived from another lies in the journal of
/// its origin and is no older than it.
pub open spec fn lineage_ordered(blocks: Seq<Block>) -> bool {
    forall|i: int, k: int|
        0 <= i < blocks.len() && 0 <= k < blocks.len() && (#[trigger] blocks[i]).forked_from_id
            == Some((#[trigger] blocks[k]).id) ==> blocks[k].journal_id == blocks[i].journal_id
            && blocks[k].created_at.total_nanos() <= blocks[i].created_at.total_nanos()
}

/// Whether `r` holds exactly the blocks of `all` that the query asks for,
/// each once, oldest first.
pub open spec fn is_answer(r: Seq<Block>, all: Seq<Block>, which: Selector) -> bool {
    &&& forall|i: int| 0 <= i < r.len() ==> all.contains(#[trigger] r[i]) && selected(which, r[i])
    &&& forall|k: int|
        0 <= k < all.len() && selected(which, #[trigger] all[k]) ==> r.contains(all[k])
    &&& forall|i: int, j: int|
        0 <= i < j < r.len() ==> (#[trigger] r[i]).id != (#[trigger] r[j]).id
    &&& forall|i: int, j: int|
        0 <= i <= j < r.len() ==> (#[trigger] r[i]).created_at.total_nanos() <= (
        #[trigger] r[j]).created_at.total_nanos()
}

/// Whether `r` holds exactly the journals of `all`, each once, the most
/// recently updated first.
pub open spec fn is_listing(r: Seq<Journal>, all: Seq<Journal>) -> bool {
    &&& forall|i: int| 0 <= i < r.len() ==> all.contains(#[trigger] r[i])
    &&& forall|k: int| 0 <= k < all.len() ==> r.contains(#[trigger] all[k])
    &&& r.len() == all.len()
    &&& forall|i: int, j: int|
        0 <= i <= j < r.len() ==> (#[trigger] r[i]).updated_at.total_nanos() >= (
        #[trigger] r[j]).updated_at.total_nanos()
}

/// The prompt that a rerun of `original` repeats: the latest user block
/// among `blocks` that lies in the journal of `original` and is strictly
/// older than it; of several equally late ones the one created last.
pub open spec fn preceding_prompt(blocks: Seq<Block>, original: Block) -> Option<Block>
    decreases blocks.len(),
{
    if blocks.len() == 0 {
        None
    } else {
        let earlier = preceding_prompt(blocks.drop_last(), original);
        let b = blocks.last();
        if b.journal_id == original.journal_id && b.block_type == BlockType::User
            && b.created_at.total_nanos() < original.created_at.total_nanos() && (earlier is None
            || earlier->0.created_at.total_nanos() <= b.created_at.total_nanos()) {
            Some(b)
        } else {
            earlier
        }
    }
}

/// The store of journals and blocks.
#[derive(Debug)]
pub struct Store {
    journals: Vec<Journal>,
    blocks: Vec<Block>,
}

/// The message for a journal that is not there.
pub open spec fn journal_missing(id: u128) -> Seq<char> {
    "Journal "@ + canonical_text(id) + " not found"@
}

/// The message for a block that is not there.
pub open spec fn block_missing(id: u128) -> Seq<char> {
    "Block "@ + canonical_text(id) + " not found"@
}

fn not_found(kind: &str, id: u128) -> (r: AppError)
    ensures
        r matches AppError::NotFound(m) && m@ == kind@ + canonical_text(id) + " not found"@,
{
    let head = concat(kind, id_text(id).as_str());
    AppError::NotFound(concat(head.as_str(), " not found"))
}

impl Store {
    /// The journals, in the order of their creation.
    pub closed spec fn journals(&self) -> Seq<Journal> {
        self.journals@
    }

    /// The blocks, in the order of their creation.
    pub closed spec fn blocks(&self) -> Seq<Block> {
        self.blocks@
    }

    /// The invariant of the store: that of the tables, and every block
    /// that was derived from another lies in the journal of its origin and
    /// is no older than it.
    pub open spec fn wf(&self) -> bool {
        tables_wf(self.journals(), self.blocks()) && lineage_ordered(self.blocks())
    }

    /// The time that a block is born at: the time given, but none before
    /// the creation of the block that it is derived from.
    pub open spec fn stamp(&self, at: Timestamp, forked_from_id: Option<u128>) -> Timestamp {
        match forked_from_id {
            Some(f) => at.later_of(self.block(f).created_at),
            None => at,
        }
    }

    /// The block with the given id. Meaningful where there is one.
    pub open spec fn block(&self, id: u128) -> Block {
        self.blocks()[choose|i: int| 0 <= i < self.blocks().len() && self.blocks()[i].id == id]
    }

    /// An empty store.
    pub fn new() -> (r: Store)
        ensures
            r.wf(),
            r.journals() == Seq::<Journal>::empty(),
            r.blocks() == Seq::<Block>::empty(),
    {
        Store { journals: Vec::new(), blocks: Vec::new() }
    }

    fn journal_index(&self, id: u128) -> (r: Option<usize>)
        ensures
            match r {
                Some(i) => i < self.journals().len() && self.journals()[i as int].id == id,
                None => !has_journal(self.journals(), id),
            },
    {
        let mut i: usize = 0;
        while i < self.journals.len()
            invariant
                i <= self.journals@.len(),
                forall|k: int| 0 <= k < i ==> (#[trigger] self.journals@[k]).id != id,
            decreases self.journals@.len() - i,
        {
            if self.journals[i].id == id {
                return Some(i);
            }
            i = i + 1;
        }
        None
    }

    fn block_index(&self, id: u128) -> (r: Option<usize>)
        ensures
            match r {
                Some(i) => i < self.blocks().len() && self.blocks()[i as int].id == id,
                None => !has_block(self.blocks(), id),
            },
    {
        let mut i: usize = 0;
        while i < self.blocks.len()
            invariant
                i <= self.blocks@.len(),
                forall|k: int| 0 <= k < i ==> (#[trigger] self.blocks@[k]).id != id,
            decreases self.blocks@.len() - i,
        {
            if self.blocks[i].id == id {
                return Some(i);
            }
            i = i + 1;
        }
        None
    }

    fn names_known_block(&self, id: Option<u128>) -> (r: bool)
        ensures
            r == names_block(self.blocks(), id),
    {
        match id {
            Some(b) => self.block_index(b).is_some(),
            None => true,
        }
    }

    /// Creates a journal under a fresh identifier; the title defaults to
    /// "Untitled".
    pub fn create_journal(&mut self, title: Option<String>) -> (r: Result<Journal, AppError>)
        requires
            old(self).wf(),
        ensures
            final(self).wf(),
            final(self).blocks() == old(self).blocks(),
            match r {
                Ok(journal) => {
                    &&& !has_journal(old(self).journals(), journal.id)
                    &&& final(self).journals() == old(self).journals().push(journal)
                    &&& journal.title@ == (match title {
                        Some(t) => t@,
                        None => "Untitled"@,
                    })
                    &&& journal.created_at == journal.updated_at
                },
                Err(e) => *final(self) == *old(self) && (e matches AppError::Database(m) && m@
                    == "UNIQUE constraint failed: journals.id"@) && exists|id: u128| #[trigger]
                    has_journal(old(self).journals(), id),
            },
    {
        self.create_journal_with(fresh_id(), now(), title)
    }

    /// Creates a journal under the identifier `id` at the time `at`. An
    /// identifier that is taken is a database error.
    pub fn create_journal_with(&mut self, id: u128, at: Timestamp, title: Option<String>) -> (r:
        Result<Journal, AppError>)
        requires
            old(self).wf(),
        ensures
            final(self).wf(),
            final(self).blocks() == old(self).blocks(),
            match r {
                Ok(journal) => {
                    &&& !has_journal(old(self).journals(), id)
                    &&& final(self).journals() == old(self).journals().push(journal)
                    &&& journal.id == id
                    &&& journal.title@ == (match title {
                        Some(t) => t@,
                        None => "Untitled"@,
                    })
                    &&& journal.created_at == at
                    &&& journal.updated_at == at
                },
                Err(e) => {
                    &&& *final(self) == *old(self)
                    &&& has_journal(old(self).journals(), id)
                    &&& e matches AppError::Database(m) && m@
                        == "UNIQUE constraint failed: journals.id"@
                },
            },
    {
        if self.journal_index(id).is_some() {
            return Err(AppError::Database(owned("UNIQUE constraint failed: journals.id")));
        }
        let title = match title {
            Some(t) => t,
            None => owned("Untitled"),
        };
        let journal = Journal { id, title, created_at: at, updated_at: at };
        let copy = journal.duplicate();
        self.journals.push(journal);
        proof {
            let before = old(self).journals();
            let after = self.journals();
            assert forall|i: int| 0 <= i < self.blocks().len() implies has_journal(
                after,
                (#[trigger] self.blocks()[i]).journal_id,
            ) by {
                let k = choose|k: int|
                    0 <= k < before.len() && #[trigger] before[k].id == self.blocks()[i].journal_id;
                assert(after[k].id == self.blocks()[i].journal_id);
            }
        }
        Ok(copy)
    }

    /// The journal with the given id.
    pub fn get_journal(&self, id: u128) -> (r: Result<Journal, AppError>)
        ensures
            match r {
                Ok(journal) => has_journal(self.journals(), id) && self.journals().contains(journal)
                    && journal.id == id,
                Err(e) => !has_journal(self.journals(), id) && (e matches AppError::NotFound(m)
                    && m@ == journal_missing(id)),
            },
    {
        match self.journal_index(id) {
            Some(i) => Ok(self.journals[i].duplicate()),
            None => Err(not_found("Journal ", id)),
        }
    }

    /// Every journal, the most recently updated first.
    pub fn list_journals(&self) -> (r: Result<Vec<Journal>, AppError>)
        ensures
            r matches Ok(list) && is_listing(list@, self.journals()),
    {
        let mut out: Vec<Journal> = Vec::new();
        let mut i: usize = 0;
        while i < self.journals.len()
            invariant
                i <= self.journals@.len(),
                is_listing(out@, self.journals@.take(i as int)),
            decreases self.journals@.len() - i,
        {
            let journal = self.journals[i].duplicate();
            let mut p: usize = 0;
            while p < out.len() && !out[p].updated_at.is_before(&journal.updated_at)
                invariant
                    p <= out@.len(),
                    forall|k: int|
                        0 <= k < p ==> (#[trigger] out@[k]).updated_at.total_nanos()
                            >= journal.updated_at.total_nanos(),
                decreases out@.len() - p,
            {
                p = p + 1;
            }
            let ghost before = out@;
            let ghost seen = self.journals@.take(i as int);
            out.insert(p, journal);
            proof {
                let after = out@;
                let seen2 = self.journals@.take(i + 1);
                assert(seen2 =~= seen.push(journal));
                assert forall|a: int| 0 <= a < after.len() implies seen2.contains(
                    #[trigger] after[a],
                ) by {
                    if a < p {
                        assert(after[a] == before[a]);
                        assert(seen.contains(before[a]));
                        let k = choose|k: int| 0 <= k < seen.len() && seen[k] == before[a];
                        assert(seen2[k] == after[a]);
                    } else if a == p {
                        assert(seen2[i as int] == after[a]);
                    } else {
                        assert(after[a] == before[a - 1]);
                        assert(seen.contains(before[a - 1]));
                        let k = choose|k: int| 0 <= k < seen.len() && seen[k] == before[a - 1];
                        assert(seen2[k] == after[a]);
                    }
                }
                assert forall|k: int| 0 <= k < seen2.len() implies after.contains(
                    #[trigger] seen2[k],
                ) by {
                    if k < i {
                        assert(before.contains(seen[k]));
                        let a = choose|a: int| 0 <= a < before.len() && before[a] == seen[k];
                        if a < p {
                            assert(after[a] == seen2[k]);
                        } else {
                            assert(after[a + 1] == seen2[k]);
                        }
                    } else {
                        assert(after[p as int] == seen2[k]);
                    }
                }
                assert forall|a: int, b: int| 0 <= a <= b < after.len() implies (
                #[trigger] after[a]).updated_at.total_nanos() >= (
                #[trigger] after[b]).updated_at.total_nanos() by {
                    let x = if a < p {
                        a
                    } else {
                        a - 1
                    };
                    let y = if b < p {
                        b
                    } else {
                        b - 1
                    };
                    if a != p {
                        assert(after[a] == before[x]);
                    }
                    if b != p {
                        assert(after[b] == before[y]);
                    }
                    if a != p && b != p {
                        assert(before[x].updated_at.total_nanos()
                            >= before[y].updated_at.total_nanos());
                    }
                    if a == p && b != p {
                        assert(before[p as int].updated_at.total_nanos()
                            >= before[y].updated_at.total_nanos());
                    }
                }
            }
            i = i + 1;
        }
        proof {
            assert(self.journals@.take(i as int) =~= self.journals@);
        }
        Ok(out)
    }

    /// Creates a block without lineage.
    pub fn create_block(&mut self, journal_id: u128, block_type: BlockType, content: &str) -> (r:
        Result<Block, AppError>)
        requires
            old(self).wf(),
        ensures
            final(self).wf(),
            match r {
                Ok(block) => has_journal(old(self).journals(), journal_id) && final(self).created(
                    old(self),
                    block,
                    journal_id,
                    block_type,
                    content@,
                    None,
                    None,
                ),
                Err(e) => *final(self) == *old(self) && (e matches AppError::Database(m)
                    && exists|id: u128| #[trigger]
                    old(self).create_refusal(id, journal_id, None, None) == Some(m@)),
            },
    {
        self.create_block_with_lineage(journal_id, block_type, content, None, None)
    }

    /// Whether this store is `pre` after `block` was created in it: the
    /// block is new, of the given make, born in the status of its type, and
    /// its journal is marked as updated at the block's creation.
    pub open spec fn created(
        &self,
        pre: &Store,
        block: Block,
        journal_id: u128,
        block_type: BlockType,
        content: Seq<char>,
        parent_id: Option<u128>,
        forked_from_id: Option<u128>,
    ) -> bool {
        &&& !has_block(pre.blocks(), block.id)
        &&& block.journal_id == journal_id
        &&& block.block_type == block_type
        &&& block.content@ == content
        &&& block.status == block_type.initial_status()
        &&& block.parent_id == parent_id
        &&& block.forked_from_id == forked_from_id
        &&& block.updated_at == block.created_at
        &&& self.blocks() == pre.blocks().push(block)
        &&& self.journals().len() == pre.journals().len()
        &&& forall|i: int|
            0 <= i < pre.journals().len() ==> #[trigger] self.journals()[i] == (if pre.journals()[i].id
                == journal_id {
                Journal { updated_at: block.created_at, ..pre.journals()[i] }
            } else {
                pre.journals()[i]
            })
    }

    /// Whether a block would point at nothing: its journal or its parent
    /// is not there, or its origin is not there in its journal.
    pub open spec fn dangling(
        &self,
        journal_id: u128,
        parent_id: Option<u128>,
        forked_from_id: Option<u128>,
    ) -> bool {
        !has_journal(self.journals(), journal_id) || !names_block(self.blocks(), parent_id)
            || !names_origin(self.blocks(), forked_from_id, journal_id)
    }

    /// Why a block cannot be created, if it cannot: its identifier is taken,
    /// or it would point at nothing.
    pub open spec fn create_refusal(
        &self,
        id: u128,
        journal_id: u128,
        parent_id: Option<u128>,
        forked_from_id: Option<u128>,
    ) -> Option<Seq<char>> {
        if has_block(self.blocks(), id) {
            Some("UNIQUE constraint failed: blocks.id"@)
        } else if self.dangling(journal_id, parent_id, forked_from_id) {
            Some("FOREIGN KEY constraint failed"@)
        } else {
            None
        }
    }

    /// Creates a block under a fresh identifier, with the lineage given.
    pub fn create_block_with_lineage(
        &mut self,
        journal_id: u128,
        block_type: BlockType,
        content: &str,
        parent_id: Option<u128>,
        forked_from_id: Option<u128>,
    ) -> (r: Result<Block, AppError>)
        requires
            old(self).wf(),
        ensures
            final(self).wf(),
            match r {
                Ok(block) => !old(self).dangling(journal_id, parent_id, forked_from_id)
                    && final(self).created(
                    old(self),
                    block,
                    journal_id,
                    block_type,
                    content@,
                    parent_id,
                    forked_from_id,
                ),
                Err(e) => *final(self) == *old(self) && (e matches AppError::Database(m)
                    && exists|id: u128| #[trigger]
                    old(self).create_refusal(id, journal_id, parent_id, forked_from_id) == Some(
                        m@,
                    )),
            },
    {
        self.create_block_with(
            fresh_id(),
            now(),
            journal_id,
            block_type,
            content,
            parent_id,
            forked_from_id,
        )
    }

    /// Creates a block under the identifier `id` at the time `at`.
    pub fn create_block_with(
        &mut self,
        id: u128,
        at: Timestamp,
        journal_id: u128,
        block_type: BlockType,
        content: &str,
        parent_id: Option<u128>,
        forked_from_id: Option<u128>,
    ) -> (r: Result<Block, AppError>)
        requires
            old(self).wf(),
        ensures
            final(self).wf(),
            match r {
                Ok(block) => {
                    &&& old(self).create_refusal(id, journal_id, parent_id, forked_from_id)
                        is None
                    &&& block.id == id
                    &&& block.created_at == old(self).stamp(at, forked_from_id)
                    &&& final(self).created(
                        old(self),
                        block,
                        journal_id,
                        block_type,
                        content@,
                        parent_id,
                        forked_from_id,
                    )
                },
                Err(e) => *final(self) == *old(self) && (e matches AppError::Database(m)
                    && old(self).create_refusal(id, journal_id, parent_id, forked_from_id)
                    == Some(m@)),
            },
    {
        if self.block_index(id).is_some() {
            return Err(AppError::Database(owned("UNIQUE constraint failed: blocks.id")));
        }
        let journal_at = match self.journal_index(journal_id) {
            Some(i) => i,
            None => {
                return Err(AppError::Database(owned("FOREIGN KEY constraint failed")));
            },
        };
        if !self.names_known_block(parent_id) {
            return Err(AppError::Database(owned("FOREIGN KEY constraint failed")));
        }
        let given = at;
        let at = match forked_from_id {
            None => given,
            Some(f) => match self.block_index(f) {
                None => {
                    return Err(AppError::Database(owned("FOREIGN KEY constraint failed")));
                },
                Some(k) => {
                    proof {
                        self.lemma_block_at(k as int);
                    }
                    if self.blocks[k].journal_id != journal_id {
                        proof {
                            if names_origin(self.blocks(), forked_from_id, journal_id) {
                                let i = choose|i: int|
                                    0 <= i < self.blocks().len() && #[trigger] self.blocks()[i].id
                                        == f && self.blocks()[i].journal_id == journal_id;
                                if i < k {
                                    assert(self.blocks()[i].id != self.blocks()[k as int].id);
                                } else if k < i {
                                    assert(self.blocks()[k as int].id != self.blocks()[i].id);
                                }
                            }
                        }
                        return Err(AppError::Database(owned("FOREIGN KEY constraint failed")));
                    }
                    given.or_later(&self.blocks[k].created_at)
                },
            },
        };
        proof {
            assert(at == old(self).stamp(given, forked_from_id));
            assert(names_origin(self.blocks(), forked_from_id, journal_id));
            assert(names_block(self.blocks(), forked_from_id));
        }
        let block = Block {
            id,
            journal_id,
            block_type,
            content: owned(content),
            status: block_type.starting_status(),
            parent_id,
            forked_from_id,
            created_at: at,
            updated_at: at,
        };
        let copy = block.duplicate();
        let mut journal = self.journals[journal_at].duplicate();
        journal.updated_at = at;
        self.journals.set(journal_at, journal);
        self.blocks.push(block);
        proof {
            let js0 = old(self).journals();
            let js1 = self.journals();
            let bs0 = old(self).blocks();
            let bs1 = self.blocks();
            assert forall|i: int| 0 <= i < js0.len() implies #[trigger] js1[i] == (if js0[i].id
                == journal_id {
                Journal { updated_at: at, ..js0[i] }
            } else {
                js0[i]
            }) by {
                if i != journal_at {
                    if i < journal_at {
                        assert(js0[i].id != js0[journal_at as int].id);
                    } else {
                        assert(js0[journal_at as int].id != js0[i].id);
                    }
                }
            }
            assert forall|i: int, j: int| 0 <= i < j < js1.len() implies (#[trigger] js1[i]).id
                != (#[trigger] js1[j]).id by {
                assert(js1[i].id == js0[i].id);
                assert(js1[j].id == js0[j].id);
            }
            Self::lemma_has_block_grows(bs0, copy);
            assert forall|i: int| 0 <= i < bs1.len() implies has_journal(
                js1,
                (#[trigger] bs1[i]).journal_id,
            ) && names_block(bs1, bs1[i].parent_id) && names_block(bs1, bs1[i].forked_from_id) by {
                let want = bs1[i].journal_id;
                if i < bs0.len() {
                    assert(bs1[i] == bs0[i]);
                    assert(has_journal(js0, bs0[i].journal_id));
                }
                let k = choose|k: int| 0 <= k < js0.len() && #[trigger] js0[k].id == want;
                assert(js1[k].id == want);
            }
            {
                assert forall|i: int, k: int|
                    0 <= i < bs1.len() && 0 <= k < bs1.len() && (
                    #[trigger] bs1[i]).forked_from_id == Some(
                        (#[trigger] bs1[k]).id,
                    ) implies bs1[k].journal_id == bs1[i].journal_id
                    && bs1[k].created_at.total_nanos() <= bs1[i].created_at.total_nanos() by {
                    if i < bs0.len() && k < bs0.len() {
                        assert(bs1[i] == bs0[i] && bs1[k] == bs0[k]);
                    } else if i < bs0.len() {
                        assert(bs1[i] == bs0[i]);
                        assert(names_block(bs0, bs0[i].forked_from_id));
                    } else if k < bs0.len() {
                        assert(bs1[k] == bs0[k]);
                        Self::lemma_block_at(old(self), k);
                    } else {
                    }
                }
            }
        }
        Ok(copy)
    }

    proof fn lemma_has_block_grows(blocks: Seq<Block>, added: Block)
        ensures
            forall|id: Option<u128>| #[trigger]
                names_block(blocks, id) ==> names_block(blocks.push(added), id),
    {
        assert forall|id: Option<u128>| #[trigger] names_block(blocks, id) implies names_block(
            blocks.push(added),
            id,
        ) by {
            if let Some(b) = id {
                let k = choose|k: int| 0 <= k < blocks.len() && #[trigger] blocks[k].id == b;
                assert(blocks.push(added)[k].id == b);
            }
        }
    }

    /// In a well-formed store the block at a position is the block that its
    /// id names.
    pub proof fn lemma_block_at(&self, k: int)
        requires
            self.wf(),
            0 <= k < self.blocks().len(),
        ensures
            has_block(self.blocks(), self.blocks()[k].id),
            self.block(self.blocks()[k].id) == self.blocks()[k],
    {
        let id = self.blocks()[k].id;
        let found = choose|i: int| 0 <= i < self.blocks().len() && self.blocks()[i].id == id;
        if found < k {
            assert(self.blocks()[found].id != self.blocks()[k].id);
        } else if k < found {
            assert(self.blocks()[k].id != self.blocks()[found].id);
        }
    }

    /// The block with the given id.
    pub fn get_block(&self, id: u128) -> (r: Result<Block, AppError>)
        requires
            self.wf(),
        ensures
            match r {
                Ok(block) => has_block(self.blocks(), id) && block == self.block(id) && block.id
                    == id,
                Err(e) => !has_block(self.blocks(), id) && (e matches AppError::NotFound(m) && m@
                    == block_missing(id)),
            },
    {
        match self.block_index(id) {
            Some(i) => {
                proof {
                    self.lemma_block_at(i as int);
                }
                Ok(self.blocks[i].duplicate())
            },
            None => Err(not_found("Block ", id)),
        }
    }

    /// The blocks of a journal, oldest first.
    pub fn get_blocks_for_journal(&self, journal_id: u128) -> (r: Result<Vec<Block>, AppError>)
        requires
            self.wf(),
        ensures
            r matches Ok(list) && is_answer(list@, self.blocks(), Selector::InJournal(journal_id)),
    {
        Ok(self.select(Selector::InJournal(journal_id)))
    }

    /// The blocks that were forked or rerun from a block, oldest first.
    pub fn get_forks(&self, block_id: u128) -> (r: Result<Vec<Block>, AppError>)
        requires
            self.wf(),
        ensures
            r matches Ok(list) && is_answer(list@, self.blocks(), Selector::ForkedFrom(block_id)),
    {
        Ok(self.select(Selector::ForkedFrom(block_id)))
    }

    /// The blocks that have a block as their parent, oldest first.
    pub fn get_children(&self, block_id: u128) -> (r: Result<Vec<Block>, AppError>)
        requires
            self.wf(),
        ensures
            r matches Ok(list) && is_answer(list@, self.blocks(), Selector::ChildOf(block_id)),
    {
        Ok(self.select(Selector::ChildOf(block_id)))
    }

    /// Whether this store is `pre` with the block `id`, if there is one,
    /// replaced by `changed(old block)`, and nothing else touched.
    pub open spec fn block_changed(
        &self,
        pre: &Store,
        id: u128,
        changed: spec_fn(Block, Block) -> bool,
    ) -> bool {
        &&& self.journals() == pre.journals()
        &&& self.blocks().len() == pre.blocks().len()
        &&& forall|k: int|
            0 <= k < pre.blocks().len() ==> if pre.blocks()[k].id == id {
                changed(pre.blocks()[k], #[trigger] self.blocks()[k])
            } else {
                self.blocks()[k] == pre.blocks()[k]
            }
    }

    /// Replaces the content of a block, if the block is there. The store
    /// does not ask what status the block is in.
    pub fn update_block_content(&mut self, id: u128, content: &str) -> (r: Result<(), AppError>)
        requires
            old(self).wf(),
        ensures
            r is Ok,
            final(self).wf(),
            final(self).block_changed(
                old(self),
                id,
                |before: Block, after: Block|
                    after.content@ == content@ && (Block {
                        content: before.content,
                        updated_at: before.updated_at,
                        ..after
                    }) == before,
            ),
    {
        match self.block_index(id) {
            None => {},
            Some(i) => {
                let mut block = self.blocks[i].duplicate();
                block.content = owned(content);
                block.updated_at = now();
                self.blocks.set(i, block);
                proof {
                    Self::lemma_touch(old(self), self, id, i as int);
                }
            },
        }
        Ok(())
    }

    /// Sets the status of a block, if the block is there. The store does not
    /// ask whether the status may follow the one before.
    pub fn update_block_status(&mut self, id: u128, status: BlockStatus) -> (r: Result<
        (),
        AppError,
    >)
        requires
            old(self).wf(),
        ensures
            r is Ok,
            final(self).wf(),
            final(self).block_changed(
                old(self),
                id,
                |before: Block, after: Block|
                    after == (Block { status, updated_at: after.updated_at, ..before }),
            ),
    {
        match self.block_index(id) {
            None => {},
            Some(i) => {
                let mut block = self.blocks[i].duplicate();
                block.status = status;
                block.updated_at = now();
                self.blocks.set(i, block);
                proof {
                    Self::lemma_touch(old(self), self, id, i as int);
                }
            },
        }
        Ok(())
    }

    /// A block that changes in nothing but content, status and time of
    /// change leaves the invariants alone.
    proof fn lemma_touch(pre: &Store, post: &Store, id: u128, i: int)
        requires
            pre.wf(),
            0 <= i < pre.blocks().len(),
            pre.blocks()[i].id == id,
            post.journals() == pre.journals(),
            post.blocks() == pre.blocks().update(i, post.blocks()[i]),
            (Block {
                content: pre.blocks()[i].content,
                status: pre.blocks()[i].status,
                updated_at: pre.blocks()[i].updated_at,
                ..post.blocks()[i]
            }) == pre.blocks()[i],
        ensures
            post.wf(),
            forall|k: int|
                0 <= k < pre.blocks().len() && pre.blocks()[k].id != id ==> #[trigger] post.blocks()[k]
                    == pre.blocks()[k],
    {
        let bs0 = pre.blocks();
        let bs1 = post.blocks();
        assert forall|k: int| 0 <= k < bs0.len() implies (#[trigger] bs1[k]).id == bs0[k].id
            && bs1[k].journal_id == bs0[k].journal_id && bs1[k].parent_id == bs0[k].parent_id
            && bs1[k].forked_from_id == bs0[k].forked_from_id && bs1[k].created_at
            == bs0[k].created_at by {}
        assert forall|b: Option<u128>| #[trigger] names_block(bs0, b) implies names_block(
            bs1,
            b,
        ) by {
            if let Some(x) = b {
                let k = choose|k: int| 0 <= k < bs0.len() && #[trigger] bs0[k].id == x;
                assert(bs1[k].id == x);
            }
        }
        assert forall|a: int, b: int| 0 <= a < b < bs1.len() implies (#[trigger] bs1[a]).id != (
        #[trigger] bs1[b]).id by {
            assert(bs0[a].id != bs0[b].id);
        }
        assert forall|k: int| 0 <= k < bs1.len() implies has_journal(
            post.journals(),
            (#[trigger] bs1[k]).journal_id,
        ) && names_block(bs1, bs1[k].parent_id) && names_block(bs1, bs1[k].forked_from_id) by {
            assert(has_journal(pre.journals(), bs0[k].journal_id));
            assert(names_block(bs0, bs0[k].parent_id));
            assert(names_block(bs0, bs0[k].forked_from_id));
        }
        if lineage_ordered(bs0) {
            assert forall|a: int, k: int|
                0 <= a < bs1.len() && 0 <= k < bs1.len() && (#[trigger] bs1[a]).forked_from_id
                    == Some((#[trigger] bs1[k]).id) implies bs1[k].journal_id == bs1[a].journal_id
                && bs1[k].created_at.total_nanos() <= bs1[a].created_at.total_nanos() by {
                assert(bs0[a].forked_from_id == Some(bs0[k].id));
            }
        }
        assert forall|k: int| 0 <= k < bs0.len() && bs0[k].id != id implies #[trigger] bs1[k]
            == bs0[k] by {
            assert(k != i);
        }
    }

    /// Forks a block: a new user block with the content of the original,
    /// which is both its parent and its origin.
    pub fn fork_block(&mut self, block_id: u128) -> (r: Result<Block, AppError>)
        requires
            old(self).wf(),
        ensures
            final(self).wf(),
            match r {
                Ok(block) => has_block(old(self).blocks(), block_id) && final(self).created(
                    old(self),
                    block,
                    old(self).block(block_id).journal_id,
                    BlockType::User,
                    old(self).block(block_id).content@,
                    Some(block_id),
                    Some(block_id),
                ) && old(self).block(block_id).created_at.total_nanos()
                    <= block.created_at.total_nanos(),
                Err(e) => *final(self) == *old(self) && (if has_block(old(self).blocks(), block_id) {
                    e matches AppError::Database(m) && m@ == "UNIQUE constraint failed: blocks.id"@
                } else {
                    e matches AppError::NotFound(m) && m@ == block_missing(block_id)
                }),
            },
    {
        self.fork_block_with(fresh_id(), now(), block_id)
    }

    /// Forks a block; the new block gets the identifier `id` and the
    /// creation time `at`, or that of its origin where `at` lies before it:
    /// no block is older than what it was derived from.
    pub fn fork_block_with(&mut self, id: u128, at: Timestamp, block_id: u128) -> (r: Result<
        Block,
        AppError,
    >)
        requires
            old(self).wf(),
        ensures
            final(self).wf(),
            match r {
                Ok(block) => {
                    &&& has_block(old(self).blocks(), block_id)
                    &&& !has_block(old(self).blocks(), id)
                    &&& block.id == id
                    &&& block.created_at == at.later_of(old(self).block(block_id).created_at)
                    &&& final(self).created(
                        old(self),
                        block,
                        old(self).block(block_id).journal_id,
                        BlockType::User,
                        old(self).block(block_id).content@,
                        Some(block_id),
                        Some(block_id),
                    )
                },
                Err(e) => *final(self) == *old(self) && (if !has_block(
                    old(self).blocks(),
                    block_id,
                ) {
                    e matches AppError::NotFound(m) && m@ == block_missing(block_id)
                } else {
                    has_block(old(self).blocks(), id) && (e matches AppError::Database(m) && m@
                        == "UNIQUE constraint failed: blocks.id"@)
                }),
            },
    {
        let original = self.get_block(block_id)?;
        proof {
            let k = choose|k: int|
                0 <= k < self.blocks().len() && #[trigger] self.blocks()[k].id == block_id;
            assert(has_journal(self.journals(), self.blocks()[k].journal_id));
        }
        self.create_block_with(
            id,
            at,
            original.journal_id,
            BlockType::User,
            original.content.as_str(),
            Some(block_id),
            Some(block_id),
        )
    }

    /// The prompt that a rerun of a block repeats: the block's own content
    /// where a user wrote it, else the content of the latest user block
    /// before it in its journal.
    pub open spec fn rerun_prompt(&self, block_id: u128) -> Option<Seq<char>> {
        let original = self.block(block_id);
        if original.block_type == BlockType::User {
            Some(original.content@)
        } else {
            match preceding_prompt(self.blocks(), original) {
                Some(b) => Some(b.content@),
                None => None,
            }
        }
    }

    fn find_prompt(&self, original: &Block) -> (r: Option<usize>)
        ensures
            match r {
                Some(i) => i < self.blocks().len() && preceding_prompt(self.blocks(), *original)
                    == Some(self.blocks()[i as int]),
                None => preceding_prompt(self.blocks(), *original) is None,
            },
    {
        let mut best: Option<usize> = None;
        let mut i: usize = 0;
        proof {
            assert(self.blocks@.take(0) =~= Seq::<Block>::empty());
        }
        while i < self.blocks.len()
            invariant
                i <= self.blocks@.len(),
                match best {
                    Some(k) => k < i && preceding_prompt(self.blocks@.take(i as int), *original)
                        == Some(self.blocks@[k as int]),
                    None => preceding_prompt(self.blocks@.take(i as int), *original) is None,
                },
            decreases self.blocks@.len() - i,
        {
            proof {
                assert(self.blocks@.take(i + 1).drop_last() =~= self.blocks@.take(i as int));
            }
            let b = &self.blocks[i];
            if b.journal_id == original.journal_id && b.block_type == BlockType::User
                && b.created_at.is_before(&original.created_at) {
                let later = match best {
                    None => true,
                    Some(k) => !b.created_at.is_before(&self.blocks[k].created_at),
                };
                if later {
                    best = Some(i);
                }
            }
            i = i + 1;
        }
        proof {
            assert(self.blocks@.take(i as int) =~= self.blocks@);
        }
        best
    }

    /// Reruns a block: a new user block that repeats the prompt behind the
    /// original, which is both its parent and its origin.
    pub fn rerun_block(&mut self, block_id: u128) -> (r: Result<Block, AppError>)
        requires
            old(self).wf(),
        ensures
            final(self).wf(),
            match r {
                Ok(block) => has_block(old(self).blocks(), block_id) && old(self).rerun_prompt(
                    block_id,
                ) is Some && final(self).created(
                    old(self),
                    block,
                    old(self).block(block_id).journal_id,
                    BlockType::User,
                    old(self).rerun_prompt(block_id)->0,
                    Some(block_id),
                    Some(block_id),
                ) && old(self).block(block_id).created_at.total_nanos()
                    <= block.created_at.total_nanos(),
                Err(e) => *final(self) == *old(self) && (if !has_block(
                    old(self).blocks(),
                    block_id,
                ) {
                    e matches AppError::NotFound(m) && m@ == block_missing(block_id)
                } else if old(self).rerun_prompt(block_id) is None {
                    e matches AppError::NotFound(m) && m@ == "No preceding user block found"@
                } else {
                    e matches AppError::Database(m) && m@ == "UNIQUE constraint failed: blocks.id"@
                }),
            },
    {
        self.rerun_block_with(fresh_id(), now(), block_id)
    }

    /// Reruns a block; the new block gets the identifier `id` and the
    /// creation time `at`, or that of its origin where `at` lies before it.
    pub fn rerun_block_with(&mut self, id: u128, at: Timestamp, block_id: u128) -> (r: Result<
        Block,
        AppError,
    >)
        requires
            old(self).wf(),
        ensures
            final(self).wf(),
            match r {
                Ok(block) => {
                    &&& has_block(old(self).blocks(), block_id)
                    &&& old(self).rerun_prompt(block_id) is Some
                    &&& !has_block(old(self).blocks(), id)
                    &&& block.id == id
                    &&& block.created_at == at.later_of(old(self).block(block_id).created_at)
                    &&& final(self).created(
                        old(self),
                        block,
                        old(self).block(block_id).journal_id,
                        BlockType::User,
                        old(self).rerun_prompt(block_id)->0,
                        Some(block_id),
                        Some(block_id),
                    )
                },
                Err(e) => *final(self) == *old(self) && (if !has_block(
                    old(self).blocks(),
                    block_id,
                ) {
                    e matches AppError::NotFound(m) && m@ == block_missing(block_id)
                } else if old(self).rerun_prompt(block_id) is None {
                    e matches AppError::NotFound(m) && m@ == "No preceding user block found"@
                } else {
                    has_block(old(self).blocks(), id) && (e matches AppError::Database(m) && m@
                        == "UNIQUE constraint failed: blocks.id"@)
                }),
            },
    {
        let original = self.get_block(block_id)?;
        proof {
            let k = choose|k: int|
                0 <= k < self.blocks().len() && #[trigger] self.blocks()[k].id == block_id;
            assert(has_journal(self.journals(), self.blocks()[k].journal_id));
        }
        let content = match original.block_type {
            BlockType::User => original.content.clone(),
            BlockType::Assistant => match self.find_prompt(&original) {
                Some(i) => self.blocks[i].content.clone(),
                None => {
                    return Err(AppError::NotFound(owned("No preceding user block found")));
                },
            },
        };
        self.create_block_with(
            id,
            at,
            original.journal_id,
            BlockType::User,
            content.as_str(),
            Some(block_id),
            Some(block_id),
        )
    }

    /// Law: in a well-formed store every block that names an origin or a
    /// parent names a block of the store, and every block lies in a journal
    /// of the store.
    pub proof fn lemma_lineage_exists(&self, k: int)
        requires
            self.wf(),
            0 <= k < self.blocks().len(),
        ensures
            has_journal(self.journals(), self.blocks()[k].journal_id),
            self.blocks()[k].forked_from_id matches Some(f) ==> has_block(self.blocks(), f),
            self.blocks()[k].parent_id matches Some(p) ==> has_block(self.blocks(), p),
    {
    }

    /// Law: the origin of a block lies in the block's journal and is no
    /// younger than the block.
    pub proof fn lemma_lineage_ordered(&self, k: int)
        requires
            self.wf(),
            0 <= k < self.blocks().len(),
            self.blocks()[k].forked_from_id is Some,
        ensures
            has_block(self.blocks(), self.blocks()[k].forked_from_id->0),
            self.block(self.blocks()[k].forked_from_id->0).journal_id
                == self.blocks()[k].journal_id,
            self.block(self.blocks()[k].forked_from_id->0).created_at.total_nanos()
                <= self.blocks()[k].created_at.total_nanos(),
    {
        let f = self.blocks()[k].forked_from_id->0;
        assert(names_block(self.blocks(), self.blocks()[k].forked_from_id));
        let i = choose|i: int| 0 <= i < self.blocks().len() && self.blocks()[i].id == f;
        assert(self.blocks()[k].forked_from_id == Some(self.blocks()[i].id));
    }

    /// Rebuilds a store from the journals and blocks that a database
    /// holds, in the order of their creation. Rows that break the rules of
    /// the store are an internal error: a repeated id, an edge that leads
    /// nowhere, a block that is older than its origin or lies in another
    /// journal.
    pub fn restore(journals: Vec<Journal>, blocks: Vec<Block>) -> (r: Result<Store, AppError>)
        ensures
            match r {
                Ok(store) => store.wf() && store.journals() == journals@ && store.blocks()
                    == blocks@,
                Err(e) => !(tables_wf(journals@, blocks@) && lineage_ordered(blocks@))
                    && e matches AppError::Internal(_),
            },
    {
        let store = Store { journals, blocks };
        let mut i: usize = 0;
        while i < store.journals.len()
            invariant
                i <= store.journals@.len(),
                store.journals@ == journals@,
                store.blocks@ == blocks@,
                forall|a: int, b: int|
                    0 <= a < b < i ==> (#[trigger] store.journals@[a]).id != (
                    #[trigger] store.journals@[b]).id,
            decreases store.journals@.len() - i,
        {
            let mut k: usize = 0;
            while k < i
                invariant
                    k <= i < store.journals@.len(),
                    store.journals@ == journals@,
                    store.blocks@ == blocks@,
                    forall|a: int| 0 <= a < k ==> (#[trigger] store.journals@[a]).id
                        != store.journals@[i as int].id,
                decreases i - k,
            {
                if store.journals[k].id == store.journals[i].id {
                    proof {
                        if tables_wf(journals@, blocks@) {
                            assert(journals@[k as int].id != journals@[i as int].id);
                        }
                    }
                    return Err(AppError::Internal(owned("Stored journals share an id")));
                }
                k = k + 1;
            }
            i = i + 1;
        }
        let mut n: usize = 0;
        while n < store.blocks.len()
            invariant
                n <= store.blocks@.len(),
                store.journals@ == journals@,
                store.blocks@ == blocks@,
                forall|a: int, b: int|
                    0 <= a < b < store.journals@.len() ==> (#[trigger] store.journals@[a]).id != (
                    #[trigger] store.journals@[b]).id,
                forall|a: int, b: int|
                    0 <= a < b < n ==> (#[trigger] store.blocks@[a]).id != (
                    #[trigger] store.blocks@[b]).id,
                forall|a: int|
                    0 <= a < n ==> has_journal(
                        store.journals@,
                        (#[trigger] store.blocks@[a]).journal_id,
                    ) && names_block(store.blocks@, store.blocks@[a].parent_id) && names_block(
                        store.blocks@,
                        store.blocks@[a].forked_from_id,
                    ),
            decreases store.blocks@.len() - n,
        {
            let mut k: usize = 0;
            while k < n
                invariant
                    k <= n < store.blocks@.len(),
                    store.journals@ == journals@,
                    store.blocks@ == blocks@,
                    forall|a: int| 0 <= a < k ==> (#[trigger] store.blocks@[a]).id
                        != store.blocks@[n as int].id,
                decreases n - k,
            {
                if store.blocks[k].id == store.blocks[n].id {
                    proof {
                        if tables_wf(journals@, blocks@) {
                            assert(blocks@[k as int].id != blocks@[n as int].id);
                        }
                    }
                    return Err(AppError::Internal(owned("Stored blocks share an id")));
                }
                k = k + 1;
            }
            if store.journal_index(store.blocks[n].journal_id).is_none()
                || !store.names_known_block(store.blocks[n].parent_id)
                || !store.names_known_block(store.blocks[n].forked_from_id) {
                proof {
                    if tables_wf(journals@, blocks@) {
                        assert(has_journal(journals@, blocks@[n as int].journal_id));
                    }
                }
                return Err(AppError::Internal(owned("A stored block names what is not stored")));
            }
            n = n + 1;
        }
        let mut m: usize = 0;
        while m < store.blocks.len()
            invariant
                m <= store.blocks@.len(),
                store.journals@ == journals@,
                store.blocks@ == blocks@,
                tables_wf(store.journals@, store.blocks@),
                forall|i: int, k: int|
                    0 <= i < m && 0 <= k < store.blocks@.len() && (
                    #[trigger] store.blocks@[i]).forked_from_id == Some(
                        (#[trigger] store.blocks@[k]).id,
                    ) ==> store.blocks@[k].journal_id == store.blocks@[i].journal_id
                        && store.blocks@[k].created_at.total_nanos()
                        <= store.blocks@[i].created_at.total_nanos(),
            decreases store.blocks@.len() - m,
        {
            if let Some(f) = store.blocks[m].forked_from_id {
                match store.block_index(f) {
                    None => {
                        proof {
                            assert(names_block(store.blocks@, store.blocks@[m as int].forked_from_id));
                        }
                    },
                    Some(k) => {
                        if store.blocks[k].journal_id != store.blocks[m].journal_id
                            || store.blocks[m].created_at.is_before(&store.blocks[k].created_at) {
                            return Err(
                                AppError::Internal(
                                    owned("A stored block does not follow its origin"),
                                ),
                            );
                        }
                        proof {
                            assert forall|x: int|
                                0 <= x < store.blocks@.len() && store.blocks@[m as int].forked_from_id
                                    == Some((#[trigger] store.blocks@[x]).id) implies x == k by {
                                if x < k {
                                    assert(store.blocks@[x].id != store.blocks@[k as int].id);
                                } else if k < x {
                                    assert(store.blocks@[k as int].id != store.blocks@[x].id);
                                }
                            }
                        }
                    },
                }
            }
            m = m + 1;
        }
        Ok(store)
    }

    fn select(&self, which: Selector) -> (r: Vec<Block>)
        requires
            self.wf(),
        ensures
            is_answer(r@, self.blocks(), which),
    {
        let mut out: Vec<Block> = Vec::new();
        let mut i: usize = 0;
        while i < self.blocks.len()
            invariant
                i <= self.blocks@.len(),
                self.wf(),
                is_answer(out@, self.blocks@.take(i as int), which),
            decreases self.blocks@.len() - i,
        {
            let wanted = match which {
                Selector::InJournal(j) => self.blocks[i].journal_id == j,
                Selector::ForkedFrom(f) => match self.blocks[i].forked_from_id {
                    Some(x) => x == f,
                    None => false,
                },
                Selector::ChildOf(p) => match self.blocks[i].parent_id {
                    Some(x) => x == p,
                    None => false,
                },
            };
            let ghost before = out@;
            let ghost seen = self.blocks@.take(i as int);
            proof {
                assert(self.blocks@.take(i + 1) =~= seen.push(self.blocks@[i as int]));
                assert forall|k: int| 0 <= k < seen.len() implies (#[trigger] seen[k]).id
                    != self.blocks@[i as int].id by {
                    assert(self.blocks@[k].id != self.blocks@[i as int].id);
                }
            }
            if wanted {
                insert_by_age(&mut out, self.blocks[i].duplicate());
                proof {
                    let p = choose|p: int|
                        0 <= p <= before.len() && out@ == before.insert(p, self.blocks@[i as int]);
                    lemma_answer_insert(before, out@, p, seen, self.blocks@[i as int], which);
                }
            } else {
                proof {
                    lemma_answer_skip(before, seen, self.blocks@[i as int], which);
                }
            }
            i = i + 1;
        }
        proof {
            assert(self.blocks@.take(i as int) =~= self.blocks@);
        }
        out
    }
}

/// The start of the message with which a block row is refused, if it is.
/// The lineage ids are read first, then the block's own ids, then its type
/// and status.
pub open spec fn block_row_refusal(row: BlockRow) -> Option<Seq<char>> {
    if row.parent_id is Some && parsed_id(row.parent_id->0@) is None {
        Some("Invalid parent_id UUID: "@)
    } else if row.forked_from_id is Some && parsed_id(row.forked_from_id->0@) is None {
        Some("Invalid forked_from_id UUID: "@)
    } else if parsed_id(row.id@) is None || parsed_id(row.journal_id@) is None {
        Some("Invalid UUID: "@)
    } else if block_type_named(row.block_type@) is None {
        Some("Invalid block type: "@ + ("Invalid block type: "@ + row.block_type@))
    } else if block_status_named(row.status@) is None {
        Some("Invalid status: "@ + ("Invalid block status: "@ + row.status@))
    } else {
        None
    }
}

/// The identifier that an optional text denotes.
pub open spec fn parsed_optional(text: Option<String>) -> Option<u128> {
    match text {
        Some(t) => parsed_id(t@),
        None => None,
    }
}

fn read_id(text: &str, complaint: &str) -> (r: Result<u128, AppError>)
    ensures
        match r {
            Ok(id) => parsed_id(text@) == Some(id),
            Err(e) => parsed_id(text@) is None && (e matches AppError::Internal(m) && starts_with(
                m@,
                complaint@,
            )),
        },
        forall|id: u128| text@ == #[trigger] canonical_text(id) ==> parsed_id(text@) == Some(id),
{
    match parse_id(text) {
        Ok(id) => Ok(id),
        Err(e) => {
            let message = concat(complaint, parse_failure_text(&e).as_str());
            proof {
                assert(message@.subrange(0, complaint@.len() as int) =~= complaint@);
            }
            Err(AppError::Internal(message))
        },
    }
}

fn read_optional_id(text: &Option<String>, complaint: &str) -> (r: Result<Option<u128>, AppError>)
    ensures
        match r {
            Ok(id) => id == parsed_optional(*text) && (text is Some ==> id is Some),
            Err(e) => text is Some && parsed_id(text->0@) is None && (e matches AppError::Internal(
                m,
            ) && starts_with(m@, complaint@)),
        },
        forall|id: Option<u128>|
            crate::opencode::text_of(*text) == #[trigger] optional_text(id) ==> parsed_optional(
                *text,
            ) == id,
{
    match text {
        None => Ok(None),
        Some(t) => match read_id(t.as_str(), complaint) {
            Ok(id) => Ok(Some(id)),
            Err(e) => Err(e),
        },
    }
}

/// Whether the row is the one that holds the journal.
pub open spec fn holds_journal(row: JournalRow, journal: Journal) -> bool {
    &&& row.id@ == canonical_text(journal.id)
    &&& row.title == journal.title
    &&& row.created_at == journal.created_at
    &&& row.updated_at == journal.updated_at
}

/// Whether the row is the one that holds the block.
pub open spec fn holds_block(row: BlockRow, block: Block) -> bool {
    &&& row.id@ == canonical_text(block.id)
    &&& row.journal_id@ == canonical_text(block.journal_id)
    &&& row.block_type@ == block.block_type.name()
    &&& row.content == block.content
    &&& row.status@ == block.status.name()
    &&& crate::opencode::text_of(row.parent_id) == optional_text(block.parent_id)
    &&& crate::opencode::text_of(row.forked_from_id) == optional_text(block.forked_from_id)
    &&& row.created_at == block.created_at
    &&& row.updated_at == block.updated_at
}

/// Turns a journal row into a journal. A row whose id is no identifier is
/// an internal error. The row that holds a journal gives that journal
/// back.
pub fn journal_from_row(row: JournalRow) -> (r: Result<Journal, AppError>)
    ensures
        match r {
            Ok(journal) => parsed_id(row.id@) == Some(journal.id) && journal.title == row.title
                && journal.created_at == row.created_at && journal.updated_at == row.updated_at,
            Err(e) => parsed_id(row.id@) is None && (e matches AppError::Internal(m) && starts_with(
                m@,
                "Invalid UUID: "@,
            )),
        },
        forall|journal: Journal| #[trigger]
            holds_journal(row, journal) ==> r == Ok::<Journal, AppError>(journal),
{
    let id = read_id(row.id.as_str(), "Invalid UUID: ")?;
    Ok(Journal { id, title: row.title, created_at: row.created_at, updated_at: row.updated_at })
}

/// Turns a block row into a block. A row with an unreadable id, type or
/// status is an internal error. The row that holds a block gives that
/// block back.
pub fn block_from_row(row: BlockRow) -> (r: Result<Block, AppError>)
    ensures
        forall|block: Block| #[trigger] holds_block(row, block) ==> r == Ok::<Block, AppError>(block),
        match r {
            Ok(block) => {
                &&& block_row_refusal(row) is None
                &&& Some(block.id) == parsed_id(row.id@)
                &&& Some(block.journal_id) == parsed_id(row.journal_id@)
                &&& Some(block.block_type) == block_type_named(row.block_type@)
                &&& block.content == row.content
                &&& Some(block.status) == block_status_named(row.status@)
                &&& block.parent_id == parsed_optional(row.parent_id)
                &&& block.forked_from_id == parsed_optional(row.forked_from_id)
                &&& block.created_at == row.created_at
                &&& block.updated_at == row.updated_at
            },
            Err(e) => block_row_refusal(row) is Some && (e matches AppError::Internal(m)
                && starts_with(m@, block_row_refusal(row)->0)),
        },
{
    proof {
        assert forall|b: Block| #[trigger] holds_block(row, b) implies block_type_named(
            row.block_type@,
        ) == Some(b.block_type) && block_status_named(row.status@) == Some(b.status) by {
            crate::models::lemma_names_round_trip(b.block_type, b.status);
        }
    }
    let parent_id = read_optional_id(&row.parent_id, "Invalid parent_id UUID: ")?;
    let forked_from_id = read_optional_id(&row.forked_from_id, "Invalid forked_from_id UUID: ")?;
    let id = read_id(row.id.as_str(), "Invalid UUID: ")?;
    let journal_id = read_id(row.journal_id.as_str(), "Invalid UUID: ")?;
    let block_type = match BlockType::parse(row.block_type.as_str()) {
        Ok(t) => t,
        Err(e) => {
            let message = concat("Invalid block type: ", e.as_str());
            proof {
                assert(message@ =~= "Invalid block type: "@ + ("Invalid block type: "@
                    + row.block_type@));
                assert(message@.subrange(0, message@.len() as int) =~= message@);
            }
            return Err(AppError::Internal(message));
        },
    };
    let status = match BlockStatus::parse(row.status.as_str()) {
        Ok(s) => s,
        Err(e) => {
            let message = concat("Invalid status: ", e.as_str());
            proof {
                assert(message@ =~= "Invalid status: "@ + ("Invalid block status: "@
                    + row.status@));
                assert(message@.subrange(0, message@.len() as int) =~= message@);
            }
            return Err(AppError::Internal(message));
        },
    };
    let block = Block {
        id,
        journal_id,
        block_type,
        content: row.content,
        status,
        parent_id,
        forked_from_id,
        created_at: row.created_at,
        updated_at: row.updated_at,
    };
    proof {
        assert forall|b: Block| #[trigger] holds_block(row, b) implies block == b by {
            assert(optional_text(b.parent_id) == crate::opencode::text_of(row.parent_id));
            assert(optional_text(b.forked_from_id) == crate::opencode::text_of(row.forked_from_id));
            assert(canonical_text(b.id) == row.id@);
            assert(canonical_text(b.journal_id) == row.journal_id@);
        }
    }
    Ok(block)
}

/// The row that holds a journal.
pub fn journal_to_row(journal: &Journal) -> (r: JournalRow)
    ensures
        holds_journal(r, *journal),
{
    JournalRow {
        id: id_text(journal.id),
        title: journal.title.clone(),
        created_at: journal.created_at,
        updated_at: journal.updated_at,
    }
}

/// The canonical text of an optional identifier.
pub open spec fn optional_text(id: Option<u128>) -> Option<Seq<char>> {
    match id {
        Some(x) => Some(canonical_text(x)),
        None => None,
    }
}

fn optional_id_text(id: Option<u128>) -> (r: Option<String>)
    ensures
        crate::opencode::text_of(r) == optional_text(id),
{
    match id {
        Some(x) => Some(id_text(x)),
        None => None,
    }
}

/// The row that holds a block.
pub fn block_to_row(block: &Block) -> (r: BlockRow)
    ensures
        holds_block(r, *block),
{
    BlockRow {
        id: id_text(block.id),
        journal_id: id_text(block.journal_id),
        block_type: owned(block.block_type.as_str()),
        content: block.content.clone(),
        status: owned(block.status.as_str()),
        parent_id: optional_id_text(block.parent_id),
        forked_from_id: optional_id_text(block.forked_from_id),
        created_at: block.created_at,
        updated_at: block.updated_at,
    }
}

/// Whether the blocks stand oldest first.
pub open spec fn oldest_first(r: Seq<Block>) -> bool {
    forall|i: int, j: int|
        0 <= i <= j < r.len() ==> (#[trigger] r[i]).created_at.total_nanos() <= (
        #[trigger] r[j]).created_at.total_nanos()
}

fn insert_by_age(out: &mut Vec<Block>, block: Block)
    requires
        oldest_first(old(out)@),
    ensures
        oldest_first(final(out)@),
        exists|p: int| 0 <= p <= old(out)@.len() && final(out)@ == old(out)@.insert(p, block),
{
    let mut p: usize = 0;
    while p < out.len() && !block.created_at.is_before(&out[p].created_at)
        invariant
            p <= out@.len(),
            out@ == old(out)@,
            forall|k: int|
                0 <= k < p ==> (#[trigger] out@[k]).created_at.total_nanos()
                    <= block.created_at.total_nanos(),
        decreases out@.len() - p,
    {
        p = p + 1;
    }
    let ghost before = out@;
    out.insert(p, block);
    proof {
        let after = out@;
        assert(after == before.insert(p as int, block));
        assert forall|a: int, b: int| 0 <= a <= b < after.len() implies (
        #[trigger] after[a]).created_at.total_nanos() <= (
        #[trigger] after[b]).created_at.total_nanos() by {
            let x = if a < p {
                a
            } else {
                a - 1
            };
            let y = if b < p {
                b
            } else {
                b - 1
            };
            if a != p {
                assert(after[a] == before[x]);
            }
            if b != p {
                assert(after[b] == before[y]);
            }
            if a != p && b != p {
                assert(before[x].created_at.total_nanos() <= before[y].created_at.total_nanos());
            }
            if a == p && b != p {
                assert(before[p as int].created_at.total_nanos()
                    <= before[y].created_at.total_nanos());
            }
        }
    }
}

proof fn lemma_answer_skip(before: Seq<Block>, seen: Seq<Block>, block: Block, which: Selector)
    requires
        is_answer(before, seen, which),
        !selected(which, block),
    ensures
        is_answer(before, seen.push(block), which),
{
    let seen2 = seen.push(block);
    assert forall|a: int| 0 <= a < before.len() implies seen2.contains(#[trigger] before[a]) by {
        assert(seen.contains(before[a]));
        let k = choose|k: int| 0 <= k < seen.len() && seen[k] == before[a];
        assert(seen2[k] == before[a]);
    }
    assert forall|k: int|
        0 <= k < seen2.len() && selected(which, #[trigger] seen2[k]) implies before.contains(
        seen2[k],
    ) by {
        assert(k < seen.len());
        assert(seen2[k] == seen[k]);
    }
}

proof fn lemma_answer_insert(
    before: Seq<Block>,
    after: Seq<Block>,
    p: int,
    seen: Seq<Block>,
    block: Block,
    which: Selector,
)
    requires
        is_answer(before, seen, which),
        0 <= p <= before.len(),
        after == before.insert(p, block),
        selected(which, block),
        oldest_first(after),
        forall|k: int| 0 <= k < seen.len() ==> (#[trigger] seen[k]).id != block.id,
    ensures
        is_answer(after, seen.push(block), which),
{
    let seen2 = seen.push(block);
    assert forall|a: int| 0 <= a < after.len() implies seen2.contains(#[trigger] after[a])
        && selected(which, after[a]) by {
        if a < p {
            assert(after[a] == before[a]);
            assert(seen.contains(before[a]));
            let k = choose|k: int| 0 <= k < seen.len() && seen[k] == before[a];
            assert(seen2[k] == after[a]);
        } else if a == p {
            assert(seen2[seen.len() as int] == after[a]);
        } else {
            assert(after[a] == before[a - 1]);
            assert(seen.contains(before[a - 1]));
            let k = choose|k: int| 0 <= k < seen.len() && seen[k] == before[a - 1];
            assert(seen2[k] == after[a]);
        }
    }
    assert forall|k: int|
        0 <= k < seen2.len() && selected(which, #[trigger] seen2[k]) implies after.contains(
        seen2[k],
    ) by {
        if k < seen.len() {
            assert(seen2[k] == seen[k]);
            assert(before.contains(seen[k]));
            let a = choose|a: int| 0 <= a < before.len() && before[a] == seen[k];
            if a < p {
                assert(after[a] == seen2[k]);
            } else {
                assert(after[a + 1] == seen2[k]);
            }
        } else {
            assert(after[p] == seen2[k]);
        }
    }
    assert forall|a: int, b: int| 0 <= a < b < after.len() implies (#[trigger] after[a]).id != (
    #[trigger] after[b]).id by {
        let x = if a < p {
            a
        } else {
            a - 1
        };
        let y = if b < p {
            b
        } else {
            b - 1
        };
        if a != p {
            assert(after[a] == before[x]);
            assert(seen.contains(before[x]));
            let k = choose|k: int| 0 <= k < seen.len() && seen[k] == before[x];
            assert(seen[k].id != block.id);
        }
        if b != p {
            assert(after[b] == before[y]);
            assert(seen.contains(before[y]));
            let k = choose|k: int| 0 <= k < seen.len() && seen[k] == before[y];
            assert(seen[k].id != block.id);
        }
        if a != p && b != p {
            assert(before[x].id != before[y].id);
        }
    }
}

} // verus!
