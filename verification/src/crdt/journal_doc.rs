//! The shared document of a journal: a mergeable map from block ids to
//! collaborative texts.
//!
//! The document lives in a `yrs::Doc`. Each block has its text under the
//! canonical form of its id, in the map named `blocks` at the root of the
//! document.

use vstd::prelude::*;
use std::collections::HashMap;
use crate::ident::{canonical_text, id_text, parse_id, parsed_id};
use crate::table::{has, put, take};

verus! {

#[verifier::external_type_specification]
#[verifier::external_body]
pub struct ExDoc(yrs::Doc);

#[verifier::external_type_specification]
#[verifier::external_body]
pub struct ExReadError(yrs::encoding::read::Error);

/// The texts of the document: for every key of the `blocks` map under
/// which a text stands, what that text reads.
pub uninterp spec fn doc_texts(doc: yrs::Doc) -> Map<Seq<char>, Seq<char>>;

/// The keys of the `blocks` map of the document, whatever stands under
/// them.
pub uninterp spec fn doc_keys(doc: yrs::Doc) -> Set<Seq<char>>;

/// The length of the text under `key`, in the units in which the document
/// counts positions.
pub uninterp spec fn doc_text_len(doc: yrs::Doc, key: Seq<char>) -> nat;

/// Whether the bytes read as an update of a document.
pub uninterp spec fn update_read(bytes: Seq<u8>) -> bool;

/// Whether the bytes read as a summary of what a replica has seen.
pub uninterp spec fn vector_read(bytes: Seq<u8>) -> bool;

/// Whether the document is as `yrs::Doc::new` made it: nothing was written
/// into it and nothing merged.
pub uninterp spec fn doc_new(doc: yrs::Doc) -> bool;

/// Whether the document can take the bytes: whether reading them as an
/// update and merging it comes back. The merge stops halfway on some bytes
/// that no replica writes.
pub uninterp spec fn update_fits(doc: yrs::Doc, bytes: Seq<u8>) -> bool;

/// Whether the bytes are the whole state of the document as it writes it.
pub uninterp spec fn whole_state(doc: yrs::Doc, bytes: Seq<u8>) -> bool;

/// Whether the bytes are the summary of what the document has seen, its
/// state vector, as it writes it.
pub uninterp spec fn vector_of(doc: yrs::Doc, bytes: Seq<u8>) -> bool;

/// The texts of the document once it has merged the bytes as an update.
pub uninterp spec fn merged_texts(doc: yrs::Doc, bytes: Seq<u8>) -> Map<Seq<char>, Seq<char>>;

/// The keys of the document once it has merged the bytes as an update.
pub uninterp spec fn merged_keys(doc: yrs::Doc, bytes: Seq<u8>) -> Set<Seq<char>>;

/// Whether the bytes can start a document: whether every new document can
/// take them.
pub open spec fn starts_document(bytes: Seq<u8>) -> bool {
    forall|fresh: yrs::Doc| #[trigger] doc_new(fresh) ==> update_fits(fresh, bytes)
}

/// The texts of an empty document: none.
pub open spec fn no_texts() -> Map<Seq<char>, Seq<char>> {
    Map::empty()
}

/// Trusted: `yrs::Doc::new` makes an empty document; its replica
/// identifier is random.
#[verifier::external_body]
fn new_doc() -> (r: yrs::Doc)
    ensures
        doc_new(r),
        doc_texts(r) == no_texts(),
        doc_keys(r) == Set::<Seq<char>>::empty(),
{
    yrs::Doc::new()
}

/// Trusted: `Map::get` finds what stands under a key, and `get_string`
/// reads a text. A text that is found stands under one of the map's keys.
#[verifier::external_body]
fn read_text(doc: &yrs::Doc, key: &str) -> (r: Option<String>)
    ensures
        r.is_some() == doc_texts(*doc).contains_key(key@),
        r matches Some(s) ==> s@ == doc_texts(*doc)[key@] && doc_keys(*doc).contains(key@),
{
    let map = doc.get_or_insert_map("blocks");
    let txn = yrs::Transact::transact(doc);
    match yrs::Map::get(&map, &txn, key) {
        Some(yrs::Value::YText(text)) => Some(yrs::GetString::get_string(&text, &txn)),
        _ => None,
    }
}

/// Trusted: `Text::len` counts what a text holds; a text of length zero
/// reads as the empty string.
#[verifier::external_body]
fn text_len(doc: &yrs::Doc, key: &str) -> (r: u32)
    requires
        doc_texts(*doc).contains_key(key@),
    ensures
        r == doc_text_len(*doc, key@),
        r == 0 ==> doc_texts(*doc)[key@] == Seq::<char>::empty(),
{
    let map = doc.get_or_insert_map("blocks");
    let txn = yrs::Transact::transact(doc);
    match yrs::Map::get(&map, &txn, key) {
        Some(yrs::Value::YText(text)) => yrs::Text::len(&text, &txn),
        _ => 0,
    }
}

/// Trusted: `Map::insert` with an empty `TextPrelim` puts a new empty text
/// under the key, in place of whatever stood there.
#[verifier::external_body]
fn insert_empty_text(doc: &mut yrs::Doc, key: &str)
    ensures
        doc_texts(*final(doc)) == doc_texts(*old(doc)).insert(key@, Seq::<char>::empty()),
        doc_keys(*final(doc)) == doc_keys(*old(doc)).insert(key@),
        doc_text_len(*final(doc), key@) == 0,
{
    let map = doc.get_or_insert_map("blocks");
    let mut txn = yrs::Transact::transact_mut(doc);
    yrs::Map::insert(&map, &mut txn, key, yrs::TextPrelim::new(""));
}

/// Trusted: `Text::remove_range` from the start over the whole length
/// leaves a text that reads as the empty string.
#[verifier::external_body]
fn clear_text(doc: &mut yrs::Doc, key: &str, len: u32)
    requires
        doc_texts(*old(doc)).contains_key(key@),
        len == doc_text_len(*old(doc), key@),
    ensures
        doc_texts(*final(doc)) == doc_texts(*old(doc)).insert(key@, Seq::<char>::empty()),
        doc_keys(*final(doc)) == doc_keys(*old(doc)),
        doc_text_len(*final(doc), key@) == 0,
{
    let map = doc.get_or_insert_map("blocks");
    let mut txn = yrs::Transact::transact_mut(doc);
    if let Some(yrs::Value::YText(text)) = yrs::Map::get(&map, &txn, key) {
        yrs::Text::remove_range(&text, &mut txn, 0, len);
    }
}

/// Trusted: `Text::insert` at the length of a text appends the chunk.
#[verifier::external_body]
fn append_text(doc: &mut yrs::Doc, key: &str, at: u32, chunk: &str)
    requires
        doc_texts(*old(doc)).contains_key(key@),
        at == doc_text_len(*old(doc), key@),
    ensures
        doc_texts(*final(doc)) == doc_texts(*old(doc)).insert(
            key@,
            doc_texts(*old(doc))[key@] + chunk@,
        ),
        doc_keys(*final(doc)) == doc_keys(*old(doc)),
{
    let map = doc.get_or_insert_map("blocks");
    let mut txn = yrs::Transact::transact_mut(doc);
    if let Some(yrs::Value::YText(text)) = yrs::Map::get(&map, &txn, key) {
        yrs::Text::insert(&text, &mut txn, at, chunk);
    }
}

/// Trusted: `Map::remove` takes the entry under the key away.
#[verifier::external_body]
fn remove_entry(doc: &mut yrs::Doc, key: &str)
    ensures
        doc_texts(*final(doc)) == doc_texts(*old(doc)).remove(key@),
        doc_keys(*final(doc)) == doc_keys(*old(doc)).remove(key@),
{
    let map = doc.get_or_insert_map("blocks");
    let mut txn = yrs::Transact::transact_mut(doc);
    yrs::Map::remove(&map, &mut txn, key);
}

/// Trusted: `Map::keys` walks the keys of the map, each once, in no
/// particular order.
#[verifier::external_body]
fn list_keys(doc: &yrs::Doc) -> (r: Vec<String>)
    ensures
        r@.map_values(|k: String| k@).to_set() == doc_keys(*doc),
        r@.map_values(|k: String| k@).no_duplicates(),
{
    let map = doc.get_or_insert_map("blocks");
    let txn = yrs::Transact::transact(doc);
    yrs::Map::keys(&map, &txn).map(|k| k.to_string()).collect()
}

/// Trusted: `encode_state_as_update_v1` against the empty state vector
/// writes the whole state as one update, which `Update::decode_v1` reads.
/// A new document takes it and then reads as this one does: it is the
/// full state. The bytes themselves depend on the history of the replica,
/// so nothing else is claimed of them.
#[verifier::external_body]
fn encode_whole(doc: &yrs::Doc) -> (r: Vec<u8>)
    ensures
        update_read(r@),
        whole_state(*doc, r@),
        forall|fresh: yrs::Doc|
            doc_new(fresh) ==> update_fits(fresh, r@) && merged_texts(fresh, r@) == doc_texts(*doc)
                && merged_keys(fresh, r@) == doc_keys(*doc),
{
    let txn = yrs::Transact::transact(doc);
    yrs::ReadTxn::encode_state_as_update_v1(&txn, &yrs::StateVector::default())
}

/// Trusted: `state_vector` and `encode_v1` write the summary of what the
/// replica has seen, which `StateVector::decode_v1` reads. Nothing else is
/// claimed of the bytes.
#[verifier::external_body]
fn encode_vector(doc: &yrs::Doc) -> (r: Vec<u8>)
    ensures
        vector_read(r@),
        vector_of(*doc, r@),
{
    let txn = yrs::Transact::transact(doc);
    yrs::updates::encoder::Encode::encode_v1(&yrs::ReadTxn::state_vector(&txn))
}

/// Trusted: `StateVector::decode_v1` reads a remote summary, which
/// depends on the bytes alone, and `encode_state_as_update_v1` writes what
/// the remote lacks. It fails where the summary cannot be read and nowhere
/// else; what it writes is an update that `Update::decode_v1` reads. It
/// leaves out only what the summary says the remote has: a document whose
/// summary this is reads after merging it what it reads after merging the
/// whole state. Nothing else is claimed of the bytes.
#[verifier::external_body]
fn encode_missing(doc: &yrs::Doc, remote: &[u8]) -> (r: Result<Vec<u8>, yrs::encoding::read::Error>)
    ensures
        r.is_ok() == vector_read(remote@),
        r matches Ok(bytes) ==> update_read(bytes@),
        forall|other: yrs::Doc, whole: Seq<u8>|
            r.is_ok() && vector_of(other, remote@) && whole_state(*doc, whole) && update_fits(
                other,
                whole,
            ) ==> update_fits(other, r.unwrap()@) && merged_texts(other, r.unwrap()@)
                == merged_texts(other, whole) && merged_keys(other, r.unwrap()@) == merged_keys(
                other,
                whole,
            ),
{
    let sv: yrs::StateVector = yrs::updates::decoder::Decode::decode_v1(remote)?;
    let txn = yrs::Transact::transact(doc);
    Ok(yrs::ReadTxn::encode_state_as_update_v1(&txn, &sv))
}

/// Trusted: `Update::decode_v1` reads an update, which depends on the
/// bytes alone, and `apply_update` merges it. The integration panics on
/// some updates that no replica writes, so the call is for bytes that the
/// document can take. It fails where the update cannot be read and
/// nowhere else, and then changes nothing. What the document reads after
/// a merge depends on the document and the bytes alone. What was merged
/// once can be merged again, and is then passed over: the crate documents
/// that blocks which the document holds already are ignored.
#[verifier::external_body]
fn merge_update(doc: &mut yrs::Doc, update: &[u8]) -> (r: Result<(), yrs::encoding::read::Error>)
    requires
        update_fits(*old(doc), update@),
    ensures
        r.is_ok() == update_read(update@),
        r is Err ==> doc_texts(*final(doc)) == doc_texts(*old(doc)) && doc_keys(*final(doc))
            == doc_keys(*old(doc)),
        r is Ok ==> doc_texts(*final(doc)) == merged_texts(*old(doc), update@) && doc_keys(
            *final(doc),
        ) == merged_keys(*old(doc), update@),
        r is Ok ==> update_fits(*final(doc), update@) && merged_texts(*final(doc), update@)
            == doc_texts(*final(doc)) && merged_keys(*final(doc), update@) == doc_keys(
            *final(doc),
        ),
{
    let decoded: yrs::Update = yrs::updates::decoder::Decode::decode_v1(update)?;
    let mut txn = yrs::Transact::transact_mut(doc);
    txn.apply_update(decoded);
    Ok(())
}

/// The shared document of a journal.
pub struct JournalDoc {
    doc: yrs::Doc,
    journal_id: u128,
}

/// Whether one of the keys is a text of the identifier.
pub open spec fn names_id(keys: Set<Seq<char>>, id: u128) -> bool {
    exists|k: Seq<char>| keys.contains(k) && #[trigger] parsed_id(k) == Some(id)
}

impl JournalDoc {
    /// The texts of the document by key.
    pub closed spec fn texts(&self) -> Map<Seq<char>, Seq<char>> {
        doc_texts(self.doc)
    }

    /// The keys of the document.
    pub closed spec fn keys(&self) -> Set<Seq<char>> {
        doc_keys(self.doc)
    }

    /// The journal that the document belongs to.
    pub closed spec fn id(&self) -> u128 {
        self.journal_id
    }

    /// Whether the document can take the bytes as an update. It can take
    /// what a replica wrote; of other bytes nothing is known, and some stop
    /// the merge halfway.
    pub closed spec fn fits(&self, bytes: Seq<u8>) -> bool {
        update_fits(self.doc, bytes)
    }

    /// The texts of the document once it has merged the bytes.
    pub closed spec fn merged(&self, bytes: Seq<u8>) -> Map<Seq<char>, Seq<char>> {
        merged_texts(self.doc, bytes)
    }

    /// The keys of the document once it has merged the bytes.
    pub closed spec fn merged_keys(&self, bytes: Seq<u8>) -> Set<Seq<char>> {
        merged_keys(self.doc, bytes)
    }

    /// Whether the document is new: nothing was written into it and
    /// nothing merged.
    pub closed spec fn is_new(&self) -> bool {
        doc_new(self.doc)
    }

    /// Whether the bytes are the whole state of the document, as
    /// `encode_state` writes it.
    pub closed spec fn wrote(&self, bytes: Seq<u8>) -> bool {
        whole_state(self.doc, bytes)
    }

    /// Whether the bytes are the state vector of the document, as
    /// `state_vector` writes it.
    pub closed spec fn summed(&self, bytes: Seq<u8>) -> bool {
        vector_of(self.doc, bytes)
    }

    /// Whether the bytes carry what a replica with the state vector
    /// `remote_sv` lacks of this document: the replica can take them if it
    /// can take the whole state of this document, and then reads the same.
    pub closed spec fn carries_missing(&self, remote_sv: Seq<u8>, bytes: Seq<u8>) -> bool {
        forall|remote: yrs::Doc, whole: Seq<u8>|
            #![trigger vector_of(remote, remote_sv), whole_state(self.doc, whole)]
            vector_of(remote, remote_sv) && whole_state(self.doc, whole) && update_fits(
                remote,
                whole,
            ) ==> update_fits(remote, bytes) && merged_texts(remote, bytes) == merged_texts(
                remote,
                whole,
            ) && merged_keys(remote, bytes) == merged_keys(remote, whole)
    }

    /// Whether the document reads as a new document does that has merged
    /// the bytes.
    pub closed spec fn started_from(&self, bytes: Seq<u8>) -> bool {
        exists|fresh: yrs::Doc|
            doc_new(fresh) && doc_texts(self.doc) == #[trigger] merged_texts(fresh, bytes)
                && doc_keys(self.doc) == merged_keys(fresh, bytes)
    }

    /// Whether the bytes hold the whole state of the document: a new
    /// document that has merged them reads as this one.
    pub closed spec fn state_in(&self, bytes: Seq<u8>) -> bool {
        forall|fresh: yrs::Doc| #[trigger]
            doc_new(fresh) ==> merged_texts(fresh, bytes) == doc_texts(self.doc) && merged_keys(
                fresh,
                bytes,
            ) == doc_keys(self.doc)
    }

    /// What the text of a block reads, if the block has one.
    pub open spec fn content(&self, block_id: u128) -> Option<Seq<char>> {
        if self.texts().contains_key(canonical_text(block_id)) {
            Some(self.texts()[canonical_text(block_id)])
        } else {
            None
        }
    }

    /// A new, empty document. It can take whatever can start a document.
    pub fn new(journal_id: u128) -> (r: JournalDoc)
        ensures
            r.id() == journal_id,
            r.texts() == no_texts(),
            r.keys() == Set::<Seq<char>>::empty(),
            r.is_new(),
            forall|bytes: Seq<u8>| starts_document(bytes) ==> #[trigger] r.fits(bytes),
    {
        JournalDoc { doc: new_doc(), journal_id }
    }

    /// A new document that starts from an encoded state: it reads what a
    /// new document reads once it has merged the bytes. Bytes that are no
    /// update are refused.
    pub fn from_update(journal_id: u128, update: &[u8]) -> (r: Result<
        JournalDoc,
        yrs::encoding::read::Error,
    >)
        requires
            starts_document(update@),
        ensures
            r.is_ok() == update_read(update@),
            r matches Ok(doc) ==> doc.id() == journal_id && doc.started_from(update@) && doc.fits(
                update@,
            ) && doc.merged(update@) == doc.texts() && doc.merged_keys(update@) == doc.keys(),
    {
        let mut doc = new_doc();
        let ghost fresh = doc;
        match merge_update(&mut doc, update) {
            Ok(_) => {
                let r = JournalDoc { doc, journal_id };
                proof {
                    assert(doc_new(fresh) && doc_texts(r.doc) == merged_texts(fresh, update@)
                        && doc_keys(r.doc) == merged_keys(fresh, update@));
                }
                Ok(r)
            },
            Err(e) => Err(e),
        }
    }

    /// A replica of the document: a new document that has taken the whole
    /// state of this one, and reads as it does.
    pub fn replica(&self) -> (r: Result<JournalDoc, yrs::encoding::read::Error>)
        ensures
            r matches Ok(copy) && copy.id() == self.id() && copy.texts() == self.texts()
                && copy.keys() == self.keys(),
    {
        let state = encode_whole(&self.doc);
        JournalDoc::from_update(self.journal_id, state.as_slice())
    }

    pub fn journal_id(&self) -> (r: u128)
        ensures
            r == self.id(),
    {
        self.journal_id
    }

    /// Makes sure that the block has a text; a new one is empty.
    pub fn get_or_create_block_text(&mut self, block_id: u128)
        ensures
            final(self).id() == old(self).id(),
            final(self).texts() == (if old(self).content(block_id) is Some {
                old(self).texts()
            } else {
                old(self).texts().insert(canonical_text(block_id), Seq::<char>::empty())
            }),
            final(self).keys() == old(self).keys().insert(canonical_text(block_id)),
            final(self).texts().contains_key(canonical_text(block_id)),
    {
        let key = id_text(block_id);
        if read_text(&self.doc, key.as_str()).is_none() {
            insert_empty_text(&mut self.doc, key.as_str());
        } else {
            proof {
                assert(self.keys().insert(key@) =~= self.keys());
            }
        }
    }

    /// What a block's text reads, if the block has one.
    pub fn get_block_content(&self, block_id: u128) -> (r: Option<String>)
        ensures
            crate::opencode::text_of(r) == self.content(block_id),
    {
        let key = id_text(block_id);
        read_text(&self.doc, key.as_str())
    }

    /// Replaces what a block's text reads.
    pub fn set_block_content(&mut self, block_id: u128, content: &str)
        ensures
            final(self).id() == old(self).id(),
            final(self).texts() == old(self).texts().insert(canonical_text(block_id), content@),
            final(self).keys() == old(self).keys().insert(canonical_text(block_id)),
    {
        let key = id_text(block_id);
        self.get_or_create_block_text(block_id);
        let len = text_len(&self.doc, key.as_str());
        if len > 0 {
            clear_text(&mut self.doc, key.as_str(), len);
        }
        let ghost cleared = self.texts();
        append_text(&mut self.doc, key.as_str(), 0, content);
        proof {
            assert(cleared[key@] + content@ =~= content@);
            assert(final(self).texts() =~= old(self).texts().insert(key@, content@));
        }
    }

    /// Appends to what a block's text reads; a block without a text gets
    /// one first.
    pub fn append_block_content(&mut self, block_id: u128, delta: &str)
        ensures
            final(self).id() == old(self).id(),
            final(self).texts() == old(self).texts().insert(
                canonical_text(block_id),
                (match old(self).content(block_id) {
                    Some(before) => before,
                    None => Seq::<char>::empty(),
                }) + delta@,
            ),
            final(self).keys() == old(self).keys().insert(canonical_text(block_id)),
    {
        let key = id_text(block_id);
        self.get_or_create_block_text(block_id);
        let len = text_len(&self.doc, key.as_str());
        append_text(&mut self.doc, key.as_str(), len, delta);
        proof {
            assert(final(self).texts() =~= old(self).texts().insert(
                key@,
                (match old(self).content(block_id) {
                    Some(before) => before,
                    None => Seq::<char>::empty(),
                }) + delta@,
            ));
        }
    }

    /// Takes a block out of the document.
    pub fn delete_block(&mut self, block_id: u128)
        ensures
            final(self).id() == old(self).id(),
            final(self).texts() == old(self).texts().remove(canonical_text(block_id)),
            final(self).keys() == old(self).keys().remove(canonical_text(block_id)),
    {
        let key = id_text(block_id);
        remove_entry(&mut self.doc, key.as_str());
    }

    /// The whole state as one update in the document's wire format: bytes
    /// that `apply_update` and `from_update` read, and from which a new
    /// document starts that reads as this one.
    pub fn encode_state(&self) -> (r: Vec<u8>)
        ensures
            update_read(r@),
            starts_document(r@),
            self.state_in(r@),
            self.wrote(r@),
    {
        encode_whole(&self.doc)
    }

    /// A summary of what this replica has seen, for diff sync: bytes that
    /// `encode_diff` reads.
    pub fn state_vector(&self) -> (r: Vec<u8>)
        ensures
            vector_read(r@),
            self.summed(r@),
    {
        encode_vector(&self.doc)
    }

    /// The update that carries what a remote replica lacks, given the
    /// remote's state vector: the remote reads after merging it what it
    /// reads after merging the whole state of this document. A state
    /// vector that cannot be read is refused.
    pub fn encode_diff(&self, remote_sv: &[u8]) -> (r: Result<Vec<u8>, yrs::encoding::read::Error>)
        ensures
            r.is_ok() == vector_read(remote_sv@),
            r matches Ok(bytes) ==> update_read(bytes@),
            r matches Ok(bytes) ==> self.carries_missing(remote_sv@, bytes@),
    {
        encode_missing(&self.doc, remote_sv)
    }

    /// Law: a new document that merges the whole state of this one reads
    /// as this one.
    pub proof fn lemma_state_is_whole(&self, fresh: &JournalDoc, bytes: Seq<u8>)
        requires
            self.state_in(bytes),
            fresh.is_new(),
        ensures
            fresh.merged(bytes) == self.texts(),
            fresh.merged_keys(bytes) == self.keys(),
    {
    }

    /// Law: an update that carries what a remote lacks brings the remote
    /// as far as the whole state of this document would.
    pub proof fn lemma_missing_is_enough(
        &self,
        remote: &JournalDoc,
        remote_sv: Seq<u8>,
        bytes: Seq<u8>,
        whole: Seq<u8>,
    )
        requires
            self.carries_missing(remote_sv, bytes),
            remote.summed(remote_sv),
            self.wrote(whole),
            remote.fits(whole),
        ensures
            remote.fits(bytes),
            remote.merged(bytes) == remote.merged(whole),
            remote.merged_keys(bytes) == remote.merged_keys(whole),
    {
    }

    /// Merges a foreign update that the document can take. An update that
    /// cannot be read leaves the document as it was. One that can is
    /// merged, and merging it once more changes nothing.
    pub fn apply_update(&mut self, update: &[u8]) -> (r: Result<(), yrs::encoding::read::Error>)
        requires
            old(self).fits(update@),
        ensures
            r.is_ok() == update_read(update@),
            final(self).id() == old(self).id(),
            r is Err ==> final(self).texts() == old(self).texts() && final(self).keys() == old(self).keys(),
            r is Ok ==> final(self).texts() == old(self).merged(update@) && final(self).keys()
                == old(self).merged_keys(update@),
            r is Ok ==> final(self).fits(update@) && final(self).merged(update@)
                == final(self).texts() && final(self).merged_keys(update@) == final(self).keys(),
    {
        merge_update(&mut self.doc, update)
    }

    /// The ids of the blocks in the document, in no particular order. Keys
    /// that are no ids are passed over; an id whose canonical text is a key
    /// is among them.
    pub fn list_blocks(&self) -> (r: Vec<u128>)
        ensures
            forall|i: int| 0 <= i < r@.len() ==> names_id(self.keys(), #[trigger] r@[i]),
            forall|id: u128| names_id(self.keys(), id) ==> #[trigger] r@.contains(id),
            forall|id: u128| self.keys().contains(#[trigger] canonical_text(id)) ==> r@.contains(id),
            r@.len() <= self.keys().len(),
    {
        let keys = list_keys(&self.doc);
        let ghost names = keys@.map_values(|k: String| k@);
        let mut out: Vec<u128> = Vec::new();
        let mut i: usize = 0;
        proof {
            names.unique_seq_to_set();
        }
        while i < keys.len()
            invariant
                i <= keys@.len(),
                names == keys@.map_values(|k: String| k@),
                names.to_set() == self.keys(),
                out@.len() <= i,
                forall|j: int| 0 <= j < out@.len() ==> names_id(self.keys(), #[trigger] out@[j]),
                forall|j: int|
                    0 <= j < i && parsed_id(#[trigger] names[j]) is Some ==> out@.contains(
                        parsed_id(names[j])->0,
                    ),
                forall|j: int, id: u128|
                    #![trigger names[j], canonical_text(id)]
                    0 <= j < i && names[j] == canonical_text(id) ==> parsed_id(names[j]) == Some(
                        id,
                    ),
            decreases keys@.len() - i,
        {
            let ghost before = out@;
            proof {
                assert(names[i as int] == keys@[i as int]@);
                assert(names.to_set().contains(names[i as int]));
            }
            match parse_id(keys[i].as_str()) {
                Ok(id) => {
                    out.push(id);
                    proof {
                        assert(parsed_id(names[i as int]) == Some(id));
                        assert(out@[before.len() as int] == id);
                        assert forall|j: int|
                            0 <= j < i + 1 && parsed_id(
                                #[trigger] names[j],
                            ) is Some implies out@.contains(parsed_id(names[j])->0) by {
                            if j < i {
                                let x = parsed_id(names[j])->0;
                                assert(before.contains(x));
                                let a = choose|a: int| 0 <= a < before.len() && before[a] == x;
                                assert(out@[a] == x);
                            }
                        }
                    }
                },
                Err(_) => {},
            }
            i = i + 1;
        }
        proof {
            assert forall|id: u128| names_id(self.keys(), id) implies #[trigger] out@.contains(
                id,
            ) by {
                let k = choose|k: Seq<char>|
                    self.keys().contains(k) && #[trigger] parsed_id(k) == Some(id);
                assert(names.to_set().contains(k));
                let j = choose|j: int| 0 <= j < names.len() && names[j] == k;
                assert(parsed_id(names[j]) is Some);
            }
            assert forall|id: u128| self.keys().contains(#[trigger] canonical_text(id)) implies out@.contains(
                id,
            ) by {
                let k = canonical_text(id);
                assert(names.to_set().contains(k));
                let j = choose|j: int| 0 <= j < names.len() && names[j] == k;
                assert(parsed_id(names[j]) == Some(id));
            }
        }
        out
    }
}

/// The shared documents that are loaded, by journal.
pub struct JournalDocManager {
    docs: HashMap<u128, JournalDoc>,
}

impl JournalDocManager {
    /// The loaded documents by journal id.
    pub closed spec fn docs(&self) -> Map<u128, JournalDoc> {
        self.docs@
    }

    /// A manager without documents.
    pub fn new() -> (r: JournalDocManager)
        ensures
            r.docs() == Map::<u128, JournalDoc>::empty(),
    {
        JournalDocManager { docs: HashMap::new() }
    }

    /// Makes sure that the journal has a document; a new one is empty.
    /// Says whether the document is new.
    pub fn get_or_create(&mut self, journal_id: u128) -> (created: bool)
        ensures
            created == !old(self).docs().contains_key(journal_id),
            final(self).docs().contains_key(journal_id),
            !created ==> final(self).docs() == old(self).docs(),
            created ==> final(self).docs().remove(journal_id) == old(self).docs() && final(self).docs()[journal_id].id() == journal_id && final(self).docs()[journal_id].texts()
                == no_texts(),
    {
        if has(&self.docs, journal_id) {
            false
        } else {
            put(&mut self.docs, journal_id, JournalDoc::new(journal_id));
            proof {
                assert(final(self).docs().remove(journal_id) =~= old(self).docs());
            }
            true
        }
    }

    /// Files a document under the id of its journal.
    pub fn put(&mut self, doc: JournalDoc)
        ensures
            final(self).docs() == old(self).docs().insert(doc.id(), doc),
    {
        let id = doc.journal_id();
        put(&mut self.docs, id, doc);
    }

    /// Takes the document of a journal out of the manager and returns it.
    pub fn remove(&mut self, journal_id: u128) -> (r: Option<JournalDoc>)
        ensures
            final(self).docs() == old(self).docs().remove(journal_id),
            r == (if old(self).docs().contains_key(journal_id) {
                Some(old(self).docs()[journal_id])
            } else {
                None
            }),
    {
        take(&mut self.docs, journal_id)
    }

    /// Whether the journal has a document.
    pub fn contains(&self, journal_id: u128) -> (r: bool)
        ensures
            r == self.docs().contains_key(journal_id),
    {
        has(&self.docs, journal_id)
    }
}

impl Default for JournalDocManager {
    fn default() -> (r: Self)
        ensures
            r.docs() == Map::<u128, JournalDoc>::empty(),
    {
        JournalDocManager::new()
    }
}

} // verus!
