//! Change-set tracker and historical query engine.
//!
//! [`Db`] models the durable state of the four tables. The write path,
//! [`Db::apply_block`], commits one block's state diff: nonce and class
//! hash snapshots are written unconditionally, while each storage write
//! also maintains the slot's change list — append-only, strictly
//! increasing, idempotent when the same block is re-committed, and
//! rejected as an out-of-order fault when an older block is re-applied.
//! All of one block's writes land atomically: the diff is applied to a
//! working copy and the database takes it over only on success.
//!
//! The read path resolves a slot's value as of any block by binary
//! searching the slot's change list for the greatest recorded block at or
//! below the target and fetching the value written there; the tracker's
//! invariant guarantees that the fetch cannot miss. [`ReadTx`] is a
//! snapshot taken at open; its answers depend on that snapshot alone, so
//! a reader never observes a later commit.

use vstd::prelude::*;

use crate::assoc::{
    lemma_find_upsert_other, lemma_find_upsert_same, lemma_seq_find_index_is,
    lemma_seq_find_index_none, lemma_seq_find_index_props, seq_find, seq_find_index, seq_upsert,
};
use crate::felt::Felt;

verus! {

/// Errors of the write path.
#[derive(Clone, Copy, Debug, PartialEq, Eq, Structural)]
pub enum CommitError {
    /// A storage slot was committed for a block older than the last block
    /// already recorded for that slot. Blocks commit in increasing order,
    /// so this is a caller defect, surfaced and never repaired silently.
    OutOfOrderBlock,
}

/// One row of the nonce-changes table: `(block, address) -> nonce`.
#[derive(Clone, Copy, Debug, PartialEq, Eq, Structural)]
pub struct NonceEntry {
    pub block: u64,
    pub address: Felt,
    pub nonce: Felt,
}

/// One row of the class-changes table: `(block, address) -> class hash`.
#[derive(Clone, Copy, Debug, PartialEq, Eq, Structural)]
pub struct ClassChangeEntry {
    pub block: u64,
    pub address: Felt,
    pub class_hash: Felt,
}

/// One row of the storage-changes table:
/// `(block, address, key) -> value`.
#[derive(Clone, Copy, Debug, PartialEq, Eq, Structural)]
pub struct StorageChangeEntry {
    pub block: u64,
    pub address: Felt,
    pub key: Felt,
    pub value: Felt,
}

/// One row of the change-set table: the blocks at which one slot changed.
#[derive(Debug)]
pub struct ChangeSetEntry {
    pub address: Felt,
    pub key: Felt,
    pub blocks: Vec<u64>,
}

/// The mathematical shape of a change-set row.
pub struct ChangeSetView {
    pub address: Felt,
    pub key: Felt,
    pub blocks: Seq<u64>,
}

impl View for ChangeSetEntry {
    type V = ChangeSetView;

    open spec fn view(&self) -> ChangeSetView {
        ChangeSetView { address: self.address, key: self.key, blocks: self.blocks@ }
    }
}

/// A nonce update in a block's state diff.
#[derive(Clone, Copy, Debug, PartialEq, Eq, Structural)]
pub struct NonceUpdate {
    pub address: Felt,
    pub nonce: Felt,
}

/// A class-hash update in a block's state diff.
#[derive(Clone, Copy, Debug, PartialEq, Eq, Structural)]
pub struct ClassUpdate {
    pub address: Felt,
    pub class_hash: Felt,
}

/// A storage-slot update in a block's state diff.
#[derive(Clone, Copy, Debug, PartialEq, Eq, Structural)]
pub struct StorageUpdate {
    pub address: Felt,
    pub key: Felt,
    pub value: Felt,
}

/// The state diff one block commits: everything the execution engine
/// reports as changed.
pub struct BlockStateDiff {
    pub nonces: Vec<NonceUpdate>,
    pub class_hashes: Vec<ClassUpdate>,
    pub storage: Vec<StorageUpdate>,
}

/// The four tables of the store.
pub struct Tables {
    pub nonce_changes: Vec<NonceEntry>,
    pub class_changes: Vec<ClassChangeEntry>,
    pub storage_change_sets: Vec<ChangeSetEntry>,
    pub storage_changes: Vec<StorageChangeEntry>,
}

/// The mathematical state of the four tables.
#[verifier::ext_equal]
pub struct StateView {
    pub nonces: Seq<NonceEntry>,
    pub classes: Seq<ClassChangeEntry>,
    pub change_sets: Seq<ChangeSetView>,
    pub storage: Seq<StorageChangeEntry>,
}

impl View for Tables {
    type V = StateView;

    open spec fn view(&self) -> StateView {
        StateView {
            nonces: self.nonce_changes@,
            classes: self.class_changes@,
            change_sets: self.storage_change_sets@.map_values(|e: ChangeSetEntry| e@),
            storage: self.storage_changes@,
        }
    }
}

/// Whether a nonce row is the row of `(block, address)`.
pub open spec fn nonce_matches(e: NonceEntry, block: u64, address: Felt) -> bool {
    e.block == block && e.address == address
}

/// The key predicate of a nonce row.
pub open spec fn nonce_key(block: u64, address: Felt) -> spec_fn(NonceEntry) -> bool {
    |e: NonceEntry| nonce_matches(e, block, address)
}

/// Whether a class row is the row of `(block, address)`.
pub open spec fn class_matches(e: ClassChangeEntry, block: u64, address: Felt) -> bool {
    e.block == block && e.address == address
}

/// The key predicate of a class row.
pub open spec fn class_key(block: u64, address: Felt) -> spec_fn(ClassChangeEntry) -> bool {
    |e: ClassChangeEntry| class_matches(e, block, address)
}

/// Whether a storage row is the row of `(block, address, key)`.
pub open spec fn storage_matches(e: StorageChangeEntry, block: u64, address: Felt, key: Felt) -> bool {
    e.block == block && e.address == address && e.key == key
}

/// The key predicate of a storage row.
pub open spec fn storage_key_pred(block: u64, address: Felt, key: Felt) -> spec_fn(
    StorageChangeEntry,
) -> bool {
    |e: StorageChangeEntry| storage_matches(e, block, address, key)
}

/// Whether a change-set row is the row of slot `(address, key)`.
pub open spec fn cs_matches(e: ChangeSetView, address: Felt, key: Felt) -> bool {
    e.address == address && e.key == key
}

/// The key predicate of a change-set row.
pub open spec fn cs_key(address: Felt, key: Felt) -> spec_fn(ChangeSetView) -> bool {
    |e: ChangeSetView| cs_matches(e, address, key)
}

/// A strictly increasing sequence: sorted ascending, no duplicates.
pub open spec fn strictly_increasing(s: Seq<u64>) -> bool {
    forall|i: int, j: int| 0 <= i < j < s.len() ==> s[i] < s[j]
}

impl StateView {
    /// At most one nonce row per `(block, address)`.
    pub open spec fn nonces_unique(self) -> bool {
        forall|i: int, j: int| 0 <= i < j < self.nonces.len()
            ==> !(#[trigger] self.nonces[i].block == #[trigger] self.nonces[j].block
                && self.nonces[i].address == self.nonces[j].address)
    }

    /// At most one class row per `(block, address)`.
    pub open spec fn classes_unique(self) -> bool {
        forall|i: int, j: int| 0 <= i < j < self.classes.len()
            ==> !(#[trigger] self.classes[i].block == #[trigger] self.classes[j].block
                && self.classes[i].address == self.classes[j].address)
    }

    /// At most one storage row per `(block, address, key)`.
    pub open spec fn storage_unique(self) -> bool {
        forall|i: int, j: int| 0 <= i < j < self.storage.len()
            ==> !(#[trigger] self.storage[i].block == #[trigger] self.storage[j].block
                && self.storage[i].address == self.storage[j].address
                && self.storage[i].key == self.storage[j].key)
    }

    /// At most one change-set row per slot: one logical slot owns exactly
    /// one change-list record.
    pub open spec fn change_sets_unique(self) -> bool {
        forall|i: int, j: int| 0 <= i < j < self.change_sets.len()
            ==> !(#[trigger] self.change_sets[i].address
                == #[trigger] self.change_sets[j].address
                && self.change_sets[i].key == self.change_sets[j].key)
    }

    /// Every change list is non-empty and strictly increasing: blocks are
    /// recorded in commit order, once each.
    pub open spec fn change_lists_strictly_increasing(self) -> bool {
        forall|i: int| 0 <= i < self.change_sets.len()
            ==> (#[trigger] self.change_sets[i].blocks).len() > 0
                && strictly_increasing(self.change_sets[i].blocks)
    }

    /// Every block recorded in a change list has its written value in the
    /// storage-changes table: the guarantee that makes historical reads
    /// total.
    pub open spec fn change_lists_covered(self) -> bool {
        forall|i: int, j: int| 0 <= i < self.change_sets.len()
            && 0 <= j < self.change_sets[i].blocks.len()
            ==> seq_find(
                self.storage,
                storage_key_pred(
                    #[trigger] self.change_sets[i].blocks[j],
                    self.change_sets[i].address,
                    self.change_sets[i].key,
                ),
            ) is Some
    }

    /// The tracker's invariant, preserved by every commit.
    pub open spec fn wf(self) -> bool {
        &&& self.nonces_unique()
        &&& self.classes_unique()
        &&& self.storage_unique()
        &&& self.change_sets_unique()
        &&& self.change_lists_strictly_increasing()
        &&& self.change_lists_covered()
    }
}

/// The nonce table after writing one block's nonce updates in order.
pub open spec fn spec_apply_nonces(s: Seq<NonceEntry>, block: u64, d: Seq<NonceUpdate>) -> Seq<
    NonceEntry,
>
    decreases d.len(),
{
    if d.len() == 0 {
        s
    } else {
        let u = d.last();
        seq_upsert(
            spec_apply_nonces(s, block, d.drop_last()),
            nonce_key(block, u.address),
            NonceEntry { block, address: u.address, nonce: u.nonce },
        )
    }
}

/// The class table after writing one block's class updates in order.
pub open spec fn spec_apply_classes(s: Seq<ClassChangeEntry>, block: u64, d: Seq<ClassUpdate>) -> Seq<
    ClassChangeEntry,
>
    decreases d.len(),
{
    if d.len() == 0 {
        s
    } else {
        let u = d.last();
        seq_upsert(
            spec_apply_classes(s, block, d.drop_last()),
            class_key(block, u.address),
            ClassChangeEntry { block, address: u.address, class_hash: u.class_hash },
        )
    }
}

/// An out-of-order storage write: the slot's change list already records
/// a block newer than the one being committed.
pub open spec fn spec_storage_conflict(s: StateView, block: u64, u: StorageUpdate) -> bool {
    match seq_find(s.change_sets, cs_key(u.address, u.key)) {
        Some(cv) => cv.blocks.len() > 0 && cv.blocks.last() > block,
        None => false,
    }
}

/// One storage write of the tracker: the value row is written (last write
/// wins within a block), and the slot's change list gains the block — as
/// a fresh one-element list for a new slot, not at all when the block is
/// already the last recorded (idempotent re-commit), and by appending
/// otherwise.
pub open spec fn spec_apply_one_storage(s: StateView, block: u64, u: StorageUpdate) -> StateView {
    let storage2 = seq_upsert(
        s.storage,
        storage_key_pred(block, u.address, u.key),
        StorageChangeEntry { block, address: u.address, key: u.key, value: u.value },
    );
    let change_sets2 = match seq_find(s.change_sets, cs_key(u.address, u.key)) {
        None => s.change_sets.push(
            ChangeSetView { address: u.address, key: u.key, blocks: seq![block] },
        ),
        Some(cv) => if cv.blocks.len() > 0 && cv.blocks.last() == block {
            s.change_sets
        } else {
            seq_upsert(
                s.change_sets,
                cs_key(u.address, u.key),
                ChangeSetView { address: u.address, key: u.key, blocks: cv.blocks.push(block) },
            )
        },
    };
    StateView { change_sets: change_sets2, storage: storage2, ..s }
}

/// The state after one block's storage updates, applied in order, or the
/// error of the first out-of-order write.
pub open spec fn spec_apply_storage(s: StateView, block: u64, d: Seq<StorageUpdate>) -> Result<
    StateView,
    CommitError,
>
    decreases d.len(),
{
    if d.len() == 0 {
        Ok(s)
    } else {
        match spec_apply_storage(s, block, d.drop_last()) {
            Err(e) => Err(e),
            Ok(s1) => if spec_storage_conflict(s1, block, d.last()) {
                Err(CommitError::OutOfOrderBlock)
            } else {
                Ok(spec_apply_one_storage(s1, block, d.last()))
            },
        }
    }
}

/// The state after committing one whole block: nonces, then class hashes,
/// then storage, or the error of the first out-of-order storage write.
pub open spec fn spec_apply_block(
    s: StateView,
    block: u64,
    nonces: Seq<NonceUpdate>,
    classes: Seq<ClassUpdate>,
    storage: Seq<StorageUpdate>,
) -> Result<StateView, CommitError> {
    let s1 = StateView { nonces: spec_apply_nonces(s.nonces, block, nonces), ..s };
    let s2 = StateView { classes: spec_apply_classes(s1.classes, block, classes), ..s1 };
    spec_apply_storage(s2, block, storage)
}

/// Writing a nonce row keeps the nonce table's keys unique.
proof fn lemma_upsert_nonce_wf(s: StateView, block: u64, address: Felt, nonce: Felt)
    requires
        s.wf(),
    ensures
        (StateView {
            nonces: seq_upsert(
                s.nonces,
                nonce_key(block, address),
                NonceEntry { block, address, nonce },
            ),
            ..s
        }).wf(),
{
    let p = nonce_key(block, address);
    let e = NonceEntry { block, address, nonce };
    lemma_seq_find_index_props(s.nonces, p);
    let s2 = seq_upsert(s.nonces, p, e);
    match seq_find_index(s.nonces, p) {
        Some(i) => {
            assert(nonce_matches(s.nonces[i], block, address));
            assert(forall|j: int| 0 <= j < s2.len() && j != i ==> s2[j] == s.nonces[j]);
        },
        None => {
            assert(forall|j: int| 0 <= j < s.nonces.len() ==> !nonce_matches(s.nonces[j], block, address));
            assert(forall|j: int| 0 <= j < s.nonces.len() ==> s2[j] == s.nonces[j]);
        },
    }
}

/// Writing a class row keeps the class table's keys unique.
proof fn lemma_upsert_class_wf(s: StateView, block: u64, address: Felt, class_hash: Felt)
    requires
        s.wf(),
    ensures
        (StateView {
            classes: seq_upsert(
                s.classes,
                class_key(block, address),
                ClassChangeEntry { block, address, class_hash },
            ),
            ..s
        }).wf(),
{
    let p = class_key(block, address);
    let e = ClassChangeEntry { block, address, class_hash };
    lemma_seq_find_index_props(s.classes, p);
    let s2 = seq_upsert(s.classes, p, e);
    match seq_find_index(s.classes, p) {
        Some(i) => {
            assert(class_matches(s.classes[i], block, address));
            assert(forall|j: int| 0 <= j < s2.len() && j != i ==> s2[j] == s.classes[j]);
        },
        None => {
            assert(forall|j: int| 0 <= j < s.classes.len() ==> !class_matches(s.classes[j], block, address));
            assert(forall|j: int| 0 <= j < s.classes.len() ==> s2[j] == s.classes[j]);
        },
    }
}

/// A strictly increasing list stays so when a strictly larger block is
/// appended.
proof fn lemma_strictly_increasing_push(s: Seq<u64>, b: u64)
    requires
        strictly_increasing(s),
        s.len() == 0 || s.last() < b,
    ensures
        strictly_increasing(s.push(b)),
{
    let s2 = s.push(b);
    assert forall|i: int, j: int| 0 <= i < j < s2.len() implies s2[i] < s2[j] by {
        if j == s.len() {
            assert(s2[i] == s[i]);
            if i < s.len() - 1 {
                assert(s[i] < s.last());
            }
        }
    }
}

/// One storage write of the tracker preserves the whole invariant.
proof fn lemma_apply_one_storage_wf(s: StateView, block: u64, u: StorageUpdate)
    requires
        s.wf(),
        !spec_storage_conflict(s, block, u),
    ensures
        spec_apply_one_storage(s, block, u).wf(),
{
    let p = storage_key_pred(block, u.address, u.key);
    let e = StorageChangeEntry { block, address: u.address, key: u.key, value: u.value };
    let q = cs_key(u.address, u.key);
    let s2 = spec_apply_one_storage(s, block, u);
    // The value table keeps unique keys.
    lemma_seq_find_index_props(s.storage, p);
    match seq_find_index(s.storage, p) {
        Some(i) => {
            assert(storage_matches(s.storage[i], block, u.address, u.key));
            assert(forall|j: int| 0 <= j < s2.storage.len() && j != i ==> s2.storage[j] == s.storage[j]);
        },
        None => {
            assert(forall|j: int| 0 <= j < s.storage.len() ==> !storage_matches(s.storage[j], block, u.address, u.key));
            assert(forall|j: int| 0 <= j < s.storage.len() ==> s2.storage[j] == s.storage[j]);
        },
    }
    assert(s2.storage_unique());
    // Every old change-list block still has its value row: the upsert
    // either replaced the row of the same key or touched no old key.
    assert forall|a: Felt, k: Felt, b: u64|
        seq_find(s.storage, storage_key_pred(b, a, k)) is Some implies seq_find(
        s2.storage,
        storage_key_pred(b, a, k),
    ) is Some by {
        if b == block && a == u.address && k == u.key {
            lemma_find_upsert_same(s.storage, p, e);
        } else {
            assert forall|x: StorageChangeEntry| #[trigger] p(x) implies !storage_key_pred(b, a, k)(x) by {
                assert(storage_matches(x, block, u.address, u.key));
            }
            assert(!storage_key_pred(b, a, k)(e));
            lemma_find_upsert_other(s.storage, p, storage_key_pred(b, a, k), e);
        }
    }
    // The freshly written row is present.
    lemma_find_upsert_same(s.storage, p, e);
    // The change-set table.
    lemma_seq_find_index_props(s.change_sets, q);
    match seq_find_index(s.change_sets, q) {
        None => {
            // New slot: one new row with the one-element list.
            let cv = ChangeSetView { address: u.address, key: u.key, blocks: seq![block] };
            let cs2 = s.change_sets.push(cv);
            assert(s2.change_sets == cs2);
            assert(forall|j: int| 0 <= j < s.change_sets.len() ==> !cs_matches(s.change_sets[j], u.address, u.key));
            assert(forall|j: int| 0 <= j < s.change_sets.len() ==> cs2[j] == s.change_sets[j]);
            assert(s2.change_sets_unique());
            assert(strictly_increasing(seq![block]));
            assert(s2.change_lists_strictly_increasing());
            assert forall|i: int, j: int| 0 <= i < s2.change_sets.len()
                && 0 <= j < s2.change_sets[i].blocks.len() implies seq_find(
                s2.storage,
                storage_key_pred(
                    #[trigger] s2.change_sets[i].blocks[j],
                    s2.change_sets[i].address,
                    s2.change_sets[i].key,
                ),
            ) is Some by {
                if i == s.change_sets.len() {
                    assert(s2.change_sets[i] == cv);
                    assert(cv.blocks[j] == block);
                } else {
                    assert(s2.change_sets[i] == s.change_sets[i]);
                }
            }
        },
        Some(ci) => {
            let cv = s.change_sets[ci];
            assert(cs_matches(cv, u.address, u.key));
            assert(seq_find(s.change_sets, q) == Some(cv));
            assert(cv.blocks.len() > 0);
            if cv.blocks.last() == block {
                assert(s2.change_sets == s.change_sets);
            } else {
                assert(cv.blocks.last() < block);
                let cv2 = ChangeSetView {
                    address: u.address,
                    key: u.key,
                    blocks: cv.blocks.push(block),
                };
                let cs2 = seq_upsert(s.change_sets, q, cv2);
                assert(s2.change_sets == cs2);
                assert(cs2 == s.change_sets.update(ci, cv2));
                assert(forall|j: int| 0 <= j < cs2.len() && j != ci ==> cs2[j] == s.change_sets[j]);
                assert(s2.change_sets_unique());
                lemma_strictly_increasing_push(cv.blocks, block);
                assert(s2.change_lists_strictly_increasing());
            }
            assert forall|i: int, j: int| 0 <= i < s2.change_sets.len()
                && 0 <= j < s2.change_sets[i].blocks.len() implies seq_find(
                s2.storage,
                storage_key_pred(
                    #[trigger] s2.change_sets[i].blocks[j],
                    s2.change_sets[i].address,
                    s2.change_sets[i].key,
                ),
            ) is Some by {
                if i == ci && j == s2.change_sets[i].blocks.len() - 1
                    && s2.change_sets[i].blocks[j] == block {
                } else {
                    assert(s2.change_sets[i].address == s.change_sets[i].address);
                    assert(s2.change_sets[i].key == s.change_sets[i].key);
                    if i == ci && cv.blocks.last() != block {
                        if j < cv.blocks.len() {
                            assert(s2.change_sets[i].blocks[j] == cv.blocks[j]);
                        } else {
                            assert(s2.change_sets[i].blocks[j] == block);
                        }
                    } else {
                        assert(s2.change_sets[i].blocks =~= s.change_sets[i].blocks);
                    }
                }
            }
        },
    }
}

/// The index of the nonce row of `(block, address)`, if one exists.
fn find_nonce_index(v: &Vec<NonceEntry>, block: u64, address: Felt) -> (r: Option<usize>)
    ensures
        match r {
            Some(i) => seq_find_index(v@, nonce_key(block, address)) == Some(i as int),
            None => seq_find_index(v@, nonce_key(block, address)) == None::<int>,
        },
{
    let n = v.len();
    let mut i: usize = 0;
    while i < n
        invariant
            i <= n,
            n == v@.len(),
            forall|j: int| 0 <= j < i ==> !nonce_matches(v@[j], block, address),
        decreases n - i,
    {
        if v[i].block == block && v[i].address == address {
            proof {
                lemma_seq_find_index_is(v@, nonce_key(block, address), i as int);
            }
            return Some(i);
        }
        i = i + 1;
    }
    proof {
        lemma_seq_find_index_none(v@, nonce_key(block, address));
    }
    None
}

/// The index of the class row of `(block, address)`, if one exists.
fn find_class_index(v: &Vec<ClassChangeEntry>, block: u64, address: Felt) -> (r: Option<usize>)
    ensures
        match r {
            Some(i) => seq_find_index(v@, class_key(block, address)) == Some(i as int),
            None => seq_find_index(v@, class_key(block, address)) == None::<int>,
        },
{
    let n = v.len();
    let mut i: usize = 0;
    while i < n
        invariant
            i <= n,
            n == v@.len(),
            forall|j: int| 0 <= j < i ==> !class_matches(v@[j], block, address),
        decreases n - i,
    {
        if v[i].block == block && v[i].address == address {
            proof {
                lemma_seq_find_index_is(v@, class_key(block, address), i as int);
            }
            return Some(i);
        }
        i = i + 1;
    }
    proof {
        lemma_seq_find_index_none(v@, class_key(block, address));
    }
    None
}

/// The index of the storage row of `(block, address, key)`, if one exists.
fn find_storage_index(v: &Vec<StorageChangeEntry>, block: u64, address: Felt, key: Felt) -> (r:
    Option<usize>)
    ensures
        match r {
            Some(i) => seq_find_index(v@, storage_key_pred(block, address, key)) == Some(i as int),
            None => seq_find_index(v@, storage_key_pred(block, address, key)) == None::<int>,
        },
{
    let n = v.len();
    let mut i: usize = 0;
    while i < n
        invariant
            i <= n,
            n == v@.len(),
            forall|j: int| 0 <= j < i ==> !storage_matches(v@[j], block, address, key),
        decreases n - i,
    {
        if v[i].block == block && v[i].address == address && v[i].key == key {
            proof {
                lemma_seq_find_index_is(v@, storage_key_pred(block, address, key), i as int);
            }
            return Some(i);
        }
        i = i + 1;
    }
    proof {
        lemma_seq_find_index_none(v@, storage_key_pred(block, address, key));
    }
    None
}

/// The index of the change-set row of slot `(address, key)`, if one
/// exists, stated over the rows' views.
fn find_change_set_index(v: &Vec<ChangeSetEntry>, address: Felt, key: Felt) -> (r: Option<usize>)
    ensures
        match r {
            Some(i) => seq_find_index(
                v@.map_values(|e: ChangeSetEntry| e@),
                cs_key(address, key),
            ) == Some(i as int),
            None => seq_find_index(
                v@.map_values(|e: ChangeSetEntry| e@),
                cs_key(address, key),
            ) == None::<int>,
        },
{
    let ghost m = v@.map_values(|e: ChangeSetEntry| e@);
    let n = v.len();
    let mut i: usize = 0;
    while i < n
        invariant
            i <= n,
            n == v@.len(),
            m == v@.map_values(|e: ChangeSetEntry| e@),
            forall|j: int| 0 <= j < i ==> !cs_matches(m[j], address, key),
        decreases n - i,
    {
        if v[i].address == address && v[i].key == key {
            proof {
                assert(m[i as int] == v@[i as int]@);
                lemma_seq_find_index_is(m, cs_key(address, key), i as int);
            }
            return Some(i);
        }
        proof {
            assert(m[i as int] == v@[i as int]@);
        }
        i = i + 1;
    }
    proof {
        lemma_seq_find_index_none(m, cs_key(address, key));
    }
    None
}

impl Tables {
    /// An empty store: no table holds a row.
    pub fn new() -> (r: Tables)
        ensures
            r@.nonces.len() == 0,
            r@.classes.len() == 0,
            r@.change_sets.len() == 0,
            r@.storage.len() == 0,
            r@.wf(),
    {
        Tables {
            nonce_changes: Vec::new(),
            class_changes: Vec::new(),
            storage_change_sets: Vec::new(),
            storage_changes: Vec::new(),
        }
    }

    /// Writes the nonce of `address` at `block`, overwriting a prior
    /// write of the same block.
    pub fn upsert_nonce(&mut self, block: u64, address: Felt, nonce: Felt)
        ensures
            final(self)@ == (StateView {
                nonces: seq_upsert(
                    old(self)@.nonces,
                    nonce_key(block, address),
                    NonceEntry { block, address, nonce },
                ),
                ..old(self)@
            }),
    {
        let e = NonceEntry { block, address, nonce };
        proof {
            lemma_seq_find_index_props(self.nonce_changes@, nonce_key(block, address));
        }
        match find_nonce_index(&self.nonce_changes, block, address) {
            Some(i) => {
                self.nonce_changes.set(i, e);
            },
            None => {
                self.nonce_changes.push(e);
            },
        }
        proof {
            assert(final(self)@ =~= (StateView {
                nonces: seq_upsert(old(self)@.nonces, nonce_key(block, address), e),
                ..old(self)@
            }));
        }
    }

    /// Writes the class hash of `address` at `block`, overwriting a prior
    /// write of the same block.
    pub fn upsert_class(&mut self, block: u64, address: Felt, class_hash: Felt)
        ensures
            final(self)@ == (StateView {
                classes: seq_upsert(
                    old(self)@.classes,
                    class_key(block, address),
                    ClassChangeEntry { block, address, class_hash },
                ),
                ..old(self)@
            }),
    {
        let e = ClassChangeEntry { block, address, class_hash };
        proof {
            lemma_seq_find_index_props(self.class_changes@, class_key(block, address));
        }
        match find_class_index(&self.class_changes, block, address) {
            Some(i) => {
                self.class_changes.set(i, e);
            },
            None => {
                self.class_changes.push(e);
            },
        }
        proof {
            assert(final(self)@ =~= (StateView {
                classes: seq_upsert(old(self)@.classes, class_key(block, address), e),
                ..old(self)@
            }));
        }
    }

    /// One storage write of the tracker, steps one to four of the commit
    /// algorithm: write the value row (last write wins within a block),
    /// then bring the slot's change list up to date — created at its
    /// first write, left alone when `block` is already its last element,
    /// extended when `block` is newer, and refused as an out-of-order
    /// fault when it is older.
    pub fn record_storage_change(&mut self, block: u64, u: StorageUpdate) -> (r: Result<
        (),
        CommitError,
    >)
        requires
            old(self)@.wf(),
        ensures
            match r {
                Ok(()) => !spec_storage_conflict(old(self)@, block, u) && final(self)@
                    == spec_apply_one_storage(old(self)@, block, u) && final(self)@.wf(),
                Err(e) => spec_storage_conflict(old(self)@, block, u) && final(self)@
                    == old(self)@ && e == CommitError::OutOfOrderBlock,
            },
    {
        let ghost s0 = old(self)@;
        let ghost q = cs_key(u.address, u.key);
        proof {
            lemma_seq_find_index_props(s0.change_sets, q);
        }
        match find_change_set_index(&self.storage_change_sets, u.address, u.key) {
            None => {
                let mut blocks: Vec<u64> = Vec::new();
                blocks.push(block);
                let entry = ChangeSetEntry { address: u.address, key: u.key, blocks };
                proof {
                    assert(entry@.blocks =~= seq![block]);
                }
                self.storage_change_sets.push(entry);
                proof {
                    assert(self@.change_sets =~= s0.change_sets.push(entry@));
                }
            },
            Some(i) => {
                let blen = self.storage_change_sets[i].blocks.len();
                proof {
                    assert(s0.change_sets[i as int] == self.storage_change_sets@[i as int]@);
                    assert(s0.change_sets[i as int].blocks.len() > 0);
                }
                let last = self.storage_change_sets[i].blocks[blen - 1];
                if last == block {
                    // Idempotent re-commit of the same block.
                } else if last < block {
                    let mut entry = self.storage_change_sets.remove(i);
                    entry.blocks.push(block);
                    self.storage_change_sets.insert(i, entry);
                    proof {
                        let cv = s0.change_sets[i as int];
                        let cv2 = ChangeSetView {
                            address: u.address,
                            key: u.key,
                            blocks: cv.blocks.push(block),
                        };
                        assert(entry@ =~= cv2);
                        assert(self@.change_sets =~= s0.change_sets.update(i as int, cv2));
                        assert(seq_upsert(s0.change_sets, q, cv2) == s0.change_sets.update(
                            i as int,
                            cv2,
                        ));
                    }
                } else {
                    // An older block: a caller defect, surfaced.
                    return Err(CommitError::OutOfOrderBlock);
                }
            },
        }
        let ghost cs_done = self@;
        let e = StorageChangeEntry { block, address: u.address, key: u.key, value: u.value };
        proof {
            lemma_seq_find_index_props(
                self.storage_changes@,
                storage_key_pred(block, u.address, u.key),
            );
        }
        match find_storage_index(&self.storage_changes, block, u.address, u.key) {
            Some(i) => {
                self.storage_changes.set(i, e);
            },
            None => {
                self.storage_changes.push(e);
            },
        }
        proof {
            assert(self@ =~= (StateView {
                storage: seq_upsert(s0.storage, storage_key_pred(block, u.address, u.key), e),
                ..cs_done
            }));
            assert(self@ =~= spec_apply_one_storage(s0, block, u));
            lemma_apply_one_storage_wf(s0, block, u);
        }
        Ok(())
    }
}

/// Copies a vector of freely copyable rows.
fn copy_vec<T: Copy>(v: &Vec<T>) -> (r: Vec<T>)
    ensures
        r@ == v@,
{
    let n = v.len();
    let mut r: Vec<T> = Vec::new();
    let mut i: usize = 0;
    while i < n
        invariant
            i <= n,
            n == v@.len(),
            r@ == v@.take(i as int),
        decreases n - i,
    {
        r.push(v[i]);
        proof {
            assert(v@.take(i as int + 1) =~= v@.take(i as int).push(v@[i as int]));
        }
        i = i + 1;
    }
    proof {
        assert(v@.take(n as int) =~= v@);
    }
    r
}

/// Copies the change-set table row by row.
fn copy_change_sets(v: &Vec<ChangeSetEntry>) -> (r: Vec<ChangeSetEntry>)
    ensures
        r@.map_values(|e: ChangeSetEntry| e@) == v@.map_values(|e: ChangeSetEntry| e@),
{
    let n = v.len();
    let mut r: Vec<ChangeSetEntry> = Vec::new();
    let mut i: usize = 0;
    while i < n
        invariant
            i <= n,
            n == v@.len(),
            r@.len() == i,
            forall|j: int| 0 <= j < i ==> r@[j]@ == v@[j]@,
        decreases n - i,
    {
        let e = &v[i];
        let entry = ChangeSetEntry { address: e.address, key: e.key, blocks: copy_vec(&e.blocks) };
        proof {
            assert(entry@ == v@[i as int]@);
        }
        r.push(entry);
        i = i + 1;
    }
    proof {
        assert(r@.map_values(|e: ChangeSetEntry| e@) =~= v@.map_values(|e: ChangeSetEntry| e@));
    }
    r
}

/// Copies the whole store: the working state a write transaction edits.
fn copy_tables(t: &Tables) -> (r: Tables)
    ensures
        r@ == t@,
{
    let r = Tables {
        nonce_changes: copy_vec(&t.nonce_changes),
        class_changes: copy_vec(&t.class_changes),
        storage_change_sets: copy_change_sets(&t.storage_change_sets),
        storage_changes: copy_vec(&t.storage_changes),
    };
    proof {
        assert(r@ =~= t@);
    }
    r
}

/// The last index whose element is at or below `b`, scanning from the
/// end; what a historical query resolves a target block to.
pub open spec fn spec_find_last_le(s: Seq<u64>, b: u64) -> Option<int>
    decreases s.len(),
{
    if s.len() == 0 {
        None
    } else if s.last() <= b {
        Some(s.len() - 1)
    } else {
        spec_find_last_le(s.drop_last(), b)
    }
}

/// An element at or below `b` followed only by larger elements is what
/// the backward scan finds.
proof fn lemma_find_last_le_is(s: Seq<u64>, b: u64, i: int)
    requires
        0 <= i < s.len(),
        s[i] <= b,
        forall|j: int| i < j < s.len() ==> s[j] > b,
    ensures
        spec_find_last_le(s, b) == Some(i),
    decreases s.len(),
{
    if i == s.len() - 1 {
    } else {
        assert(s.last() > b);
        let s1 = s.drop_last();
        assert(forall|j: int| 0 <= j < s1.len() ==> s1[j] == s[j]);
        lemma_find_last_le_is(s1, b, i);
    }
}

/// When every element is above `b` the backward scan finds nothing.
proof fn lemma_find_last_le_none(s: Seq<u64>, b: u64)
    requires
        forall|j: int| 0 <= j < s.len() ==> s[j] > b,
    ensures
        spec_find_last_le(s, b) == None::<int>,
    decreases s.len(),
{
    if s.len() > 0 {
        let s1 = s.drop_last();
        assert(forall|j: int| 0 <= j < s1.len() ==> s1[j] == s[j]);
        lemma_find_last_le_none(s1, b);
    }
}

/// Binary search for the greatest recorded block at or below `target` in
/// a strictly increasing change list.
pub fn find_last_le(v: &Vec<u64>, target: u64) -> (r: Option<usize>)
    requires
        strictly_increasing(v@),
    ensures
        match r {
            Some(i) => i < v@.len() && spec_find_last_le(v@, target) == Some(i as int),
            None => spec_find_last_le(v@, target) == None::<int>,
        },
{
    let n = v.len();
    let mut lo: usize = 0;
    let mut hi: usize = n;
    while lo < hi
        invariant
            lo <= hi <= n,
            n == v@.len(),
            strictly_increasing(v@),
            lo > 0 ==> v@[lo - 1] <= target,
            hi < n ==> v@[hi as int] > target,
        decreases hi - lo,
    {
        let mid = lo + (hi - lo) / 2;
        if v[mid] <= target {
            lo = mid + 1;
        } else {
            hi = mid;
        }
    }
    if lo == 0 {
        proof {
            assert forall|j: int| 0 <= j < v@.len() implies v@[j] > target by {
                if j > 0 {
                    assert(v@[0] < v@[j]);
                }
                assert(v@[0] > target);
            }
            lemma_find_last_le_none(v@, target);
        }
        None
    } else {
        proof {
            assert forall|j: int| lo <= j < v@.len() implies v@[j] > target by {
                if j > lo as int {
                    assert(v@[lo as int] < v@[j]);
                }
            }
            lemma_find_last_le_is(v@, target, lo as int - 1);
        }
        Some(lo - 1)
    }
}

/// The nonce recorded for `address` at exactly `block`, if any; nonce
/// history is a per-block snapshot looked up directly.
pub open spec fn spec_get_nonce(s: StateView, block: u64, address: Felt) -> Option<Felt> {
    match seq_find(s.nonces, nonce_key(block, address)) {
        Some(e) => Some(e.nonce),
        None => None,
    }
}

/// The class hash recorded for `address` at exactly `block`, if any.
pub open spec fn spec_get_class_hash(s: StateView, block: u64, address: Felt) -> Option<Felt> {
    match seq_find(s.classes, class_key(block, address)) {
        Some(e) => Some(e.class_hash),
        None => None,
    }
}

/// The value of slot `(address, key)` as of `block`: the value written at
/// the greatest recorded change at or before `block`, or nothing when the
/// slot had not changed by then (the caller then falls back to the
/// pre-genesis base state).
pub open spec fn spec_get_storage_at(s: StateView, address: Felt, key: Felt, block: u64) -> Option<
    Felt,
> {
    match seq_find(s.change_sets, cs_key(address, key)) {
        None => None,
        Some(cv) => match spec_find_last_le(cv.blocks, block) {
            None => None,
            Some(i) => match seq_find(s.storage, storage_key_pred(cv.blocks[i], address, key)) {
                Some(e) => Some(e.value),
                None => None,
            },
        },
    }
}

impl Tables {
    /// Looks up the nonce written for `address` at exactly `block`.
    pub fn get_nonce(&self, block: u64, address: Felt) -> (r: Option<Felt>)
        ensures
            r == spec_get_nonce(self@, block, address),
    {
        proof {
            lemma_seq_find_index_props(self@.nonces, nonce_key(block, address));
        }
        match find_nonce_index(&self.nonce_changes, block, address) {
            Some(i) => Some(self.nonce_changes[i].nonce),
            None => None,
        }
    }

    /// Looks up the class hash written for `address` at exactly `block`.
    pub fn get_class_hash(&self, block: u64, address: Felt) -> (r: Option<Felt>)
        ensures
            r == spec_get_class_hash(self@, block, address),
    {
        proof {
            lemma_seq_find_index_props(self@.classes, class_key(block, address));
        }
        match find_class_index(&self.class_changes, block, address) {
            Some(i) => Some(self.class_changes[i].class_hash),
            None => None,
        }
    }

    /// Resolves slot `(address, key)` as of `block`: binary-searches the
    /// slot's change list for the greatest recorded block at or below
    /// `block` and fetches the value written there. The tracker's
    /// invariant guarantees the fetch succeeds.
    pub fn get_storage_at(&self, address: Felt, key: Felt, block: u64) -> (r: Option<Felt>)
        requires
            self@.wf(),
        ensures
            r == spec_get_storage_at(self@, address, key, block),
    {
        proof {
            lemma_seq_find_index_props(self@.change_sets, cs_key(address, key));
        }
        match find_change_set_index(&self.storage_change_sets, address, key) {
            None => None,
            Some(i) => {
                let entry = &self.storage_change_sets[i];
                let ghost cv = self@.change_sets[i as int];
                proof {
                    assert(cv == entry@);
                }
                match find_last_le(&entry.blocks, block) {
                    None => None,
                    Some(j) => {
                        let b = entry.blocks[j];
                        proof {
                            lemma_seq_find_index_props(
                                self@.storage,
                                storage_key_pred(b, address, key),
                            );
                            assert(self@.change_sets[i as int].blocks[j as int] == cv.blocks[j as int]);
                            assert(seq_find(
                                self@.storage,
                                storage_key_pred(cv.blocks[j as int], cv.address, cv.key),
                            ) is Some);
                        }
                        match find_storage_index(&self.storage_changes, b, address, key) {
                            Some(k) => Some(self.storage_changes[k].value),
                            None => {
                                proof {
                                    assert(false);
                                }
                                None
                            },
                        }
                    },
                }
            },
        }
    }
}

/// The first out-of-order write makes the whole block's application fail,
/// however many writes follow it.
proof fn lemma_apply_storage_err_extends(s: StateView, block: u64, d: Seq<StorageUpdate>, i: int, e: CommitError)
    requires
        0 <= i <= d.len(),
        spec_apply_storage(s, block, d.take(i)) == Err::<StateView, CommitError>(e),
    ensures
        spec_apply_storage(s, block, d) == Err::<StateView, CommitError>(e),
    decreases d.len() - i,
{
    if i == d.len() {
        assert(d.take(i) =~= d);
    } else {
        assert(d.take(i + 1).drop_last() =~= d.take(i));
        lemma_apply_storage_err_extends(s, block, d, i + 1, e);
    }
}

/// After any sequence of commits a slot's change list is strictly
/// increasing and free of duplicates: the well-formedness every write
/// preserves says exactly that, for every slot.
pub proof fn lemma_change_list_strictly_increasing(s: StateView, i: int)
    requires
        s.wf(),
        0 <= i < s.change_sets.len(),
    ensures
        strictly_increasing(s.change_sets[i].blocks),
        s.change_sets[i].blocks.len() > 0,
{
}

/// Idempotent re-commit: writing the same slot for the same block a
/// second time changes nothing — in particular the slot's change list is
/// left as it was.
pub proof fn lemma_recommit_idempotent(s: StateView, block: u64, u: StorageUpdate)
    ensures
        spec_apply_one_storage(spec_apply_one_storage(s, block, u), block, u)
            == spec_apply_one_storage(s, block, u),
{
    let p = storage_key_pred(block, u.address, u.key);
    let e = StorageChangeEntry { block, address: u.address, key: u.key, value: u.value };
    let q = cs_key(u.address, u.key);
    let s1 = spec_apply_one_storage(s, block, u);
    // The slot's change list now ends in `block`.
    lemma_seq_find_index_props(s.change_sets, q);
    match seq_find_index(s.change_sets, q) {
        None => {
            let cv = ChangeSetView { address: u.address, key: u.key, blocks: seq![block] };
            assert(s1.change_sets == s.change_sets.push(cv));
            assert(forall|j: int| 0 <= j < s.change_sets.len()
                ==> s1.change_sets[j] == s.change_sets[j]);
            lemma_seq_find_index_is(s1.change_sets, q, s.change_sets.len() as int);
            assert(seq_find(s1.change_sets, q) == Some(cv));
        },
        Some(ci) => {
            let cv = s.change_sets[ci];
            if cv.blocks.len() > 0 && cv.blocks.last() == block {
                assert(s1.change_sets == s.change_sets);
                assert(seq_find(s1.change_sets, q) == Some(cv));
            } else {
                let cv2 = ChangeSetView {
                    address: u.address,
                    key: u.key,
                    blocks: cv.blocks.push(block),
                };
                lemma_find_upsert_same(s.change_sets, q, cv2);
                assert(seq_find(s1.change_sets, q) == Some(cv2));
            }
        },
    }
    let cv1 = seq_find(s1.change_sets, q)->Some_0;
    assert(cv1.blocks.len() > 0 && cv1.blocks.last() == block);
    let s2 = spec_apply_one_storage(s1, block, u);
    assert(s2.change_sets == s1.change_sets);
    // The value row is already exactly the row this write produces.
    lemma_seq_find_index_props(s.storage, p);
    match seq_find_index(s.storage, p) {
        Some(i) => {
            assert(s1.storage == s.storage.update(i, e));
            assert(forall|j: int| 0 <= j < i ==> s1.storage[j] == s.storage[j]);
            lemma_seq_find_index_is(s1.storage, p, i);
            assert(s2.storage == s1.storage.update(i, e));
            assert(s2.storage =~= s1.storage);
        },
        None => {
            let i = s.storage.len() as int;
            assert(s1.storage == s.storage.push(e));
            assert(forall|j: int| 0 <= j < i ==> s1.storage[j] == s.storage[j]);
            lemma_seq_find_index_is(s1.storage, p, i);
            assert(s2.storage == s1.storage.update(i, e));
            assert(s2.storage =~= s1.storage);
        },
    }
    assert(s2 =~= s1);
}

/// A committed storage write is readable: right after the tracker records
/// `u` at `block`, the historical query engine resolves the slot at
/// `block` to the value written.
pub proof fn lemma_write_then_read(s: StateView, block: u64, u: StorageUpdate)
    requires
        s.wf(),
        !spec_storage_conflict(s, block, u),
    ensures
        spec_get_storage_at(spec_apply_one_storage(s, block, u), u.address, u.key, block)
            == Some(u.value),
{
    let p = storage_key_pred(block, u.address, u.key);
    let e = StorageChangeEntry { block, address: u.address, key: u.key, value: u.value };
    let q = cs_key(u.address, u.key);
    let s1 = spec_apply_one_storage(s, block, u);
    lemma_seq_find_index_props(s.change_sets, q);
    match seq_find_index(s.change_sets, q) {
        None => {
            let cv = ChangeSetView { address: u.address, key: u.key, blocks: seq![block] };
            assert(forall|j: int| 0 <= j < s.change_sets.len()
                ==> s1.change_sets[j] == s.change_sets[j]);
            lemma_seq_find_index_is(s1.change_sets, q, s.change_sets.len() as int);
            assert(seq_find(s1.change_sets, q) == Some(cv));
        },
        Some(ci) => {
            let cv = s.change_sets[ci];
            if cv.blocks.len() > 0 && cv.blocks.last() == block {
                assert(seq_find(s1.change_sets, q) == Some(cv));
            } else {
                let cv2 = ChangeSetView {
                    address: u.address,
                    key: u.key,
                    blocks: cv.blocks.push(block),
                };
                lemma_find_upsert_same(s.change_sets, q, cv2);
            }
        },
    }
    let cv1 = seq_find(s1.change_sets, q)->Some_0;
    assert(cv1.blocks.len() > 0 && cv1.blocks.last() == block);
    assert(spec_find_last_le(cv1.blocks, block) == Some(cv1.blocks.len() - 1));
    lemma_find_upsert_same(s.storage, p, e);
    assert(seq_find(s1.storage, p) == Some(e));
}

/// A storage write touches exactly its own slot: the history the query
/// engine sees for every other slot is unchanged, at every block.
pub proof fn lemma_write_frames_other_slots(
    s: StateView,
    block: u64,
    u: StorageUpdate,
    address: Felt,
    key: Felt,
    at: u64,
)
    requires
        !(address == u.address && key == u.key),
    ensures
        spec_get_storage_at(spec_apply_one_storage(s, block, u), address, key, at)
            == spec_get_storage_at(s, address, key, at),
{
    let p = storage_key_pred(block, u.address, u.key);
    let e = StorageChangeEntry { block, address: u.address, key: u.key, value: u.value };
    let q = cs_key(u.address, u.key);
    let q2 = cs_key(address, key);
    let s1 = spec_apply_one_storage(s, block, u);
    // The slot's change-set row is untouched.
    lemma_seq_find_index_props(s.change_sets, q);
    match seq_find_index(s.change_sets, q) {
        None => {
            let cv = ChangeSetView { address: u.address, key: u.key, blocks: seq![block] };
            lemma_seq_find_index_props(s.change_sets, q2);
            match seq_find_index(s.change_sets, q2) {
                Some(k) => {
                    assert(s1.change_sets[k] == s.change_sets[k]);
                    lemma_seq_find_index_is(s1.change_sets, q2, k);
                },
                None => {
                    assert(forall|j: int| 0 <= j < s1.change_sets.len()
                        ==> !cs_matches(s1.change_sets[j], address, key));
                    lemma_seq_find_index_none(s1.change_sets, q2);
                },
            }
        },
        Some(ci) => {
            let cv = s.change_sets[ci];
            if cv.blocks.len() > 0 && cv.blocks.last() == block {
            } else {
                let cv2 = ChangeSetView {
                    address: u.address,
                    key: u.key,
                    blocks: cv.blocks.push(block),
                };
                assert(!q2(cv2));
                assert forall|x: ChangeSetView| #[trigger] q(x) implies !q2(x) by {
                    assert(cs_matches(x, u.address, u.key));
                }
                lemma_find_upsert_other(s.change_sets, q, q2, cv2);
            }
        },
    }
    assert(seq_find(s1.change_sets, q2) == seq_find(s.change_sets, q2));
    // Whatever block the change list resolves to, the slot's value rows
    // are untouched as well.
    match seq_find(s.change_sets, q2) {
        None => {},
        Some(cv) => {
            match spec_find_last_le(cv.blocks, at) {
                None => {},
                Some(i) => {
                    let b = cv.blocks[i];
                    let p2 = storage_key_pred(b, address, key);
                    assert(!p2(e));
                    assert forall|x: StorageChangeEntry| #[trigger] p(x) implies !p2(x) by {
                        assert(storage_matches(x, block, u.address, u.key));
                    }
                    lemma_find_upsert_other(s.storage, p, p2, e);
                },
            }
        },
    }
}

/// Isolation, made concrete for a slot's change list: a snapshot taken
/// before a writer commits `block` shows the slot's list exactly as it
/// stood at the open, and that list cannot hold `block` itself. The one
/// premise beyond the snapshot equality is the commit order of the write
/// path: every block recorded for the slot by the time the snapshot was
/// taken lies below the block the writer is about to commit.
pub proof fn lemma_reader_never_sees_later_block(
    at_open: StateView,
    snap: StateView,
    address: Felt,
    key: Felt,
    block: u64,
)
    requires
        snap == at_open,
        match seq_find(at_open.change_sets, cs_key(address, key)) {
            Some(cv) => forall|i: int| 0 <= i < cv.blocks.len() ==> cv.blocks[i] < block,
            None => true,
        },
    ensures
        seq_find(snap.change_sets, cs_key(address, key)) == seq_find(
            at_open.change_sets,
            cs_key(address, key),
        ),
        match seq_find(snap.change_sets, cs_key(address, key)) {
            Some(cv) => forall|i: int| 0 <= i < cv.blocks.len() ==> cv.blocks[i] != block,
            None => true,
        },
{
}

/// Snapshot isolation: a read transaction answers every query from the
/// state its snapshot was taken at. The committed state the database
/// reaches afterwards — `later`, unconstrained here — does not appear in
/// any answer: a reader never observes a write that commits after its
/// transaction opened.
pub proof fn lemma_snapshot_isolation(
    at_open: StateView,
    later: StateView,
    snap: StateView,
    address: Felt,
    key: Felt,
    block: u64,
)
    requires
        snap == at_open,
    ensures
        spec_get_storage_at(snap, address, key, block)
            == spec_get_storage_at(at_open, address, key, block),
        spec_get_nonce(snap, block, address) == spec_get_nonce(at_open, block, address),
        spec_get_class_hash(snap, block, address) == spec_get_class_hash(at_open, block, address),
{
}

/// The durable database: the committed state of the four tables.
pub struct Db {
    tables: Tables,
}

impl View for Db {
    type V = StateView;

    closed spec fn view(&self) -> StateView {
        self.tables@
    }
}

/// A read transaction: a snapshot of the committed state, fixed at the
/// moment it was opened. Its queries answer from the snapshot alone, so a
/// commit that lands after the snapshot was taken is never observed.
pub struct ReadTx {
    snapshot: Tables,
}

impl View for ReadTx {
    type V = StateView;

    closed spec fn view(&self) -> StateView {
        self.snapshot@
    }
}

impl Db {
    /// An empty database.
    pub fn new() -> (r: Db)
        ensures
            r@.nonces.len() == 0,
            r@.classes.len() == 0,
            r@.change_sets.len() == 0,
            r@.storage.len() == 0,
            r@.wf(),
    {
        Db { tables: Tables::new() }
    }

    /// Commits one block's state diff in a single write transaction.
    ///
    /// The diff is applied to a working copy: nonce and class snapshots
    /// first, then each storage write with its change-list maintenance.
    /// Only when every write succeeds does the database take the working
    /// copy over; on an out-of-order fault the copy is dropped and no
    /// table reflects any of the block — the commit is atomic.
    pub fn apply_block(&mut self, block: u64, diff: &BlockStateDiff) -> (r: Result<
        (),
        CommitError,
    >)
        requires
            old(self)@.wf(),
        ensures
            final(self)@.wf(),
            match spec_apply_block(
                old(self)@,
                block,
                diff.nonces@,
                diff.class_hashes@,
                diff.storage@,
            ) {
                Ok(v) => r == Ok::<(), CommitError>(()) && final(self)@ == v,
                Err(e) => r == Err::<(), CommitError>(e) && final(self)@ == old(self)@,
            },
    {
        let ghost s0 = old(self)@;
        let mut working = copy_tables(&self.tables);
        // Nonce snapshots.
        let nn = diff.nonces.len();
        let mut i: usize = 0;
        while i < nn
            invariant
                i <= nn,
                nn == diff.nonces@.len(),
                s0.wf(),
                working@ == (StateView {
                    nonces: spec_apply_nonces(s0.nonces, block, diff.nonces@.take(i as int)),
                    ..s0
                }),
                working@.wf(),
            decreases nn - i,
        {
            let u = diff.nonces[i];
            proof {
                lemma_upsert_nonce_wf(working@, block, u.address, u.nonce);
                assert(diff.nonces@.take(i as int + 1).drop_last() =~= diff.nonces@.take(i as int));
                assert(diff.nonces@.take(i as int + 1).last() == u);
            }
            working.upsert_nonce(block, u.address, u.nonce);
            i = i + 1;
        }
        proof {
            assert(diff.nonces@.take(nn as int) =~= diff.nonces@);
        }
        let ghost s1 = StateView { nonces: spec_apply_nonces(s0.nonces, block, diff.nonces@), ..s0 };
        // Class-hash snapshots.
        let nc = diff.class_hashes.len();
        let mut i: usize = 0;
        while i < nc
            invariant
                i <= nc,
                nc == diff.class_hashes@.len(),
                s1.wf(),
                working@ == (StateView {
                    classes: spec_apply_classes(
                        s1.classes,
                        block,
                        diff.class_hashes@.take(i as int),
                    ),
                    ..s1
                }),
                working@.wf(),
            decreases nc - i,
        {
            let u = diff.class_hashes[i];
            proof {
                lemma_upsert_class_wf(working@, block, u.address, u.class_hash);
                assert(diff.class_hashes@.take(i as int + 1).drop_last() =~= diff.class_hashes@.take(
                    i as int,
                ));
                assert(diff.class_hashes@.take(i as int + 1).last() == u);
            }
            working.upsert_class(block, u.address, u.class_hash);
            i = i + 1;
        }
        proof {
            assert(diff.class_hashes@.take(nc as int) =~= diff.class_hashes@);
        }
        let ghost s2 = StateView {
            classes: spec_apply_classes(s1.classes, block, diff.class_hashes@),
            ..s1
        };
        proof {
            assert(working@ =~= s2);
        }
        // Storage writes with change-list maintenance.
        let ns = diff.storage.len();
        let mut i: usize = 0;
        while i < ns
            invariant
                i <= ns,
                ns == diff.storage@.len(),
                s0.wf(),
                spec_apply_storage(s2, block, diff.storage@.take(i as int))
                    == Ok::<StateView, CommitError>(working@),
                working@.wf(),
                self@ == s0,
                spec_apply_block(s0, block, diff.nonces@, diff.class_hashes@, diff.storage@)
                    == spec_apply_storage(s2, block, diff.storage@),
            decreases ns - i,
        {
            let u = diff.storage[i];
            proof {
                assert(diff.storage@.take(i as int + 1).drop_last() =~= diff.storage@.take(i as int));
                assert(diff.storage@.take(i as int + 1).last() == u);
            }
            match working.record_storage_change(block, u) {
                Ok(()) => {},
                Err(e) => {
                    proof {
                        assert(spec_apply_storage(s2, block, diff.storage@.take(i as int + 1))
                            == Err::<StateView, CommitError>(e));
                        lemma_apply_storage_err_extends(s2, block, diff.storage@, i as int + 1, e);
                    }
                    return Err(e);
                },
            }
            i = i + 1;
        }
        proof {
            assert(diff.storage@.take(ns as int) =~= diff.storage@);
        }
        self.tables = working;
        Ok(())
    }

    /// Looks up the nonce written for `address` at exactly `block`.
    pub fn get_nonce(&self, block: u64, address: Felt) -> (r: Option<Felt>)
        ensures
            r == spec_get_nonce(self@, block, address),
    {
        self.tables.get_nonce(block, address)
    }

    /// Looks up the class hash written for `address` at exactly `block`.
    pub fn get_class_hash(&self, block: u64, address: Felt) -> (r: Option<Felt>)
        ensures
            r == spec_get_class_hash(self@, block, address),
    {
        self.tables.get_class_hash(block, address)
    }

    /// Resolves slot `(address, key)` as of `block` against the committed
    /// state.
    pub fn get_storage_at(&self, address: Felt, key: Felt, block: u64) -> (r: Option<Felt>)
        requires
            self@.wf(),
        ensures
            r == spec_get_storage_at(self@, address, key, block),
    {
        self.tables.get_storage_at(address, key, block)
    }

    /// Opens a read transaction: takes a snapshot of the committed state.
    /// Writers that commit later never disturb it.
    pub fn begin_ro(&self) -> (r: ReadTx)
        ensures
            r@ == self@,
    {
        ReadTx { snapshot: copy_tables(&self.tables) }
    }
}

impl ReadTx {
    /// Looks up a nonce snapshot in the transaction's fixed view.
    pub fn get_nonce(&self, block: u64, address: Felt) -> (r: Option<Felt>)
        ensures
            r == spec_get_nonce(self@, block, address),
    {
        self.snapshot.get_nonce(block, address)
    }

    /// Looks up a class-hash snapshot in the transaction's fixed view.
    pub fn get_class_hash(&self, block: u64, address: Felt) -> (r: Option<Felt>)
        ensures
            r == spec_get_class_hash(self@, block, address),
    {
        self.snapshot.get_class_hash(block, address)
    }

    /// Resolves a slot as of `block` in the transaction's fixed view.
    pub fn get_storage_at(&self, address: Felt, key: Felt, block: u64) -> (r: Option<Felt>)
        requires
            self@.wf(),
        ensures
            r == spec_get_storage_at(self@, address, key, block),
    {
        self.snapshot.get_storage_at(address, key, block)
    }
}

} // verus!
