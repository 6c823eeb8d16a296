//! Table schema model.
//!
//! Each logical table is declared as a (name, key type, value type) triple;
//! a dup-sorted table additionally carries a sort sub-key whose encoding
//! must be order-preserving, because the storage engine physically sorts
//! duplicate entries under one key by the sub-key's byte string. The name
//! is the stable string under which the physical handle is opened; no two
//! tables share a name ([`lemma_table_names_unique`]).
//!
//! The change-set table's value type, [`StorageEntryChangeList`], composes
//! the two codec kinds: its sub-key is encoded fixed-width (it must stay
//! separately addressable and order-preserving) and its block list is
//! compressed variable-width (it is unbounded).

use vstd::prelude::*;

use crate::codec::{
    compress_block_list, decompress_block_list, encode_felt, spec_compress_block_list,
    spec_decode_felt, spec_decompress_block_list, spec_encode_felt, CodecError,
};
use crate::felt::StorageKey;

verus! {

/// The logical tables of the schema.
#[derive(Clone, Copy, Debug, PartialEq, Eq, Structural)]
pub enum TableId {
    /// Contract nonce changes by block: `(block, address) -> nonce`.
    NonceChanges,
    /// Contract class hash changes by block: `(block, address) -> class hash`.
    ContractClassChanges,
    /// Per-slot change lists: `(address, key) -> change list`, dup-sorted
    /// by the raw storage key.
    StorageChangeSet,
    /// Values written per block and slot: `(block, address + key) -> value`.
    StorageChanges,
}

impl TableId {
    /// The stable name under which the backend opens the table's handle.
    /// Renaming a table is a breaking format change.
    pub open spec fn spec_name(self) -> Seq<char> {
        match self {
            TableId::NonceChanges => "NonceChanges"@,
            TableId::ContractClassChanges => "ContractClassChanges"@,
            TableId::StorageChangeSet => "StorageChangeSet"@,
            TableId::StorageChanges => "StorageChanges"@,
        }
    }

    /// The table's name as a string.
    pub fn name(self) -> (r: &'static str)
        ensures
            r@ == self.spec_name(),
    {
        match self {
            TableId::NonceChanges => "NonceChanges",
            TableId::ContractClassChanges => "ContractClassChanges",
            TableId::StorageChangeSet => "StorageChangeSet",
            TableId::StorageChanges => "StorageChanges",
        }
    }

    /// Whether the table keeps several sorted values under one primary key.
    /// Only the change-set table does: the storage key is its sub-key.
    pub fn is_dupsort(self) -> (r: bool)
        ensures
            r == (self == TableId::StorageChangeSet),
    {
        match self {
            TableId::StorageChangeSet => true,
            _ => false,
        }
    }
}

/// The serialized shape of one column of a table.
#[derive(Clone, Copy, Debug, PartialEq, Eq, Structural)]
pub enum ColumnCodec {
    /// An 8-byte big-endian block number followed by a 32-byte address:
    /// fixed width, order-preserving.
    BlockAddress,
    /// A 32-byte address followed by a 32-byte storage key: fixed width,
    /// order-preserving.
    AddressKey,
    /// A 32-byte big-endian field element: fixed width, order-preserving.
    FeltKey,
    /// A 32-byte field element stored as a value.
    FeltValue,
    /// A compressed change list: a fixed-width storage key followed by a
    /// variable-width block list; ordering not guaranteed.
    ChangeList,
}

/// One table's row in the schema registry: its stable name, its key and
/// value codecs, and — for a dup-sorted table — the codec of the sub-key
/// that physically orders the duplicates.
#[derive(Clone, Copy, Debug)]
pub struct TableSchema {
    pub name: &'static str,
    pub key: ColumnCodec,
    pub value: ColumnCodec,
    pub subkey: Option<ColumnCodec>,
}

impl TableId {
    /// The table's row in the schema registry.
    pub fn schema(self) -> (r: TableSchema)
        ensures
            r.name@ == self.spec_name(),
            r.subkey is Some <==> self == TableId::StorageChangeSet,
            self == TableId::NonceChanges ==> r.key == ColumnCodec::BlockAddress && r.value
                == ColumnCodec::FeltValue,
            self == TableId::ContractClassChanges ==> r.key == ColumnCodec::BlockAddress
                && r.value == ColumnCodec::FeltValue,
            self == TableId::StorageChangeSet ==> r.key == ColumnCodec::AddressKey && r.value
                == ColumnCodec::ChangeList && r.subkey == Some(ColumnCodec::FeltKey),
            self == TableId::StorageChanges ==> r.key == ColumnCodec::BlockAddress && r.value
                == ColumnCodec::FeltValue,
    {
        match self {
            TableId::NonceChanges => TableSchema {
                name: "NonceChanges",
                key: ColumnCodec::BlockAddress,
                value: ColumnCodec::FeltValue,
                subkey: None,
            },
            TableId::ContractClassChanges => TableSchema {
                name: "ContractClassChanges",
                key: ColumnCodec::BlockAddress,
                value: ColumnCodec::FeltValue,
                subkey: None,
            },
            TableId::StorageChangeSet => TableSchema {
                name: "StorageChangeSet",
                key: ColumnCodec::AddressKey,
                value: ColumnCodec::ChangeList,
                subkey: Some(ColumnCodec::FeltKey),
            },
            TableId::StorageChanges => TableSchema {
                name: "StorageChanges",
                key: ColumnCodec::BlockAddress,
                value: ColumnCodec::FeltValue,
                subkey: None,
            },
        }
    }
}

/// The whole registry, one row per logical table, built once at startup.
pub fn schema_registry() -> (r: Vec<TableSchema>)
    ensures
        r@.len() == 4,
        r@[0].name@ == TableId::NonceChanges.spec_name(),
        r@[1].name@ == TableId::ContractClassChanges.spec_name(),
        r@[2].name@ == TableId::StorageChangeSet.spec_name(),
        r@[3].name@ == TableId::StorageChanges.spec_name(),
        forall|i: int| 0 <= i < 4 ==> ((#[trigger] r@[i]).subkey is Some <==> i == 2),
        r@[2].key == ColumnCodec::AddressKey && r@[2].value == ColumnCodec::ChangeList
            && r@[2].subkey == Some(ColumnCodec::FeltKey),
        forall|i: int| 0 <= i < 4 && i != 2 ==> (#[trigger] r@[i]).key
            == ColumnCodec::BlockAddress && r@[i].value == ColumnCodec::FeltValue,
{
    let mut r: Vec<TableSchema> = Vec::new();
    r.push(TableId::NonceChanges.schema());
    r.push(TableId::ContractClassChanges.schema());
    r.push(TableId::StorageChangeSet.schema());
    r.push(TableId::StorageChanges.schema());
    r
}

/// No two tables share a name: the names are the schema contract with the
/// storage backend.
pub proof fn lemma_table_names_unique(a: TableId, b: TableId)
    requires
        a != b,
    ensures
        a.spec_name() != b.spec_name(),
{
    reveal_strlit("NonceChanges");
    reveal_strlit("ContractClassChanges");
    reveal_strlit("StorageChangeSet");
    reveal_strlit("StorageChanges");
    assert("NonceChanges"@.len() == 12);
    assert("ContractClassChanges"@.len() == 20);
    assert("StorageChangeSet"@.len() == 16);
    assert("StorageChanges"@.len() == 14);
}

/// The value stored in the dup-sorted change-set table: one storage key
/// (the dup-sort sub-key) together with the strictly increasing list of
/// block numbers at which that slot's value changed.
#[derive(Debug)]
pub struct StorageEntryChangeList {
    /// The raw storage key; the sub-key that distinguishes duplicate
    /// entries under one address.
    pub key: StorageKey,
    /// The blocks at which the slot changed, strictly increasing.
    pub block_list: Vec<u64>,
}

/// The serialized form of a change list: the 32-byte order-preserving
/// encoding of the key, then the compressed block list.
pub open spec fn spec_compress_change_list(key: StorageKey, blocks: Seq<u64>) -> Seq<u8>
    recommends
        blocks.len() <= u64::MAX,
{
    spec_encode_felt(key) + spec_compress_block_list(blocks)
}

/// The deserialization of a change list: fails with `InvalidLength` on
/// fewer than 32 bytes, then splits the key from the compressed block
/// list.
pub open spec fn spec_decompress_change_list(s: Seq<u8>) -> Result<
    (StorageKey, Seq<u64>),
    CodecError,
> {
    if s.len() < 32 {
        Err(CodecError::InvalidLength)
    } else {
        match spec_decode_felt(s.subrange(0, 32)) {
            Err(e) => Err(e),
            Ok(key) => match spec_decompress_block_list(s.skip(32)) {
                Err(e) => Err(e),
                Ok(blocks) => Ok((key, blocks)),
            },
        }
    }
}

impl StorageEntryChangeList {
    /// Serializes the change list: fixed-width key, then compressed block
    /// list.
    pub fn compress(self) -> (r: Vec<u8>)
        ensures
            r@ == spec_compress_change_list(self.key, self.block_list@),
    {
        let mut buf = encode_felt(&self.key);
        let mut blocks = compress_block_list(&self.block_list);
        buf.append(&mut blocks);
        buf
    }

    /// Deserializes a change list, inverting [`Self::compress`].
    ///
    /// Fails with `InvalidLength` if and only if fewer than 32 bytes are
    /// given; the remaining failures are those of the key decode and of
    /// the block-list decompression.
    pub fn decompress(bytes: &[u8]) -> (r: Result<Self, CodecError>)
        ensures
            match r {
                Ok(cl) => spec_decompress_change_list(bytes@)
                    == Ok::<(StorageKey, Seq<u64>), CodecError>((cl.key, cl.block_list@)),
                Err(e) => spec_decompress_change_list(bytes@)
                    == Err::<(StorageKey, Seq<u64>), CodecError>(e),
            },
            r is Ok ==> r->Ok_0.key.wf(),
    {
        if bytes.len() < 32 {
            return Err(CodecError::InvalidLength);
        }
        let key = match crate::codec::decode_felt_prefix(bytes) {
            Ok(k) => k,
            Err(e) => {
                return Err(e);
            },
        };
        let blocks = match crate::codec::decompress_block_list_from(bytes, 32) {
            Ok(l) => l,
            Err(e) => {
                return Err(e);
            },
        };
        Ok(StorageEntryChangeList { key, block_list: blocks })
    }
}

/// Round trip of the change-list codec: decompressing a compressed change
/// list yields the change list back, for every well-formed value.
pub proof fn lemma_change_list_round_trip(key: StorageKey, blocks: Seq<u64>)
    requires
        key.wf(),
        blocks.len() <= u64::MAX,
    ensures
        spec_decompress_change_list(spec_compress_change_list(key, blocks))
            == Ok::<(StorageKey, Seq<u64>), CodecError>((key, blocks)),
{
    let s = spec_compress_change_list(key, blocks);
    crate::codec::lemma_felt_codec_inverse(key);
    crate::codec::lemma_encode_block_elems_len(blocks);
    assert(s.subrange(0, 32) =~= spec_encode_felt(key));
    assert(s.skip(32) =~= spec_compress_block_list(blocks));
    crate::codec::lemma_block_list_round_trip(blocks);
}

} // verus!
