//! Genesis builder.
//!
//! A configuration object that validates and assembles the initial state
//! snapshot before anything is written: every block-header field must be
//! set, and every allocation must name a class hash that the class set
//! holds — otherwise construction fails, and storage is never touched.
//! A valid [`Genesis`] seeds its rows into the tables through the
//! ordinary write path ([`genesis_state_diff`]).

use vstd::prelude::*;

use crate::assoc::{
    lemma_seq_find_index_is, lemma_seq_find_index_none, lemma_seq_find_index_props,
    seq_find_index, seq_upsert,
};
use crate::felt::{BlockHash, ClassHash, ContractAddress, Felt, StorageKey};
use crate::store::{
    spec_apply_block, BlockStateDiff, ClassUpdate, CommitError, Db, NonceUpdate, StorageUpdate,
};

verus! {

/// Why a genesis could not be built.
#[derive(Clone, Copy, Debug, PartialEq, Eq, Structural)]
pub enum GenesisBuilderError {
    /// Parent hash not set.
    ParentHashNotSet,
    /// State root not set.
    StateRootNotSet,
    /// Timestamp not set.
    TimestampNotSet,
    /// Block number not set.
    NumberNotSet,
    /// Sequencer address not set.
    SequencerAddressNotSet,
    /// L1 gas prices not set.
    L1GasPricesNotSet,
    /// Fee token not set.
    FeeTokenNotSet,
    /// An allocation references a class hash absent from the class set.
    UnknownClassHash { contract: ContractAddress, class_hash: ClassHash },
    /// A contract allocation carries no class hash at all.
    MissingClassHash,
}

/// L1 gas prices recorded in the genesis block.
#[derive(Clone, Copy, Debug, PartialEq, Eq, Structural)]
pub struct GasPrices {
    pub eth: u128,
    pub strk: u128,
}

/// The chain's fee token contract.
#[derive(Clone, Copy, Debug, PartialEq, Eq, Structural)]
pub struct FeeTokenConfig {
    pub address: ContractAddress,
    pub class_hash: ClassHash,
    pub decimals: u8,
}

/// The universal deployer contract, when the chain deploys one.
#[derive(Clone, Copy, Debug, PartialEq, Eq, Structural)]
pub struct UniversalDeployerConfig {
    pub address: ContractAddress,
    pub class_hash: ClassHash,
}

/// A declared contract class: what the class set stores per class hash.
#[derive(Clone, Copy, Debug, PartialEq, Eq, Structural)]
pub struct GenesisClass {
    pub compiled_class_hash: ClassHash,
}

/// A pre-funded account allocation; accounts always carry a class hash.
#[derive(Debug)]
pub struct GenesisAccountAlloc {
    pub class_hash: ClassHash,
    pub nonce: Option<Felt>,
    pub storage: Vec<(StorageKey, Felt)>,
}

/// A plain contract allocation; its class hash may be missing, which
/// construction rejects.
#[derive(Debug)]
pub struct GenesisContractAlloc {
    pub class_hash: Option<ClassHash>,
    pub nonce: Option<Felt>,
    pub storage: Vec<(StorageKey, Felt)>,
}

/// One genesis allocation: an account or a plain contract.
#[derive(Debug)]
pub enum GenesisAllocation {
    Account(GenesisAccountAlloc),
    Contract(GenesisContractAlloc),
}

/// The class hash an allocation references, if it has one.
pub open spec fn spec_alloc_class_hash(a: GenesisAllocation) -> Option<Felt> {
    match a {
        GenesisAllocation::Account(acc) => Some(acc.class_hash),
        GenesisAllocation::Contract(c) => c.class_hash,
    }
}

/// The initial nonce an allocation sets, if any.
pub open spec fn spec_alloc_nonce(a: GenesisAllocation) -> Option<Felt> {
    match a {
        GenesisAllocation::Account(acc) => acc.nonce,
        GenesisAllocation::Contract(c) => c.nonce,
    }
}

/// The initial storage writes of an allocation.
pub open spec fn spec_alloc_storage(a: GenesisAllocation) -> Seq<(Felt, Felt)> {
    match a {
        GenesisAllocation::Account(acc) => acc.storage@,
        GenesisAllocation::Contract(c) => c.storage@,
    }
}

impl GenesisAllocation {
    /// The class hash this allocation references, if it has one.
    pub fn class_hash(&self) -> (r: Option<ClassHash>)
        ensures
            r == spec_alloc_class_hash(*self),
    {
        match self {
            GenesisAllocation::Account(acc) => Some(acc.class_hash),
            GenesisAllocation::Contract(c) => c.class_hash,
        }
    }
}

/// A validated initial state snapshot.
#[derive(Debug)]
pub struct Genesis {
    pub parent_hash: BlockHash,
    pub state_root: Felt,
    pub number: u64,
    pub timestamp: u64,
    pub sequencer_address: ContractAddress,
    pub gas_prices: GasPrices,
    pub fee_token: FeeTokenConfig,
    pub universal_deployer: Option<UniversalDeployerConfig>,
    pub classes: Vec<(ClassHash, GenesisClass)>,
    pub allocations: Vec<(ContractAddress, GenesisAllocation)>,
}

/// Whether the class set already declares `h`.
pub open spec fn classes_contain(cs: Seq<(Felt, GenesisClass)>, h: Felt) -> bool {
    exists|i: int| 0 <= i < cs.len() && cs[i].0 == h
}

/// The effective hash under which a raw class is registered: the hash
/// supplied with it, or the one derived from the class itself.
pub open spec fn spec_raw_class_hash(c: GenesisClass, h: Option<Felt>) -> Felt {
    match h {
        Some(h) => h,
        None => c.compiled_class_hash,
    }
}

/// The class set after registering the raw classes in order, first
/// registration of a hash winning.
pub open spec fn spec_merge_classes(
    cs: Seq<(Felt, GenesisClass)>,
    raw: Seq<(GenesisClass, Option<Felt>)>,
) -> Seq<(Felt, GenesisClass)>
    decreases raw.len(),
{
    if raw.len() == 0 {
        cs
    } else {
        let h = spec_raw_class_hash(raw[0].0, raw[0].1);
        let cs1 = if classes_contain(cs, h) {
            cs
        } else {
            cs.push((h, raw[0].0))
        };
        spec_merge_classes(cs1, raw.drop_first())
    }
}

/// The first allocation fault in order: an allocation without a class
/// hash, or one whose class hash the class set does not declare.
pub open spec fn spec_alloc_error(
    allocs: Seq<(Felt, GenesisAllocation)>,
    cs: Seq<(Felt, GenesisClass)>,
) -> Option<GenesisBuilderError>
    decreases allocs.len(),
{
    if allocs.len() == 0 {
        None
    } else {
        match spec_alloc_class_hash(allocs[0].1) {
            None => Some(GenesisBuilderError::MissingClassHash),
            Some(h) => if !classes_contain(cs, h) {
                Some(
                    GenesisBuilderError::UnknownClassHash {
                        contract: allocs[0].0,
                        class_hash: h,
                    },
                )
            } else {
                spec_alloc_error(allocs.drop_first(), cs)
            },
        }
    }
}

/// Any faulty allocation fails the build: when some allocation lacks a
/// class hash or references one the class set does not declare, the
/// validation reports an allocation fault (the first in order, as the
/// allocations are walked).
pub proof fn lemma_faulty_allocation_fails(
    allocs: Seq<(Felt, GenesisAllocation)>,
    cs: Seq<(Felt, GenesisClass)>,
    i: int,
)
    requires
        0 <= i < allocs.len(),
        match spec_alloc_class_hash(allocs[i].1) {
            Some(h) => !classes_contain(cs, h),
            None => true,
        },
    ensures
        spec_alloc_error(allocs, cs) is Some,
    decreases i,
{
    match spec_alloc_class_hash(allocs[0].1) {
        None => {},
        Some(h) => {
            if classes_contain(cs, h) {
                assert(i != 0);
                assert(allocs.drop_first()[i - 1] == allocs[i]);
                lemma_faulty_allocation_fails(allocs.drop_first(), cs, i - 1);
            }
        },
    }
}

/// Whether an allocation row is the row of `address`.
pub open spec fn alloc_entry_matches(p: (Felt, GenesisAllocation), address: Felt) -> bool {
    p.0 == address
}

/// The key predicate of an allocation row.
pub open spec fn alloc_addr_key(address: Felt) -> spec_fn((Felt, GenesisAllocation)) -> bool {
    |p: (Felt, GenesisAllocation)| alloc_entry_matches(p, address)
}

/// At most one allocation per address: the allocations form an
/// address-to-allocation mapping.
pub open spec fn allocations_unique(s: Seq<(Felt, GenesisAllocation)>) -> bool {
    forall|i: int, j: int| 0 <= i < j < s.len()
        ==> (#[trigger] s[i]).0 != (#[trigger] s[j]).0
}

/// Inserting one allocation: replaces the allocation already held for the
/// same address, in place, or appends when the address is new.
pub open spec fn spec_insert_allocation(
    s: Seq<(Felt, GenesisAllocation)>,
    address: Felt,
    a: GenesisAllocation,
) -> Seq<(Felt, GenesisAllocation)> {
    seq_upsert(s, alloc_addr_key(address), (address, a))
}

/// The allocations after adding the accounts in order, each keyed by its
/// address; a later allocation for an address replaces an earlier one.
pub open spec fn spec_add_accounts(
    s: Seq<(Felt, GenesisAllocation)>,
    accs: Seq<(Felt, GenesisAccountAlloc)>,
) -> Seq<(Felt, GenesisAllocation)>
    decreases accs.len(),
{
    if accs.len() == 0 {
        s
    } else {
        spec_add_accounts(
            spec_insert_allocation(s, accs[0].0, GenesisAllocation::Account(accs[0].1)),
            accs.drop_first(),
        )
    }
}

/// The allocations after adding the contracts in order, keyed by address
/// in the same way.
pub open spec fn spec_add_contracts(
    s: Seq<(Felt, GenesisAllocation)>,
    cons: Seq<(Felt, GenesisContractAlloc)>,
) -> Seq<(Felt, GenesisAllocation)>
    decreases cons.len(),
{
    if cons.len() == 0 {
        s
    } else {
        spec_add_contracts(
            spec_insert_allocation(s, cons[0].0, GenesisAllocation::Contract(cons[0].1)),
            cons.drop_first(),
        )
    }
}

/// Replacement keeps the mapping shape: addresses stay unique.
pub proof fn lemma_insert_allocation_unique(
    s: Seq<(Felt, GenesisAllocation)>,
    address: Felt,
    a: GenesisAllocation,
)
    requires
        allocations_unique(s),
    ensures
        allocations_unique(spec_insert_allocation(s, address, a)),
{
    let p = alloc_addr_key(address);
    lemma_seq_find_index_props(s, p);
    let s2 = spec_insert_allocation(s, address, a);
    match seq_find_index(s, p) {
        Some(i) => {
            assert(s[i].0 == address);
            assert(forall|j: int| 0 <= j < s2.len() && j != i ==> s2[j] == s[j]);
        },
        None => {
            assert(forall|j: int| 0 <= j < s.len() ==> s[j].0 != address);
            assert(forall|j: int| 0 <= j < s.len() ==> s2[j] == s[j]);
        },
    }
}

/// The index of the allocation of `address`, if one exists.
fn find_allocation_index(v: &Vec<(ContractAddress, GenesisAllocation)>, address: Felt) -> (r:
    Option<usize>)
    ensures
        match r {
            Some(i) => seq_find_index(v@, alloc_addr_key(address)) == Some(i as int),
            None => seq_find_index(v@, alloc_addr_key(address)) == None::<int>,
        },
{
    let n = v.len();
    let mut i: usize = 0;
    while i < n
        invariant
            i <= n,
            n == v@.len(),
            forall|j: int| 0 <= j < i ==> !alloc_entry_matches(v@[j], address),
        decreases n - i,
    {
        if v[i].0 == address {
            proof {
                lemma_seq_find_index_is(v@, alloc_addr_key(address), i as int);
            }
            return Some(i);
        }
        i = i + 1;
    }
    proof {
        lemma_seq_find_index_none(v@, alloc_addr_key(address));
    }
    None
}

/// Inserts one allocation, replacing the one held for the same address.
fn insert_allocation(
    v: &mut Vec<(ContractAddress, GenesisAllocation)>,
    address: Felt,
    a: GenesisAllocation,
)
    ensures
        final(v)@ == spec_insert_allocation(old(v)@, address, a),
{
    proof {
        lemma_seq_find_index_props(v@, alloc_addr_key(address));
    }
    match find_allocation_index(v, address) {
        Some(i) => {
            v.set(i, (address, a));
        },
        None => {
            v.push((address, a));
        },
    }
}

/// An assembling genesis configuration. Every field is set through its
/// builder method; [`Builder::build`] validates and produces the
/// [`Genesis`].
#[derive(Debug)]
pub struct Builder {
    pub parent_hash: Option<BlockHash>,
    pub state_root: Option<Felt>,
    pub number: Option<u64>,
    pub timestamp: Option<u64>,
    pub sequencer_address: Option<ContractAddress>,
    pub gas_prices: Option<GasPrices>,
    pub fee_token: Option<FeeTokenConfig>,
    pub udc: Option<UniversalDeployerConfig>,
    pub raw_classes: Vec<(GenesisClass, Option<ClassHash>)>,
    pub allocations: Vec<(ContractAddress, GenesisAllocation)>,
    pub classes: Vec<(ClassHash, GenesisClass)>,
}

/// The first missing-field fault, in the order the fields are checked.
pub open spec fn spec_missing_field(b: Builder) -> Option<GenesisBuilderError> {
    if b.parent_hash is None {
        Some(GenesisBuilderError::ParentHashNotSet)
    } else if b.state_root is None {
        Some(GenesisBuilderError::StateRootNotSet)
    } else if b.number is None {
        Some(GenesisBuilderError::NumberNotSet)
    } else if b.timestamp is None {
        Some(GenesisBuilderError::TimestampNotSet)
    } else if b.sequencer_address is None {
        Some(GenesisBuilderError::SequencerAddressNotSet)
    } else if b.fee_token is None {
        Some(GenesisBuilderError::FeeTokenNotSet)
    } else if b.gas_prices is None {
        Some(GenesisBuilderError::L1GasPricesNotSet)
    } else {
        None
    }
}

impl Builder {
    /// A builder with nothing set.
    pub fn new() -> (r: Builder)
        ensures
            r.parent_hash is None,
            r.state_root is None,
            r.number is None,
            r.timestamp is None,
            r.sequencer_address is None,
            r.gas_prices is None,
            r.fee_token is None,
            r.udc is None,
            r.raw_classes@.len() == 0,
            r.allocations@.len() == 0,
            r.classes@.len() == 0,
    {
        Builder {
            parent_hash: None,
            state_root: None,
            number: None,
            timestamp: None,
            sequencer_address: None,
            gas_prices: None,
            fee_token: None,
            udc: None,
            raw_classes: Vec::new(),
            allocations: Vec::new(),
            classes: Vec::new(),
        }
    }

    /// Sets the parent block hash.
    pub fn parent_hash(self, hash: BlockHash) -> (r: Self)
        ensures
            r == (Builder { parent_hash: Some(hash), ..self }),
    {
        Builder { parent_hash: Some(hash), ..self }
    }

    /// Sets the state root.
    pub fn state_root(self, state_root: Felt) -> (r: Self)
        ensures
            r == (Builder { state_root: Some(state_root), ..self }),
    {
        Builder { state_root: Some(state_root), ..self }
    }

    /// Sets the genesis block number.
    pub fn number(self, number: u64) -> (r: Self)
        ensures
            r == (Builder { number: Some(number), ..self }),
    {
        Builder { number: Some(number), ..self }
    }

    /// Sets the genesis timestamp.
    pub fn timestamp(self, timestamp: u64) -> (r: Self)
        ensures
            r == (Builder { timestamp: Some(timestamp), ..self }),
    {
        Builder { timestamp: Some(timestamp), ..self }
    }

    /// Sets the sequencer address.
    pub fn sequencer_address(self, address: ContractAddress) -> (r: Self)
        ensures
            r == (Builder { sequencer_address: Some(address), ..self }),
    {
        Builder { sequencer_address: Some(address), ..self }
    }

    /// Sets the L1 gas prices.
    pub fn gas_prices(self, gas_prices: GasPrices) -> (r: Self)
        ensures
            r == (Builder { gas_prices: Some(gas_prices), ..self }),
    {
        Builder { gas_prices: Some(gas_prices), ..self }
    }

    /// Sets the fee token.
    pub fn fee_token(self, fee_token: FeeTokenConfig) -> (r: Self)
        ensures
            r == (Builder { fee_token: Some(fee_token), ..self }),
    {
        Builder { fee_token: Some(fee_token), ..self }
    }

    /// Sets the universal deployer.
    pub fn universal_deployer(self, udc: UniversalDeployerConfig) -> (r: Self)
        ensures
            r == (Builder { udc: Some(udc), ..self }),
    {
        Builder { udc: Some(udc), ..self }
    }

    /// Queues raw classes for registration at build time.
    pub fn add_classes(self, classes: Vec<(GenesisClass, Option<ClassHash>)>) -> (r: Self)
        ensures
            r.raw_classes@ == self.raw_classes@ + classes@,
            r.allocations@ == self.allocations@,
            r.classes@ == self.classes@,
            r.parent_hash == self.parent_hash,
            r.state_root == self.state_root,
            r.number == self.number,
            r.timestamp == self.timestamp,
            r.sequencer_address == self.sequencer_address,
            r.gas_prices == self.gas_prices,
            r.fee_token == self.fee_token,
            r.udc == self.udc,
    {
        let mut this = self;
        let mut classes = classes;
        this.raw_classes.append(&mut classes);
        this
    }

    /// Adds account allocations, keyed by address: an account for an
    /// address already allocated replaces the existing allocation, so the
    /// builder always holds one allocation per address.
    pub fn add_accounts(self, accounts: Vec<(ContractAddress, GenesisAccountAlloc)>) -> (r: Self)
        ensures
            r.allocations@ == spec_add_accounts(self.allocations@, accounts@),
            allocations_unique(self.allocations@) ==> allocations_unique(r.allocations@),
            r.raw_classes@ == self.raw_classes@,
            r.classes@ == self.classes@,
            r.parent_hash == self.parent_hash,
            r.state_root == self.state_root,
            r.number == self.number,
            r.timestamp == self.timestamp,
            r.sequencer_address == self.sequencer_address,
            r.gas_prices == self.gas_prices,
            r.fee_token == self.fee_token,
            r.udc == self.udc,
    {
        let mut this = self;
        let mut accounts = accounts;
        let n = accounts.len();
        let ghost orig = this.allocations@;
        let ghost accs = accounts@;
        proof {
            assert(accs.skip(0) =~= accs);
        }
        let mut i: usize = 0;
        while i < n
            invariant
                i <= n,
                n == accs.len(),
                accounts@ == accs.skip(i as int),
                spec_add_accounts(this.allocations@, accs.skip(i as int))
                    == spec_add_accounts(orig, accs),
                allocations_unique(orig) ==> allocations_unique(this.allocations@),
                this.raw_classes@ == self.raw_classes@,
                this.classes@ == self.classes@,
                this.parent_hash == self.parent_hash,
                this.state_root == self.state_root,
                this.number == self.number,
                this.timestamp == self.timestamp,
                this.sequencer_address == self.sequencer_address,
                this.gas_prices == self.gas_prices,
                this.fee_token == self.fee_token,
                this.udc == self.udc,
            decreases n - i,
        {
            proof {
                assert(accs.skip(i as int)[0] == accs[i as int]);
                assert(accs.skip(i as int).drop_first() =~= accs.skip(i as int + 1));
                if allocations_unique(this.allocations@) {
                    lemma_insert_allocation_unique(
                        this.allocations@,
                        accs[i as int].0,
                        GenesisAllocation::Account(accs[i as int].1),
                    );
                }
            }
            let (address, alloc) = accounts.remove(0);
            proof {
                assert(accounts@ =~= accs.skip(i as int + 1));
            }
            insert_allocation(&mut this.allocations, address, GenesisAllocation::Account(alloc));
            i = i + 1;
        }
        proof {
            assert(accs.skip(n as int) =~= Seq::<(Felt, GenesisAccountAlloc)>::empty());
        }
        this
    }

    /// Adds plain contract allocations, keyed by address: a contract for
    /// an address already allocated replaces the existing allocation.
    pub fn add_contracts(self, contracts: Vec<(ContractAddress, GenesisContractAlloc)>) -> (r: Self)
        ensures
            r.allocations@ == spec_add_contracts(self.allocations@, contracts@),
            allocations_unique(self.allocations@) ==> allocations_unique(r.allocations@),
            r.raw_classes@ == self.raw_classes@,
            r.classes@ == self.classes@,
            r.parent_hash == self.parent_hash,
            r.state_root == self.state_root,
            r.number == self.number,
            r.timestamp == self.timestamp,
            r.sequencer_address == self.sequencer_address,
            r.gas_prices == self.gas_prices,
            r.fee_token == self.fee_token,
            r.udc == self.udc,
    {
        let mut this = self;
        let mut contracts = contracts;
        let n = contracts.len();
        let ghost orig = this.allocations@;
        let ghost cons = contracts@;
        proof {
            assert(cons.skip(0) =~= cons);
        }
        let mut i: usize = 0;
        while i < n
            invariant
                i <= n,
                n == cons.len(),
                contracts@ == cons.skip(i as int),
                spec_add_contracts(this.allocations@, cons.skip(i as int))
                    == spec_add_contracts(orig, cons),
                allocations_unique(orig) ==> allocations_unique(this.allocations@),
                this.raw_classes@ == self.raw_classes@,
                this.classes@ == self.classes@,
                this.parent_hash == self.parent_hash,
                this.state_root == self.state_root,
                this.number == self.number,
                this.timestamp == self.timestamp,
                this.sequencer_address == self.sequencer_address,
                this.gas_prices == self.gas_prices,
                this.fee_token == self.fee_token,
                this.udc == self.udc,
            decreases n - i,
        {
            proof {
                assert(cons.skip(i as int)[0] == cons[i as int]);
                assert(cons.skip(i as int).drop_first() =~= cons.skip(i as int + 1));
                if allocations_unique(this.allocations@) {
                    lemma_insert_allocation_unique(
                        this.allocations@,
                        cons[i as int].0,
                        GenesisAllocation::Contract(cons[i as int].1),
                    );
                }
            }
            let (address, alloc) = contracts.remove(0);
            proof {
                assert(contracts@ =~= cons.skip(i as int + 1));
            }
            insert_allocation(&mut this.allocations, address, GenesisAllocation::Contract(alloc));
            i = i + 1;
        }
        proof {
            assert(cons.skip(n as int) =~= Seq::<(Felt, GenesisContractAlloc)>::empty());
        }
        this
    }
}

/// Whether the class set declares `h`.
fn classes_contain_exec(cs: &Vec<(ClassHash, GenesisClass)>, h: Felt) -> (r: bool)
    ensures
        r == classes_contain(cs@, h),
{
    let n = cs.len();
    let mut i: usize = 0;
    while i < n
        invariant
            i <= n,
            n == cs@.len(),
            forall|j: int| 0 <= j < i ==> cs@[j].0 != h,
        decreases n - i,
    {
        if cs[i].0 == h {
            return true;
        }
        i = i + 1;
    }
    false
}

impl Builder {
    /// Validates the configuration and assembles the genesis.
    ///
    /// The raw classes are registered first (a supplied hash wins over
    /// the derived one; the first registration of a hash wins). Then
    /// every allocation must carry a class hash that the class set
    /// declares; the first faulty allocation decides the error. Finally
    /// every block-header field must be set, checked in a fixed order.
    /// Exactly when nothing faults, the genesis is returned.
    pub fn build(self) -> (r: Result<Genesis, GenesisBuilderError>)
        ensures
            ({
                let merged = spec_merge_classes(self.classes@, self.raw_classes@);
                match spec_alloc_error(self.allocations@, merged) {
                    Some(e) => r == Err::<Genesis, GenesisBuilderError>(e),
                    None => match spec_missing_field(self) {
                        Some(e) => r == Err::<Genesis, GenesisBuilderError>(e),
                        None => r is Ok && {
                            let g = r->Ok_0;
                            &&& g.parent_hash == self.parent_hash->0
                            &&& g.state_root == self.state_root->0
                            &&& g.number == self.number->0
                            &&& g.timestamp == self.timestamp->0
                            &&& g.sequencer_address == self.sequencer_address->0
                            &&& g.gas_prices == self.gas_prices->0
                            &&& g.fee_token == self.fee_token->0
                            &&& g.universal_deployer == self.udc
                            &&& g.classes@ == merged
                            &&& g.allocations@ == self.allocations@
                        },
                    },
                }
            }),
    {
        let Builder {
            parent_hash,
            state_root,
            number,
            timestamp,
            sequencer_address,
            gas_prices,
            fee_token,
            udc,
            raw_classes,
            allocations,
            mut classes,
        } = self;
        let ghost cs0 = classes@;
        let ghost raw = raw_classes@;
        let ghost merged = spec_merge_classes(cs0, raw);
        proof {
            assert(raw.skip(0) =~= raw);
        }
        // Register the raw classes in order.
        let nr = raw_classes.len();
        let mut i: usize = 0;
        while i < nr
            invariant
                i <= nr,
                nr == raw.len(),
                raw_classes@ == raw,
                spec_merge_classes(classes@, raw.skip(i as int)) == merged,
                allocations@ == self.allocations@,
                parent_hash == self.parent_hash,
                state_root == self.state_root,
                number == self.number,
                timestamp == self.timestamp,
                sequencer_address == self.sequencer_address,
                gas_prices == self.gas_prices,
                fee_token == self.fee_token,
                udc == self.udc,
                merged == spec_merge_classes(self.classes@, self.raw_classes@),
            decreases nr - i,
        {
            let (class, hash) = raw_classes[i];
            let h = match hash {
                Some(h) => h,
                None => class.compiled_class_hash,
            };
            proof {
                assert(raw.skip(i as int)[0] == raw[i as int]);
                assert(raw.skip(i as int).drop_first() =~= raw.skip(i as int + 1));
                assert(h == spec_raw_class_hash(raw[i as int].0, raw[i as int].1));
            }
            if !classes_contain_exec(&classes, h) {
                classes.push((h, class));
            }
            i = i + 1;
        }
        proof {
            assert(raw.skip(nr as int) =~= Seq::<(GenesisClass, Option<Felt>)>::empty());
        }
        // Every allocation must reference a declared class.
        let ghost allocs = allocations@;
        proof {
            assert(allocs.skip(0) =~= allocs);
        }
        let na = allocations.len();
        let mut i: usize = 0;
        while i < na
            invariant
                i <= na,
                na == allocs.len(),
                allocations@ == allocs,
                classes@ == merged,
                spec_alloc_error(allocs.skip(i as int), merged) == spec_alloc_error(
                    allocs,
                    merged,
                ),
                allocations@ == self.allocations@,
                parent_hash == self.parent_hash,
                state_root == self.state_root,
                number == self.number,
                timestamp == self.timestamp,
                sequencer_address == self.sequencer_address,
                gas_prices == self.gas_prices,
                fee_token == self.fee_token,
                udc == self.udc,
                merged == spec_merge_classes(self.classes@, self.raw_classes@),
            decreases na - i,
        {
            proof {
                assert(allocs.skip(i as int)[0] == allocs[i as int]);
                assert(allocs.skip(i as int).drop_first() =~= allocs.skip(i as int + 1));
            }
            let class_hash = match allocations[i].1.class_hash() {
                Some(h) => h,
                None => {
                    proof {
                        assert(spec_alloc_class_hash(allocs[i as int].1) is None);
                        assert(spec_alloc_error(allocs.skip(i as int), merged)
                            == Some(GenesisBuilderError::MissingClassHash));
                    }
                    return Err(GenesisBuilderError::MissingClassHash);
                },
            };
            if !classes_contain_exec(&classes, class_hash) {
                proof {
                    assert(spec_alloc_class_hash(allocs[i as int].1) == Some(class_hash));
                    assert(spec_alloc_error(allocs.skip(i as int), merged)
                        == Some(GenesisBuilderError::UnknownClassHash {
                            contract: allocs[i as int].0,
                            class_hash,
                        }));
                }
                return Err(
                    GenesisBuilderError::UnknownClassHash {
                        contract: allocations[i].0,
                        class_hash,
                    },
                );
            }
            i = i + 1;
        }
        proof {
            assert(allocs.skip(na as int) =~= Seq::<(Felt, GenesisAllocation)>::empty());
        }
        // Every header field must be set.
        let parent_hash = match parent_hash {
            Some(v) => v,
            None => {
                return Err(GenesisBuilderError::ParentHashNotSet);
            },
        };
        let state_root = match state_root {
            Some(v) => v,
            None => {
                return Err(GenesisBuilderError::StateRootNotSet);
            },
        };
        let number = match number {
            Some(v) => v,
            None => {
                return Err(GenesisBuilderError::NumberNotSet);
            },
        };
        let timestamp = match timestamp {
            Some(v) => v,
            None => {
                return Err(GenesisBuilderError::TimestampNotSet);
            },
        };
        let sequencer_address = match sequencer_address {
            Some(v) => v,
            None => {
                return Err(GenesisBuilderError::SequencerAddressNotSet);
            },
        };
        let fee_token = match fee_token {
            Some(v) => v,
            None => {
                return Err(GenesisBuilderError::FeeTokenNotSet);
            },
        };
        let gas_prices = match gas_prices {
            Some(v) => v,
            None => {
                return Err(GenesisBuilderError::L1GasPricesNotSet);
            },
        };
        Ok(
            Genesis {
                parent_hash,
                state_root,
                number,
                timestamp,
                sequencer_address,
                gas_prices,
                fee_token,
                universal_deployer: udc,
                classes,
                allocations,
            },
        )
    }

    /// A builder pre-filled from an existing genesis, for amending it.
    pub fn from(value: Genesis) -> (r: Builder)
        ensures
            r.parent_hash == Some(value.parent_hash),
            r.state_root == Some(value.state_root),
            r.number == Some(value.number),
            r.timestamp == Some(value.timestamp),
            r.sequencer_address == Some(value.sequencer_address),
            r.gas_prices == Some(value.gas_prices),
            r.fee_token == Some(value.fee_token),
            r.udc == value.universal_deployer,
            r.raw_classes@.len() == 0,
            r.allocations@ == value.allocations@,
            r.classes@ == value.classes@,
    {
        Builder {
            parent_hash: Some(value.parent_hash),
            state_root: Some(value.state_root),
            number: Some(value.number),
            timestamp: Some(value.timestamp),
            sequencer_address: Some(value.sequencer_address),
            gas_prices: Some(value.gas_prices),
            fee_token: Some(value.fee_token),
            udc: value.universal_deployer,
            raw_classes: Vec::new(),
            allocations: value.allocations,
            classes: value.classes,
        }
    }
}

/// The class-hash writes a genesis seeds: one per allocation that carries
/// a class hash, in allocation order.
pub open spec fn spec_genesis_class_updates(allocs: Seq<(Felt, GenesisAllocation)>) -> Seq<
    ClassUpdate,
>
    decreases allocs.len(),
{
    if allocs.len() == 0 {
        Seq::empty()
    } else {
        let head = match spec_alloc_class_hash(allocs[0].1) {
            Some(h) => seq![ClassUpdate { address: allocs[0].0, class_hash: h }],
            None => Seq::empty(),
        };
        head + spec_genesis_class_updates(allocs.drop_first())
    }
}

/// The nonce writes a genesis seeds: one per allocation that sets a
/// nonce, in allocation order.
pub open spec fn spec_genesis_nonce_updates(allocs: Seq<(Felt, GenesisAllocation)>) -> Seq<
    NonceUpdate,
>
    decreases allocs.len(),
{
    if allocs.len() == 0 {
        Seq::empty()
    } else {
        let head = match spec_alloc_nonce(allocs[0].1) {
            Some(n) => seq![NonceUpdate { address: allocs[0].0, nonce: n }],
            None => Seq::empty(),
        };
        head + spec_genesis_nonce_updates(allocs.drop_first())
    }
}

/// The storage writes of one allocation, in its own order.
pub open spec fn spec_alloc_storage_updates(address: Felt, st: Seq<(Felt, Felt)>) -> Seq<
    StorageUpdate,
>
    decreases st.len(),
{
    if st.len() == 0 {
        Seq::empty()
    } else {
        seq![StorageUpdate { address, key: st[0].0, value: st[0].1 }]
            + spec_alloc_storage_updates(address, st.drop_first())
    }
}

/// The storage writes a genesis seeds, allocation by allocation.
pub open spec fn spec_genesis_storage_updates(allocs: Seq<(Felt, GenesisAllocation)>) -> Seq<
    StorageUpdate,
>
    decreases allocs.len(),
{
    if allocs.len() == 0 {
        Seq::empty()
    } else {
        spec_alloc_storage_updates(allocs[0].0, spec_alloc_storage(allocs[0].1))
            + spec_genesis_storage_updates(allocs.drop_first())
    }
}

/// Turns a validated genesis into the state diff its block writes: the
/// class hash, nonce and storage of every allocation, in allocation
/// order. Seeding then goes through the ordinary write path,
/// `Db::apply_block`, at the genesis block number.
pub fn genesis_state_diff(g: &Genesis) -> (d: BlockStateDiff)
    ensures
        d.nonces@ == spec_genesis_nonce_updates(g.allocations@),
        d.class_hashes@ == spec_genesis_class_updates(g.allocations@),
        d.storage@ == spec_genesis_storage_updates(g.allocations@),
{
    let ghost allocs = g.allocations@;
    let mut nonces: Vec<NonceUpdate> = Vec::new();
    let mut class_hashes: Vec<ClassUpdate> = Vec::new();
    let mut storage: Vec<StorageUpdate> = Vec::new();
    proof {
        assert(allocs.skip(0) =~= allocs);
        assert(Seq::<NonceUpdate>::empty() + spec_genesis_nonce_updates(allocs)
            =~= spec_genesis_nonce_updates(allocs));
        assert(Seq::<ClassUpdate>::empty() + spec_genesis_class_updates(allocs)
            =~= spec_genesis_class_updates(allocs));
        assert(Seq::<StorageUpdate>::empty() + spec_genesis_storage_updates(allocs)
            =~= spec_genesis_storage_updates(allocs));
    }
    let na = g.allocations.len();
    let mut i: usize = 0;
    while i < na
        invariant
            i <= na,
            na == allocs.len(),
            g.allocations@ == allocs,
            nonces@ + spec_genesis_nonce_updates(allocs.skip(i as int))
                == spec_genesis_nonce_updates(allocs),
            class_hashes@ + spec_genesis_class_updates(allocs.skip(i as int))
                == spec_genesis_class_updates(allocs),
            storage@ + spec_genesis_storage_updates(allocs.skip(i as int))
                == spec_genesis_storage_updates(allocs),
        decreases na - i,
    {
        proof {
            assert(allocs.skip(i as int)[0] == allocs[i as int]);
            assert(allocs.skip(i as int).drop_first() =~= allocs.skip(i as int + 1));
        }
        let address = g.allocations[i].0;
        let alloc = &g.allocations[i].1;
        let ghost nonces0 = nonces@;
        let ghost classes0 = class_hashes@;
        let ghost storage0 = storage@;
        match alloc.class_hash() {
            Some(h) => {
                class_hashes.push(ClassUpdate { address, class_hash: h });
                proof {
                    assert(class_hashes@ + spec_genesis_class_updates(allocs.skip(i as int + 1))
                        =~= classes0 + spec_genesis_class_updates(allocs.skip(i as int)));
                }
            },
            None => {},
        }
        let nonce_opt = match alloc {
            GenesisAllocation::Account(acc) => acc.nonce,
            GenesisAllocation::Contract(c) => c.nonce,
        };
        match nonce_opt {
            Some(n) => {
                nonces.push(NonceUpdate { address, nonce: n });
                proof {
                    assert(nonces@ + spec_genesis_nonce_updates(allocs.skip(i as int + 1))
                        =~= nonces0 + spec_genesis_nonce_updates(allocs.skip(i as int)));
                }
            },
            None => {},
        }
        let st = match alloc {
            GenesisAllocation::Account(acc) => &acc.storage,
            GenesisAllocation::Contract(c) => &c.storage,
        };
        let ghost stv = st@;
        proof {
            assert(stv.skip(0) =~= stv);
        }
        let ns = st.len();
        let mut j: usize = 0;
        while j < ns
            invariant
                j <= ns,
                ns == stv.len(),
                st@ == stv,
                storage@ + spec_alloc_storage_updates(address, stv.skip(j as int))
                    == storage0 + spec_alloc_storage_updates(address, stv),
            decreases ns - j,
        {
            proof {
                assert(stv.skip(j as int)[0] == stv[j as int]);
                assert(stv.skip(j as int).drop_first() =~= stv.skip(j as int + 1));
            }
            let ghost before = storage@;
            storage.push(StorageUpdate { address, key: st[j].0, value: st[j].1 });
            proof {
                assert(storage@ + spec_alloc_storage_updates(address, stv.skip(j as int + 1))
                    =~= before + spec_alloc_storage_updates(address, stv.skip(j as int)));
            }
            j = j + 1;
        }
        proof {
            assert(stv.skip(ns as int) =~= Seq::<(Felt, Felt)>::empty());
            assert(storage@ =~= storage0 + spec_alloc_storage_updates(address, stv));
            assert(spec_alloc_storage(allocs[i as int].1) == stv);
            assert(storage@ + spec_genesis_storage_updates(allocs.skip(i as int + 1))
                =~= storage0 + spec_genesis_storage_updates(allocs.skip(i as int)));
        }
        i = i + 1;
    }
    proof {
        assert(allocs.skip(na as int) =~= Seq::<(Felt, GenesisAllocation)>::empty());
        assert(nonces@ =~= spec_genesis_nonce_updates(allocs));
        assert(class_hashes@ =~= spec_genesis_class_updates(allocs));
        assert(storage@ =~= spec_genesis_storage_updates(allocs));
    }
    BlockStateDiff { nonces, class_hashes, storage }
}

/// Seeds a validated genesis into the database: its allocations' class
/// hashes, nonces and storage go through the ordinary write path, as the
/// state diff of the genesis block. On a fresh database this cannot
/// fault; the contract is that of committing the genesis diff.
pub fn seed_genesis(db: &mut Db, g: &Genesis) -> (r: Result<(), CommitError>)
    requires
        old(db)@.wf(),
    ensures
        final(db)@.wf(),
        match spec_apply_block(
            old(db)@,
            g.number,
            spec_genesis_nonce_updates(g.allocations@),
            spec_genesis_class_updates(g.allocations@),
            spec_genesis_storage_updates(g.allocations@),
        ) {
            Ok(v) => r == Ok::<(), CommitError>(()) && final(db)@ == v,
            Err(e) => r == Err::<(), CommitError>(e) && final(db)@ == old(db)@,
        },
{
    let diff = genesis_state_diff(g);
    db.apply_block(g.number, &diff)
}

} // verus!
