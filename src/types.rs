use vstd::prelude::*;

verus! {

/// Identifier of a collection, issued by the engine in increasing order.
pub type CollectionId = u32;

/// Identifier of an NFT, scoped to its collection.
pub type NftId = u32;

/// Identifier of a resource, scoped to its NFT.
pub type ResourceId = u32;

/// Identifier of a base that resources can be equipped into.
pub type BaseId = u32;

/// Identifier of a slot of a base.
pub type SlotId = u32;

/// A 32-byte account identifier.
#[derive(Clone, Copy, Debug)]
pub struct AccountId {
    pub bytes: [u8; 32],
}

impl PartialEq for AccountId {
    fn eq(&self, o: &AccountId) -> (r: bool) {
        let mut i: usize = 0;
        while i < 32
            invariant
                0 <= i <= 32,
                forall|j: int| 0 <= j < i ==> self.bytes@[j] == o.bytes@[j],
            decreases 32 - i,
        {
            if self.bytes[i] != o.bytes[i] {
                return false;
            }
            i = i + 1;
        }
        assert(self.bytes@ =~= o.bytes@);
        true
    }
}

impl vstd::std_specs::cmp::PartialEqSpecImpl for AccountId {
    open spec fn obeys_eq_spec() -> bool {
        true
    }

    open spec fn eq_spec(&self, o: &AccountId) -> bool {
        self.bytes@ == o.bytes@
    }
}

impl Eq for AccountId {
}

impl AccountId {
    pub fn from_bytes(bytes: [u8; 32]) -> (r: AccountId)
        ensures
            r.bytes == bytes,
    {
        AccountId { bytes }
    }
}

/// The owner of an NFT: an account, or another NFT that it is nested in.
#[derive(Clone, Copy, Debug)]
pub enum AccountIdOrCollectionNftTuple {
    AccountId(AccountId),
    CollectionAndNftTuple(CollectionId, NftId),
}

/// A collection as the engine reports it.
#[derive(Debug)]
pub struct CollectionInfo {
    pub issuer: AccountId,
    pub metadata: Vec<u8>,
    pub max: Option<u32>,
    pub symbol: Vec<u8>,
    /// The number of NFTs in the collection, as reported by a query. The
    /// engine keeps the live number in its records and fills this in only
    /// when it reports the collection; a stored copy is not kept current.
    pub nfts_count: u32,
}

/// A resource attached to an NFT. A lower priority is shown first; the
/// equip binding, when present, names the base and the slot that the
/// resource can be equipped into.
#[derive(Debug)]
pub struct ResourceInfo {
    pub id: ResourceId,
    pub priority: u32,
    pub metadata: Vec<u8>,
    pub properties: Vec<u8>,
    pub equip: Option<(BaseId, SlotId)>,
}

/// The resource that a mint may attach to the new NFT.
#[derive(Debug)]
pub struct ResourceSpec {
    pub priority: u32,
    pub metadata: Vec<u8>,
    pub properties: Vec<u8>,
    pub equip: Option<(BaseId, SlotId)>,
}

impl CollectionInfo {
    pub fn duplicate(&self) -> (r: CollectionInfo)
        ensures
            r.issuer == self.issuer,
            r.metadata@ == self.metadata@,
            r.max == self.max,
            r.symbol@ == self.symbol@,
            r.nfts_count == self.nfts_count,
    {
        CollectionInfo {
            issuer: self.issuer,
            metadata: self.metadata.clone(),
            max: self.max,
            symbol: self.symbol.clone(),
            nfts_count: self.nfts_count,
        }
    }
}

impl ResourceInfo {
    pub fn duplicate(&self) -> (r: ResourceInfo)
        ensures
            r.id == self.id,
            r.priority == self.priority,
            r.metadata@ == self.metadata@,
            r.properties@ == self.properties@,
            r.equip == self.equip,
    {
        ResourceInfo {
            id: self.id,
            priority: self.priority,
            metadata: self.metadata.clone(),
            properties: self.properties.clone(),
            equip: self.equip,
        }
    }
}

} // verus!
