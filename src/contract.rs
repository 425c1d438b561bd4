use vstd::prelude::*;
use vstd::string::StringSliceAdditionalSpecFns;

use crate::engine::{same_account, RmrkEngine};
use crate::error::{failed, RmrkError};
use crate::graph::{collection_keys, subtree, NftKey};
use crate::records::{index_of, same_but_owner};
use crate::types::{
    AccountId, AccountIdOrCollectionNftTuple, BaseId, CollectionId, CollectionInfo, NftId,
    ResourceId, ResourceInfo, ResourceSpec, SlotId,
};

verus! {

/// The metadata of the collection that `create_collection` makes.
pub const COLLECTION_METADATA: &'static str = "ipfs://ipfs/QmTG9ekqrdMh3dsehLYjC19fUSmPR31Ds2h6Jd7LnMZ9c7";

/// Its symbol.
pub const COLLECTION_SYMBOL: &'static str = "ROO";

/// Its cap on NFTs.
pub const COLLECTION_MAX: u32 = 1000;

/// The contract front of the protocol: each message forwards to the engine
/// that it holds, with the caller passed in explicitly. The engine is the
/// in-memory model of `RmrkEngine`, so what the contracts state holds of that
/// model; on a chain the messages go to the host's engine instead.
#[derive(Debug)]
pub struct RmrkTestContract {
    pub engine: RmrkEngine,
}

impl RmrkTestContract {
    pub open spec fn wf(&self) -> bool {
        self.engine.wf()
    }

    /// A contract over an empty engine.
    pub fn new() -> (r: RmrkTestContract)
        ensures
            r.wf(),
            r.engine.collections@.len() == 0,
            r.engine.nfts@.len() == 0,
    {
        RmrkTestContract { engine: RmrkEngine::new() }
    }

    /// A contract over `engine`.
    pub fn with_engine(engine: RmrkEngine) -> (r: RmrkTestContract)
        requires
            engine.wf(),
        ensures
            r.wf(),
            r.engine == engine,
    {
        RmrkTestContract { engine }
    }

    pub fn next_nft_id(&self, collection_id: CollectionId) -> (r: u32)
        requires
            self.wf(),
        ensures
            r == if collection_id < self.engine.next_nft_ids@.len() {
                self.engine.next_nft_ids@[collection_id as int]
            } else {
                0
            },
    {
        self.engine.next_nft_id(collection_id)
    }

    pub fn collection_index(&self) -> (r: CollectionId)
        requires
            self.wf(),
        ensures
            r == self.engine.collections@.len(),
    {
        self.engine.collection_index()
    }

    pub fn next_resource_id(&self, collection_id: CollectionId, nft_id: NftId) -> (r: ResourceId)
        requires
            self.wf(),
        ensures
            r == if self.engine.owners().contains_key((collection_id, nft_id)) {
                self.engine.record((collection_id, nft_id)).next_resource_id
            } else {
                0
            },
    {
        self.engine.next_resource_id(collection_id, nft_id)
    }

    pub fn collections(&self, collection_id: CollectionId) -> (r: Result<Option<CollectionInfo>, RmrkError>)
        requires
            self.wf(),
        ensures
            r is Ok,
            (r->Ok_0 is Some) == (self.engine.collection(collection_id) is Some),
            r->Ok_0 is Some ==> {
                let got = r->Ok_0->Some_0;
                let info = self.engine.collection(collection_id)->0;
                &&& got.issuer == info.issuer
                &&& got.metadata@ == info.metadata@
                &&& got.max == info.max
                &&& got.symbol@ == info.symbol@
                &&& got.nfts_count == self.engine.nfts_count(collection_id)
            },
    {
        self.engine.collections(collection_id)
    }

    pub fn priorities(&self, collection_id: CollectionId, nft_id: NftId, resource_id: ResourceId) -> (r: u32)
        requires
            self.wf(),
        ensures
            r == if self.engine.has_resource_at((collection_id, nft_id), resource_id) {
                self.engine.resource_at((collection_id, nft_id), resource_id).priority
            } else {
                0
            },
    {
        self.engine.priorities(collection_id, nft_id, resource_id)
    }

    pub fn resources(&self, collection_id: CollectionId, nft_id: NftId, resource_id: ResourceId) -> (r: Result<ResourceInfo, RmrkError>)
        requires
            self.wf(),
        ensures
            r is Ok <==> self.engine.has_resource_at((collection_id, nft_id), resource_id),
            r is Err ==> r == Err::<ResourceInfo, RmrkError>(failed()),
            r is Ok ==> {
                let got = r->Ok_0;
                let res = self.engine.resource_at((collection_id, nft_id), resource_id);
                &&& got.id == res.id
                &&& got.priority == res.priority
                &&& got.metadata@ == res.metadata@
                &&& got.properties@ == res.properties@
                &&& got.equip == res.equip
            },
    {
        self.engine.resources(collection_id, nft_id, resource_id)
    }

    pub fn equippable_bases(&self, collection_id: CollectionId, nft_id: NftId, base_id: BaseId) -> (r: Result<(), RmrkError>)
        requires
            self.wf(),
        ensures
            r is Ok <==> {
                let k = (collection_id, nft_id);
                &&& self.engine.owners().contains_key(k)
                &&& crate::records::binds_base(self.engine.record(k).resources@, base_id)
            },
            r is Err ==> r == Err::<(), RmrkError>(failed()),
    {
        self.engine.equippable_bases(collection_id, nft_id, base_id)
    }

    pub fn equippable_slots(
        &self,
        collection_id: CollectionId,
        nft_id: NftId,
        resource_id: ResourceId,
        base_id: BaseId,
        slot_id: SlotId,
    ) -> (r: Result<(), RmrkError>)
        requires
            self.wf(),
        ensures
            r is Ok <==> self.engine.has_resource_at((collection_id, nft_id), resource_id)
                && self.engine.resource_at((collection_id, nft_id), resource_id).equip == Some(
                (base_id, slot_id),
            ),
            r is Err ==> r == Err::<(), RmrkError>(failed()),
    {
        self.engine.equippable_slots(collection_id, nft_id, resource_id, base_id, slot_id)
    }

    pub fn properties(&self, collection_id: CollectionId, nft_id: NftId, resource_id: ResourceId) -> (r: Result<Vec<u8>, RmrkError>)
        requires
            self.wf(),
        ensures
            r is Ok <==> self.engine.has_resource_at((collection_id, nft_id), resource_id),
            r is Err ==> r == Err::<Vec<u8>, RmrkError>(failed()),
            r is Ok ==> r->Ok_0@ == self.engine.resource_at((collection_id, nft_id), resource_id).properties@,
    {
        self.engine.properties(collection_id, nft_id, resource_id)
    }

    pub fn lock(&self, collection_id: CollectionId, nft_id: NftId) -> (r: Result<bool, RmrkError>)
        requires
            self.wf(),
        ensures
            r is Ok <==> self.engine.owners().contains_key((collection_id, nft_id)),
            r is Err ==> r == Err::<bool, RmrkError>(failed()),
            r is Ok ==> r->Ok_0 == self.engine.record((collection_id, nft_id)).locked,
    {
        self.engine.lock(collection_id, nft_id)
    }

    /// Mints an NFT owned by the account `owner`, on behalf of `caller`.
    pub fn mint_ntf(
        &mut self,
        caller: AccountId,
        owner: AccountId,
        collection_id: u32,
        royalty_recipient: Option<AccountId>,
        royalty: Option<u8>,
        metadata: Vec<u8>,
        transferable: bool,
        resources: Option<ResourceSpec>,
    ) -> (r: Result<(), RmrkError>)
        requires
            old(self).wf(),
        ensures
            final(self).wf(),
            r is Ok <==> old(self).engine.mint_allowed(caller, collection_id, royalty),
            r is Err ==> r == Err::<(), RmrkError>(failed()) && *final(self) == *old(self),
            r is Ok ==> RmrkEngine::minted(
                &old(self).engine,
                &final(self).engine,
                AccountIdOrCollectionNftTuple::AccountId(owner),
                collection_id,
                royalty_recipient,
                royalty,
                metadata@,
                transferable,
                resources,
            ),
    {
        self.engine.mint_nft(
            caller,
            owner,
            collection_id,
            royalty_recipient,
            royalty,
            metadata,
            transferable,
            resources,
        )
    }

    /// Mints an NFT nested inside the NFT `owner`, on behalf of `caller`.
    pub fn mint_ntf_directly_to_nft(
        &mut self,
        caller: AccountId,
        owner: (CollectionId, NftId),
        collection_id: u32,
        royalty_recipient: Option<AccountId>,
        royalty: Option<u8>,
        metadata: Vec<u8>,
        transferable: bool,
        resources: Option<ResourceSpec>,
    ) -> (r: Result<(), RmrkError>)
        requires
            old(self).wf(),
        ensures
            final(self).wf(),
            r is Ok <==> old(self).engine.mint_allowed(caller, collection_id, royalty)
                && old(self).engine.owners().contains_key(owner),
            r is Err ==> r == Err::<(), RmrkError>(failed()) && *final(self) == *old(self),
            r is Ok ==> RmrkEngine::minted(
                &old(self).engine,
                &final(self).engine,
                AccountIdOrCollectionNftTuple::CollectionAndNftTuple(owner.0, owner.1),
                collection_id,
                royalty_recipient,
                royalty,
                metadata@,
                transferable,
                resources,
            ),
    {
        self.engine.mint_nft_directly_to_nft(
            caller,
            owner,
            collection_id,
            royalty_recipient,
            royalty,
            metadata,
            transferable,
            resources,
        )
    }

    /// Creates, on behalf of `caller`, the collection with metadata
    /// `COLLECTION_METADATA`, symbol `COLLECTION_SYMBOL` and cap
    /// `COLLECTION_MAX`.
    pub fn create_collection(&mut self, caller: AccountId) -> (r: Result<(), RmrkError>)
        requires
            old(self).wf(),
        ensures
            final(self).wf(),
            r is Ok <==> old(self).engine.collections@.len() < u32::MAX,
            r is Err ==> r == Err::<(), RmrkError>(failed()) && *final(self) == *old(self),
            r is Ok ==> {
                let c = old(self).engine.collections@.len() as CollectionId;
                let info = final(self).engine.collection(c)->0;
                &&& final(self).engine.collections@.len() == old(self).engine.collections@.len() + 1
                &&& final(self).engine.collection(c) is Some
                &&& same_account(info.issuer, caller)
                &&& info.metadata@ == COLLECTION_METADATA.spec_bytes()
                &&& info.max == Some(COLLECTION_MAX)
                &&& info.symbol@ == COLLECTION_SYMBOL.spec_bytes()
                &&& final(self).engine.nfts_count(c) == 0
                &&& final(self).engine.collections@.drop_last() == old(self).engine.collections@
                &&& final(self).engine.next_nft_ids@ == old(self).engine.next_nft_ids@.push(0)
                &&& final(self).engine.nfts == old(self).engine.nfts
            },
    {
        let metadata = vstd::slice::slice_to_vec(COLLECTION_METADATA.as_bytes());
        let symbol = vstd::slice::slice_to_vec(COLLECTION_SYMBOL.as_bytes());
        self.engine.create_collection(caller, metadata, Some(COLLECTION_MAX), symbol)
    }

    pub fn burn_nft(&mut self, collection_id: CollectionId, nft_id: NftId, max_burns: u32) -> (r: Result<(), RmrkError>)
        requires
            old(self).wf(),
        ensures
            final(self).wf(),
            r is Ok <==> {
                let k = (collection_id, nft_id);
                &&& old(self).engine.owners().contains_key(k)
                &&& old(self).engine.subtree_unlocked(k)
                &&& subtree(old(self).engine.owners(), k).len() <= max_burns
            },
            r is Err ==> r == Err::<(), RmrkError>(failed()) && *final(self) == *old(self),
            r is Ok ==> {
                let d = subtree(old(self).engine.owners(), (collection_id, nft_id));
                &&& final(self).engine.owners() == old(self).engine.owners().remove_keys(d)
                &&& final(self).engine.nfts@.len() == old(self).engine.nfts@.len() - d.len()
                &&& forall|k: NftKey|
                    #[trigger] final(self).engine.owners().contains_key(k)
                        ==> final(self).engine.record(k) == old(self).engine.record(k)
                &&& forall|c: CollectionId|
                    #[trigger] final(self).engine.nfts_count(c) == old(self).engine.nfts_count(c)
                        - collection_keys(d, c).len()
                &&& final(self).engine.collections == old(self).engine.collections
                &&& final(self).engine.next_nft_ids == old(self).engine.next_nft_ids
            },
    {
        self.engine.burn_nft(collection_id, nft_id, max_burns)
    }

    pub fn destroy_collection(&mut self, caller: AccountId, collection_id: CollectionId) -> (r: Result<(), RmrkError>)
        requires
            old(self).wf(),
        ensures
            final(self).wf(),
            r is Ok <==> {
                &&& old(self).engine.collection(collection_id) is Some
                &&& same_account(old(self).engine.collection(collection_id)->0.issuer, caller)
                &&& old(self).engine.nfts_count(collection_id) == 0
            },
            r is Err ==> r == Err::<(), RmrkError>(failed()) && *final(self) == *old(self),
            r is Ok ==> {
                &&& final(self).engine.collections@ == old(self).engine.collections@.update(
                    collection_id as int,
                    None,
                )
                &&& final(self).engine.next_nft_ids == old(self).engine.next_nft_ids
                &&& final(self).engine.nfts == old(self).engine.nfts
            },
    {
        self.engine.destroy_collection(caller, collection_id)
    }

    pub fn send(
        &mut self,
        collection_id: CollectionId,
        nft_id: NftId,
        new_owner: AccountIdOrCollectionNftTuple,
    ) -> (r: Result<(), RmrkError>)
        requires
            old(self).wf(),
        ensures
            final(self).wf(),
            r is Ok <==> old(self).engine.send_allowed((collection_id, nft_id), new_owner),
            r is Err ==> r == Err::<(), RmrkError>(failed()) && *final(self) == *old(self),
            r is Ok ==> {
                let i = index_of(old(self).engine.nfts@, (collection_id, nft_id));
                &&& final(self).engine.owners() == old(self).engine.owners().insert(
                    (collection_id, nft_id),
                    new_owner,
                )
                &&& final(self).engine.nfts@.len() == old(self).engine.nfts@.len()
                &&& final(self).engine.nfts@[i].owner == new_owner
                &&& same_but_owner(final(self).engine.nfts@[i], old(self).engine.nfts@[i])
                &&& forall|j: int|
                    0 <= j < old(self).engine.nfts@.len() && j != i ==> final(self).engine.nfts@[j]
                        == old(self).engine.nfts@[j]
                &&& final(self).engine.collections == old(self).engine.collections
                &&& final(self).engine.next_nft_ids == old(self).engine.next_nft_ids
            },
    {
        self.engine.send(collection_id, nft_id, new_owner)
    }
}

} // verus!
