use vstd::prelude::*;

use crate::error::{failed, RmrkError, RmrkErrorCode};
use crate::graph::{
    collection_keys, is_descendant, is_forest, lemma_insert_leaf, lemma_remove_subtree,
    lemma_reparent, subtree, NftKey, OwnerMap,
};
use crate::records::{
    binds_base, count_in, count_true, has_key, has_resource, index_of, is_first_resource,
    kept_from, key_of, keys_unique, lemma_count_absent, lemma_count_prefix, lemma_count_push,
    lemma_count_true_le, lemma_count_true_set, lemma_count_true_zero, lemma_count_update,
    lemma_count_after_removal, lemma_count_zero, lemma_first_resource_unique, lemma_index_of, lemma_kept_map,
    lemma_kept_push, lemma_kept_skip, lemma_marks_complete, lemma_owner_map_push,
    lemma_owner_map_update, marks_closed, owner_exists, owner_map, resource_in, same_but_lock,
    same_but_owner,
    NftRecord,
};
use crate::types::{
    AccountId, AccountIdOrCollectionNftTuple, BaseId, CollectionId, CollectionInfo, NftId,
    ResourceId, ResourceInfo, ResourceSpec, SlotId,
};

verus! {

/// An in-memory engine that keeps collections, NFTs and their resources and
/// enforces the rules of the ownership and resource model.
///
/// Collection `c` is `collections[c]` (`None` once destroyed), and
/// `next_nft_ids[c]` is the id that its next NFT gets. The number of NFTs
/// of a collection is that of its records (`nfts_count`); the copy in the
/// stored `CollectionInfo` is not kept, and `collections` reports the live
/// number.
#[derive(Debug)]
pub struct RmrkEngine {
    pub collections: Vec<Option<CollectionInfo>>,
    pub next_nft_ids: Vec<NftId>,
    pub nfts: Vec<NftRecord>,
}

pub open spec fn same_account(a: AccountId, b: AccountId) -> bool {
    a.bytes@ == b.bytes@
}

impl RmrkEngine {
    /// The ownership relation of the stored NFTs.
    pub open spec fn owners(&self) -> OwnerMap {
        owner_map(self.nfts@)
    }

    /// The collection with id `c`, if it exists.
    pub open spec fn collection(&self, c: CollectionId) -> Option<CollectionInfo> {
        if c < self.collections@.len() {
            self.collections@[c as int]
        } else {
            None
        }
    }

    /// How many NFTs collection `c` holds.
    pub open spec fn nfts_count(&self, c: CollectionId) -> nat {
        count_in(self.nfts@, c)
    }

    /// The records agree with the model: keys are unique, every NFT
    /// belongs to an existing collection and has an id below that
    /// collection's next id, no capped collection holds more than its cap,
    /// and ownership is a forest.
    pub open spec fn wf(&self) -> bool {
        &&& self.collections@.len() == self.next_nft_ids@.len()
        &&& self.collections@.len() <= u32::MAX
        &&& keys_unique(self.nfts@)
        &&& forall|i: int|
            0 <= i < self.nfts@.len() ==> {
                let r = #[trigger] self.nfts@[i];
                &&& self.collection(r.collection_id) is Some
                &&& r.nft_id < self.next_nft_ids@[r.collection_id as int]
            }
        &&& forall|c: CollectionId|
            c < self.collections@.len() ==> #[trigger] self.nfts_count(c)
                <= self.next_nft_ids@[c as int]
        &&& forall|c: CollectionId|
            #[trigger] self.collection(c) is Some ==> match self.collection(c)->0.max {
                Some(m) => self.nfts_count(c) <= m,
                None => true,
            }
        &&& is_forest(self.owners())
    }

    /// An engine that holds nothing.
    pub fn new() -> (r: RmrkEngine)
        ensures
            r.wf(),
            r.collections@.len() == 0,
            r.nfts@.len() == 0,
    {
        let r = RmrkEngine { collections: Vec::new(), next_nft_ids: Vec::new(), nfts: Vec::new() };
        assert(r.owners() =~= Map::<NftKey, AccountIdOrCollectionNftTuple>::empty());
        r
    }

    /// The position of the NFT `(collection_id, nft_id)`, if it exists.
    pub fn find_nft(&self, collection_id: CollectionId, nft_id: NftId) -> (r: Option<usize>)
        requires
            keys_unique(self.nfts@),
        ensures
            match r {
                Some(i) => i < self.nfts@.len() && key_of(self.nfts@[i as int]) == (
                    collection_id,
                    nft_id,
                ),
                None => !has_key(self.nfts@, (collection_id, nft_id)),
            },
            r is Some <==> self.owners().contains_key((collection_id, nft_id)),
    {
        let mut i: usize = 0;
        while i < self.nfts.len()
            invariant
                0 <= i <= self.nfts@.len(),
                forall|j: int| 0 <= j < i ==> key_of(#[trigger] self.nfts@[j]) != (
                    collection_id,
                    nft_id,
                ),
            decreases self.nfts@.len() - i,
        {
            if self.nfts[i].collection_id == collection_id && self.nfts[i].nft_id == nft_id {
                return Some(i);
            }
            i = i + 1;
        }
        None
    }

    /// Counts the NFTs of collection `c`.
    fn count_nfts(&self, c: CollectionId) -> (r: u32)
        requires
            self.wf(),
            c < self.collections@.len(),
        ensures
            r == self.nfts_count(c),
    {
        let mut i: usize = 0;
        let mut n: u32 = 0;
        while i < self.nfts.len()
            invariant
                self.wf(),
                c < self.collections@.len(),
                0 <= i <= self.nfts@.len(),
                n == count_in(self.nfts@.subrange(0, i as int), c),
                n <= self.nfts_count(c),
            decreases self.nfts@.len() - i,
        {
            proof {
                let s = self.nfts@;
                assert(s.subrange(0, i + 1).drop_last() =~= s.subrange(0, i as int));
                lemma_count_prefix(s, c, i + 1);
            }
            if self.nfts[i].collection_id == c {
                n = n + 1;
            }
            i = i + 1;
        }
        assert(self.nfts@.subrange(0, i as int) =~= self.nfts@);
        n
    }
}


impl RmrkEngine {
    /// Whether `caller` may mint into `collection_id` with `royalty`: the
    /// collection exists, the caller is its issuer, it is below its cap, the
    /// royalty is at most 100 and a next NFT id is left.
    pub open spec fn mint_allowed(
        &self,
        caller: AccountId,
        collection_id: CollectionId,
        royalty: Option<u8>,
    ) -> bool {
        &&& self.collection(collection_id) is Some
        &&& same_account(self.collection(collection_id)->0.issuer, caller)
        &&& match self.collection(collection_id)->0.max {
            Some(m) => self.nfts_count(collection_id) < m,
            None => true,
        }
        &&& match royalty {
            Some(p) => p <= 100,
            None => true,
        }
        &&& self.next_nft_ids@[collection_id as int] < u32::MAX
    }

    /// The state after a successful mint: one record added at the end with
    /// the next id of its collection, and that id advanced.
    pub open spec fn minted(
        old: &RmrkEngine,
        new: &RmrkEngine,
        owner: AccountIdOrCollectionNftTuple,
        collection_id: CollectionId,
        royalty_recipient: Option<AccountId>,
        royalty: Option<u8>,
        metadata: Seq<u8>,
        transferable: bool,
        resources: Option<ResourceSpec>,
    ) -> bool {
        let r = new.nfts@.last();
        &&& new.collections@ == old.collections@
        &&& new.next_nft_ids@ == old.next_nft_ids@.update(
            collection_id as int,
            (old.next_nft_ids@[collection_id as int] + 1) as u32,
        )
        &&& new.nfts@.len() == old.nfts@.len() + 1
        &&& new.nfts@.drop_last() == old.nfts@
        &&& r.collection_id == collection_id
        &&& r.nft_id == old.next_nft_ids@[collection_id as int]
        &&& r.owner == owner
        &&& r.royalty_recipient == royalty_recipient
        &&& r.royalty == royalty
        &&& r.metadata@ == metadata
        &&& r.transferable == transferable
        &&& !r.locked
        &&& match resources {
            Some(spec) => {
                &&& r.resources@.len() == 1
                &&& r.resources@[0].id == 0
                &&& r.resources@[0].priority == spec.priority
                &&& r.resources@[0].metadata@ == spec.metadata@
                &&& r.resources@[0].properties@ == spec.properties@
                &&& r.resources@[0].equip == spec.equip
                &&& r.next_resource_id == 1
            },
            None => r.resources@.len() == 0 && r.next_resource_id == 0,
        }
    }

    /// Creates a collection issued by `caller`, under the next collection
    /// id. Fails when the cap is zero or no collection id is left.
    pub fn create_collection(
        &mut self,
        caller: AccountId,
        metadata: Vec<u8>,
        max: Option<u32>,
        symbol: Vec<u8>,
    ) -> (r: Result<(), RmrkError>)
        requires
            old(self).wf(),
        ensures
            final(self).wf(),
            r is Ok <==> (max != Some(0u32) && old(self).collections@.len() < u32::MAX),
            r is Err ==> r == Err::<(), RmrkError>(failed()) && *final(self) == *old(self),
            r is Ok ==> {
                let c = old(self).collections@.len() as CollectionId;
                let info = final(self).collection(c)->0;
                &&& final(self).collections@.len() == old(self).collections@.len() + 1
                &&& final(self).collections@.drop_last() == old(self).collections@
                &&& final(self).collection(c) is Some
                &&& same_account(info.issuer, caller)
                &&& info.metadata@ == metadata@
                &&& info.max == max
                &&& info.symbol@ == symbol@
                &&& final(self).next_nft_ids@ == old(self).next_nft_ids@.push(0)
                &&& final(self).nfts == old(self).nfts
            },
    {
        if max == Some(0u32) || self.collections.len() >= 4294967295usize {
            return Err(RmrkError::ErrorCode(RmrkErrorCode::Failed));
        }
        let ghost c = self.collections@.len() as CollectionId;
        proof {
            assert forall|i: int| 0 <= i < self.nfts@.len() implies self.nfts@[i].collection_id
                != c by {
                let r = self.nfts@[i];
                assert(self.collection(r.collection_id) is Some);
            }
            lemma_count_absent(self.nfts@, c);
        }
        let info = CollectionInfo { issuer: caller, metadata, max, symbol, nfts_count: 0 };
        self.collections.push(Some(info));
        self.next_nft_ids.push(0);
        proof {
            let s = self.nfts@;
            assert forall|i: int| 0 <= i < s.len() implies {
                let r = #[trigger] s[i];
                &&& self.collection(r.collection_id) is Some
                &&& r.nft_id < self.next_nft_ids@[r.collection_id as int]
            } by {
                let r = s[i];
                assert(old(self).collection(r.collection_id) is Some);
                assert(old(self).wf());
            }
            assert forall|k: CollectionId| k < self.collections@.len() implies #[trigger] self.nfts_count(k)
                <= self.next_nft_ids@[k as int] by {
                if k < c {
                    assert(old(self).nfts_count(k) <= old(self).next_nft_ids@[k as int]);
                }
            }
            assert forall|k: CollectionId| #[trigger] self.collection(k) is Some implies match self.collection(k)->0.max {
                Some(m) => self.nfts_count(k) <= m,
                None => true,
            } by {
                if k < c {
                    assert(old(self).collection(k) is Some);
                }
            }
            assert(self.collections@.drop_last() =~= old(self).collections@);
        }
        Ok(())
    }

    /// Destroys collection `collection_id`. Only its issuer may, and only
    /// while it holds no NFT.
    pub fn destroy_collection(&mut self, caller: AccountId, collection_id: CollectionId) -> (r:
        Result<(), RmrkError>)
        requires
            old(self).wf(),
        ensures
            final(self).wf(),
            r is Ok <==> {
                &&& old(self).collection(collection_id) is Some
                &&& same_account(old(self).collection(collection_id)->0.issuer, caller)
                &&& old(self).nfts_count(collection_id) == 0
            },
            r is Err ==> r == Err::<(), RmrkError>(failed()) && *final(self) == *old(self),
            r is Ok ==> {
                &&& final(self).collections@ == old(self).collections@.update(
                    collection_id as int,
                    None,
                )
                &&& final(self).next_nft_ids == old(self).next_nft_ids
                &&& final(self).nfts == old(self).nfts
            },
    {
        let c = collection_id as usize;
        if c >= self.collections.len() {
            return Err(RmrkError::ErrorCode(RmrkErrorCode::Failed));
        }
        let allowed = match &self.collections[c] {
            Some(info) => info.issuer == caller,
            None => false,
        };
        if !allowed || self.count_nfts(collection_id) != 0 {
            return Err(RmrkError::ErrorCode(RmrkErrorCode::Failed));
        }
        self.collections.set(c, None);
        proof {
            assert forall|i: int| 0 <= i < self.nfts@.len() implies {
                let r = #[trigger] self.nfts@[i];
                &&& self.collection(r.collection_id) is Some
                &&& r.nft_id < self.next_nft_ids@[r.collection_id as int]
            } by {
                let r = self.nfts@[i];
                lemma_count_zero(self.nfts@, collection_id, i);
                assert(old(self).collection(r.collection_id) is Some);
            }
            assert forall|k: CollectionId| k < self.collections@.len() implies #[trigger] self.nfts_count(k)
                <= self.next_nft_ids@[k as int] by {
                assert(old(self).nfts_count(k) <= old(self).next_nft_ids@[k as int]);
            }
            assert forall|k: CollectionId| #[trigger] self.collection(k) is Some implies match self.collection(k)->0.max {
                Some(m) => self.nfts_count(k) <= m,
                None => true,
            } by {
                assert(old(self).collection(k) is Some);
            }
        }
        Ok(())
    }

    /// Mints an NFT owned by `owner` into `collection_id`. Fails unless
    /// `mint_allowed` holds and the owner, when it is an NFT, exists.
    fn mint(
        &mut self,
        caller: AccountId,
        owner: AccountIdOrCollectionNftTuple,
        collection_id: CollectionId,
        royalty_recipient: Option<AccountId>,
        royalty: Option<u8>,
        metadata: Vec<u8>,
        transferable: bool,
        resources: Option<ResourceSpec>,
    ) -> (r: Result<(), RmrkError>)
        requires
            old(self).wf(),
        ensures
            final(self).wf(),
            r is Ok <==> old(self).mint_allowed(caller, collection_id, royalty) && owner_exists(
                old(self).nfts@,
                owner,
            ),
            r is Err ==> r == Err::<(), RmrkError>(failed()) && *final(self) == *old(self),
            r is Ok ==> RmrkEngine::minted(
                old(self),
                final(self),
                owner,
                collection_id,
                royalty_recipient,
                royalty,
                metadata@,
                transferable,
                resources,
            ),
    {
        let c = collection_id as usize;
        if c >= self.collections.len() {
            return Err(RmrkError::ErrorCode(RmrkErrorCode::Failed));
        }
        let (issuer_ok, max) = match &self.collections[c] {
            Some(info) => (info.issuer == caller, info.max),
            None => {
                return Err(RmrkError::ErrorCode(RmrkErrorCode::Failed));
            },
        };
        if !issuer_ok {
            return Err(RmrkError::ErrorCode(RmrkErrorCode::Failed));
        }
        match max {
            Some(m) => {
                if self.count_nfts(collection_id) >= m {
                    return Err(RmrkError::ErrorCode(RmrkErrorCode::Failed));
                }
            },
            None => {},
        }
        match royalty {
            Some(p) => {
                if p > 100 {
                    return Err(RmrkError::ErrorCode(RmrkErrorCode::Failed));
                }
            },
            None => {},
        }
        let nft_id = self.next_nft_ids[c];
        if nft_id == 4294967295u32 {
            return Err(RmrkError::ErrorCode(RmrkErrorCode::Failed));
        }
        match owner {
            AccountIdOrCollectionNftTuple::CollectionAndNftTuple(pc, pn) => {
                if self.find_nft(pc, pn).is_none() {
                    return Err(RmrkError::ErrorCode(RmrkErrorCode::Failed));
                }
            },
            AccountIdOrCollectionNftTuple::AccountId(_) => {},
        }
        let (res, next_resource_id) = match resources {
            Some(spec) => (
                vec![ResourceInfo {
                    id: 0,
                    priority: spec.priority,
                    metadata: spec.metadata,
                    properties: spec.properties,
                    equip: spec.equip,
                }],
                1u32,
            ),
            None => (Vec::new(), 0u32),
        };
        let record = NftRecord {
            collection_id,
            nft_id,
            owner,
            royalty_recipient,
            royalty,
            metadata,
            transferable,
            locked: false,
            resources: res,
            next_resource_id,
        };
        proof {
            let s = self.nfts@;
            if has_key(s, key_of(record)) {
                let i = choose|i: int| 0 <= i < s.len() && key_of(#[trigger] s[i]) == key_of(record);
                assert(s[i].nft_id < self.next_nft_ids@[c as int]);
            }
            lemma_owner_map_push(s, record);
            if let AccountIdOrCollectionNftTuple::CollectionAndNftTuple(pc, pn) = owner {
                assert(has_key(s, (pc, pn)));
            }
            lemma_insert_leaf(owner_map(s), key_of(record), owner);
            assert forall|k: CollectionId| true implies count_in(s.push(record), k) == count_in(s, k)
                + if k == collection_id { 1nat } else { 0nat } by {
                lemma_count_push(s, record, k);
            }
        }
        self.nfts.push(record);
        self.next_nft_ids.set(c, nft_id + 1);
        proof {
            let s = self.nfts@;
            assert forall|i: int| 0 <= i < s.len() implies {
                let r = #[trigger] s[i];
                &&& self.collection(r.collection_id) is Some
                &&& r.nft_id < self.next_nft_ids@[r.collection_id as int]
            } by {
                if i < s.len() - 1 {
                    assert(s[i] == old(self).nfts@[i]);
                    assert(old(self).collection(s[i].collection_id) is Some);
                }
            }
            assert forall|k: CollectionId| k < self.collections@.len() implies #[trigger] self.nfts_count(k)
                <= self.next_nft_ids@[k as int] by {
                assert(old(self).nfts_count(k) <= old(self).next_nft_ids@[k as int]);
            }
            assert forall|k: CollectionId| #[trigger] self.collection(k) is Some implies match self.collection(k)->0.max {
                Some(m) => self.nfts_count(k) <= m,
                None => true,
            } by {
                assert(old(self).collection(k) is Some);
            }
            assert(self.nfts@.drop_last() =~= old(self).nfts@);
        }
        Ok(())
    }

    /// Mints an NFT owned by the account `owner`.
    pub fn mint_nft(
        &mut self,
        caller: AccountId,
        owner: AccountId,
        collection_id: CollectionId,
        royalty_recipient: Option<AccountId>,
        royalty: Option<u8>,
        metadata: Vec<u8>,
        transferable: bool,
        resources: Option<ResourceSpec>,
    ) -> (r: Result<(), RmrkError>)
        requires
            old(self).wf(),
        ensures
            final(self).wf(),
            r is Ok <==> old(self).mint_allowed(caller, collection_id, royalty),
            r is Err ==> r == Err::<(), RmrkError>(failed()) && *final(self) == *old(self),
            r is Ok ==> RmrkEngine::minted(
                old(self),
                final(self),
                AccountIdOrCollectionNftTuple::AccountId(owner),
                collection_id,
                royalty_recipient,
                royalty,
                metadata@,
                transferable,
                resources,
            ),
    {
        self.mint(
            caller,
            AccountIdOrCollectionNftTuple::AccountId(owner),
            collection_id,
            royalty_recipient,
            royalty,
            metadata,
            transferable,
            resources,
        )
    }

    /// Mints an NFT nested inside the existing NFT `owner`.
    pub fn mint_nft_directly_to_nft(
        &mut self,
        caller: AccountId,
        owner: (CollectionId, NftId),
        collection_id: CollectionId,
        royalty_recipient: Option<AccountId>,
        royalty: Option<u8>,
        metadata: Vec<u8>,
        transferable: bool,
        resources: Option<ResourceSpec>,
    ) -> (r: Result<(), RmrkError>)
        requires
            old(self).wf(),
        ensures
            final(self).wf(),
            r is Ok <==> old(self).mint_allowed(caller, collection_id, royalty)
                && old(self).owners().contains_key(owner),
            r is Err ==> r == Err::<(), RmrkError>(failed()) && *final(self) == *old(self),
            r is Ok ==> RmrkEngine::minted(
                old(self),
                final(self),
                AccountIdOrCollectionNftTuple::CollectionAndNftTuple(owner.0, owner.1),
                collection_id,
                royalty_recipient,
                royalty,
                metadata@,
                transferable,
                resources,
            ),
    {
        self.mint(
            caller,
            AccountIdOrCollectionNftTuple::CollectionAndNftTuple(owner.0, owner.1),
            collection_id,
            royalty_recipient,
            royalty,
            metadata,
            transferable,
            resources,
        )
    }
}

impl RmrkEngine {
    /// Marks the records that are the NFT at position `x` or nested inside it.
    fn subtree_marks(&self, x: usize) -> (marks: Vec<bool>)
        requires
            self.wf(),
            x < self.nfts@.len(),
        ensures
            marks@.len() == self.nfts@.len(),
            forall|i: int|
                0 <= i < self.nfts@.len() ==> (marks@[i] <==> is_descendant(
                    self.owners(),
                    key_of(#[trigger] self.nfts@[i]),
                    key_of(self.nfts@[x as int]),
                )),
    {
        let ghost s = self.nfts@;
        let ghost m = self.owners();
        let ghost kx = key_of(s[x as int]);
        let n = self.nfts.len();
        let mut marks: Vec<bool> = Vec::new();
        let mut i: usize = 0;
        while i < n
            invariant
                n == s.len(),
                0 <= i <= n,
                marks@.len() == i,
                forall|j: int| 0 <= j < i ==> !marks@[j],
            decreases n - i,
        {
            marks.push(false);
            i = i + 1;
        }
        proof {
            assert(count_true(marks@) == 0) by {
                assert forall|j: int| 0 <= j < marks@.len() implies !marks@[j] by {}
                lemma_count_true_zero(marks@);
            }
            lemma_count_true_set(marks@, x as int);
            assert(crate::graph::ancestor(m, kx, 0) == Some(kx));
        }
        marks.set(x, true);
        let mut count: usize = 1;
        loop
            invariant
                self.wf(),
                s == self.nfts@,
                m == self.owners(),
                kx == key_of(s[x as int]),
                n == s.len(),
                x < n,
                marks@.len() == n,
                marks@[x as int],
                count == count_true(marks@),
                forall|j: int| 0 <= j < n && #[trigger] marks@[j] ==> is_descendant(m, key_of(s[j]), kx),
            ensures
                marks_closed(s, marks@),
            decreases n - count,
        {
            proof {
                lemma_count_true_le(marks@);
            }
            let mut changed = false;
            let mut i: usize = 0;
            let ghost start = count;
            while i < n
                invariant
                    self.wf(),
                    s == self.nfts@,
                    m == self.owners(),
                    kx == key_of(s[x as int]),
                    n == s.len(),
                    x < n,
                    0 <= i <= n,
                    marks@.len() == n,
                    marks@[x as int],
                    count == count_true(marks@),
                    count <= n,
                    changed ==> count > start,
                    !changed ==> count == start,
                    forall|j: int| 0 <= j < n && #[trigger] marks@[j] ==> is_descendant(m, key_of(s[j]), kx),
                    !changed ==> forall|a: int, b: int|
                        0 <= a < i && 0 <= b < n && #[trigger] marks@[b] && (#[trigger] s[a]).owner
                            == AccountIdOrCollectionNftTuple::CollectionAndNftTuple(
                            s[b].collection_id,
                            s[b].nft_id,
                        ) ==> marks@[a],
                decreases n - i,
            {
                if !marks[i] {
                    match self.nfts[i].owner {
                        AccountIdOrCollectionNftTuple::CollectionAndNftTuple(pc, pn) => {
                            match self.find_nft(pc, pn) {
                                Some(j) => {
                                    if marks[j] {
                                        proof {
                                            lemma_index_of(s, i as int);
                                            assert(crate::graph::ancestor(m, key_of(s[i as int]), 0) == Some(key_of(s[i as int])));
                                            assert(crate::graph::ancestor(m, key_of(s[i as int]), 1) == Some(key_of(s[j as int])));
                                            crate::graph::lemma_subtree_closed(m, key_of(s[i as int]), key_of(s[j as int]), kx, 1);
                                            lemma_count_true_set(marks@, i as int);
                                            lemma_count_true_le(marks@.update(i as int, true));
                                        }
                                        marks.set(i, true);
                                        count = count + 1;
                                        changed = true;
                                    } else {
                                        proof {
                                            assert forall|b: int| 0 <= b < n && #[trigger] marks@[b] implies
                                                s[i as int].owner != AccountIdOrCollectionNftTuple::CollectionAndNftTuple(
                                                s[b].collection_id,
                                                s[b].nft_id,
                                            ) by {
                                                if b != j {
                                                    assert(key_of(s[b]) != key_of(s[j as int]));
                                                }
                                            }
                                        }
                                    }
                                },
                                None => {},
                            }
                        },
                        AccountIdOrCollectionNftTuple::AccountId(_) => {},
                    }
                }
                i = i + 1;
            }
            if !changed {
                break;
            }
        }
        proof {
            assert forall|i: int| 0 <= i < n implies (marks@[i] <==> is_descendant(
                m,
                key_of(#[trigger] s[i]),
                kx,
            )) by {
                if is_descendant(m, key_of(s[i]), kx) {
                    let w = choose|w: nat| crate::graph::ancestor(m, key_of(s[i]), w) == Some(kx);
                    lemma_index_of(s, i);
                    lemma_marks_complete(s, marks@, x as int, key_of(s[i]), w);
                }
            }
        }
        marks
    }
}

impl RmrkEngine {
    /// The stored record of the existing NFT `k`.
    pub open spec fn record(&self, k: NftKey) -> NftRecord {
        self.nfts@[index_of(self.nfts@, k)]
    }

    /// Whether `send` may move `k` to `new_owner`: `k` exists, is
    /// transferable and unlocked, and a new owning NFT exists and is not
    /// `k` or nested inside it.
    pub open spec fn send_allowed(&self, k: NftKey, new_owner: AccountIdOrCollectionNftTuple) -> bool {
        &&& self.owners().contains_key(k)
        &&& self.record(k).transferable
        &&& !self.record(k).locked
        &&& match new_owner {
            AccountIdOrCollectionNftTuple::CollectionAndNftTuple(c, n) => self.owners().contains_key(
                (c, n),
            ) && !is_descendant(self.owners(), (c, n), k),
            AccountIdOrCollectionNftTuple::AccountId(_) => true,
        }
    }

    /// Counts the marked records: the size of the subtree that they mark.
    fn count_marks(&self, marks: &Vec<bool>, x: usize) -> (cnt: usize)
        requires
            self.wf(),
            x < self.nfts@.len(),
            marks@.len() == self.nfts@.len(),
            forall|i: int|
                0 <= i < self.nfts@.len() ==> (marks@[i] <==> is_descendant(
                    self.owners(),
                    key_of(#[trigger] self.nfts@[i]),
                    key_of(self.nfts@[x as int]),
                )),
        ensures
            cnt == subtree(self.owners(), key_of(self.nfts@[x as int])).len(),
            cnt == count_true(marks@),
    {
        let ghost s = self.nfts@;
        let ghost m = self.owners();
        let ghost kx = key_of(s[x as int]);
        let n = self.nfts.len();
        let mut cnt: usize = 0;
        let mut j: usize = 0;
        let ghost mut ks: Seq<NftKey> = Seq::empty();
        while j < n
            invariant
                s == self.nfts@,
                n == s.len(),
                keys_unique(s),
                marks@.len() == n,
                0 <= j <= n,
                cnt == ks.len(),
                cnt <= j,
                cnt == count_true(marks@.subrange(0, j as int)),
                ks.no_duplicates(),
                forall|z: NftKey|
                    ks.contains(z) <==> exists|a: int|
                        0 <= a < j && #[trigger] marks@[a] && key_of(s[a]) == z,
            decreases n - j,
        {
            proof {
                assert(marks@.subrange(0, j + 1).drop_last() =~= marks@.subrange(0, j as int));
            }
            if marks[j] {
                proof {
                    let z = key_of(s[j as int]);
                    if ks.contains(z) {
                        let a = choose|a: int| 0 <= a < j && #[trigger] marks@[a] && key_of(s[a]) == z;
                        assert(false);
                    }
                    assert forall|w: NftKey|
                        ks.push(z).contains(w) <==> exists|a: int|
                            0 <= a < j + 1 && #[trigger] marks@[a] && key_of(s[a]) == w by {
                        if ks.push(z).contains(w) {
                            let q = choose|q: int| 0 <= q < ks.push(z).len() && ks.push(z)[q] == w;
                            if q < ks.len() {
                                assert(ks.contains(w));
                            }
                        }
                        if exists|a: int| 0 <= a < j + 1 && #[trigger] marks@[a] && key_of(s[a]) == w {
                            let a = choose|a: int| 0 <= a < j + 1 && #[trigger] marks@[a] && key_of(s[a]) == w;
                            if a < j {
                                assert(ks.contains(w));
                                let q = choose|q: int| 0 <= q < ks.len() && ks[q] == w;
                                assert(ks.push(z)[q] == w);
                            } else {
                                assert(ks.push(z)[ks.len() as int] == w);
                            }
                        }
                    }
                    ks = ks.push(z);
                }
                cnt = cnt + 1;
            } else {
                proof {
                    assert forall|w: NftKey|
                        ks.contains(w) <==> exists|a: int|
                            0 <= a < j + 1 && #[trigger] marks@[a] && key_of(s[a]) == w by {
                        if exists|a: int| 0 <= a < j + 1 && #[trigger] marks@[a] && key_of(s[a]) == w {
                            let a = choose|a: int| 0 <= a < j + 1 && #[trigger] marks@[a] && key_of(s[a]) == w;
                            assert(a < j);
                        }
                    }
                }
            }
            j = j + 1;
        }
        proof {
            assert(marks@.subrange(0, n as int) =~= marks@);
            let d = subtree(m, kx);
            assert forall|z: NftKey| ks.to_set().contains(z) <==> d.contains(z) by {
                if d.contains(z) {
                    let a = choose|a: int| 0 <= a < s.len() && key_of(#[trigger] s[a]) == z;
                    assert(marks@[a]);
                }
                if ks.contains(z) {
                    let a = choose|a: int| 0 <= a < n && #[trigger] marks@[a] && key_of(s[a]) == z;
                    lemma_index_of(s, a);
                }
            }
            assert(ks.to_set() =~= d);
            ks.unique_seq_to_set();
        }
        cnt
    }

    /// Removes the marked records, the subtree of the record at `x`.
    fn remove_marked(&mut self, marks: &Vec<bool>, x: usize)
        requires
            old(self).wf(),
            x < old(self).nfts@.len(),
            marks@.len() == old(self).nfts@.len(),
            forall|i: int|
                0 <= i < old(self).nfts@.len() ==> (marks@[i] <==> is_descendant(
                    old(self).owners(),
                    key_of(#[trigger] old(self).nfts@[i]),
                    key_of(old(self).nfts@[x as int]),
                )),
        ensures
            final(self).wf(),
            final(self).owners() == old(self).owners().remove_keys(
                subtree(old(self).owners(), key_of(old(self).nfts@[x as int])),
            ),
            final(self).nfts@.len() == old(self).nfts@.len() - count_true(marks@),
            forall|k: NftKey|
                #[trigger] final(self).owners().contains_key(k) ==> final(self).record(k)
                    == old(self).record(k),
            forall|c: CollectionId|
                #[trigger] final(self).nfts_count(c) == old(self).nfts_count(c) - collection_keys(
                    subtree(old(self).owners(), key_of(old(self).nfts@[x as int])),
                    c,
                ).len(),
            final(self).collections == old(self).collections,
            final(self).next_nft_ids == old(self).next_nft_ids,
    {
        let ghost s = self.nfts@;
        let ghost m = self.owners();
        let ghost kx = key_of(s[x as int]);
        let n = self.nfts.len();
        proof {
            assert(marks@.subrange(0, n as int) =~= marks@);
        }
        let ghost total = count_true(marks@);
        let ghost mut removed: nat = 0;
        let ghost mut idx: Seq<int> = Seq::empty();
        let mut kept: Vec<NftRecord> = Vec::new();
        while self.nfts.len() > 0
            invariant
                self.nfts@ == s.subrange(0, self.nfts@.len() as int),
                self.collections == old(self).collections,
                self.next_nft_ids == old(self).next_nft_ids,
                s == old(self).nfts@,
                n == s.len(),
                marks@.len() == n,
                kept_from(s, marks@, kept@, idx, self.nfts@.len() as int),
                forall|c: CollectionId|
                    count_in(self.nfts@, c) + #[trigger] count_in(kept@, c) <= count_in(s, c),
                kept@.len() + removed == n - self.nfts@.len(),
                removed + count_true(marks@.subrange(0, self.nfts@.len() as int)) == total,
            decreases self.nfts@.len(),
        {
            let ghost len = self.nfts@.len() as int;
            let ghost before = self.nfts@;
            proof {
                assert(marks@.subrange(0, len).drop_last() =~= marks@.subrange(0, len - 1));
                assert(before.drop_last() =~= s.subrange(0, len - 1));
            }
            if let Some(r) = self.nfts.pop() {
                let i = self.nfts.len();
                proof {
                    assert(r == s[len - 1]);
                    assert forall|c: CollectionId| true implies count_in(before, c) == count_in(self.nfts@, c) + if r.collection_id == c {
                        1nat
                    } else {
                        0nat
                    } by {}
                }
                if !marks[i] {
                    proof {
                        lemma_kept_push(s, marks@, kept@, idx, len);
                        assert forall|c: CollectionId| true implies count_in(kept@.push(r), c) == count_in(kept@, c) + if r.collection_id == c {
                            1nat
                        } else {
                            0nat
                        } by {
                            lemma_count_push(kept@, r, c);
                        }
                        idx = idx.push(len - 1);
                    }
                    kept.push(r);
                } else {
                    proof {
                        removed = removed + 1;
                        lemma_kept_skip(s, marks@, kept@, idx, len);
                    }
                }
            }
        }
        proof {
            assert(marks@.subrange(0, 0) =~= Seq::<bool>::empty());
            lemma_kept_map(s, marks@, kept@, idx, x as int);
            lemma_remove_subtree(m, kx);
            assert forall|c: CollectionId| true implies count_in(kept@, c) == count_in(s, c)
                - collection_keys(subtree(m, kx), c).len() by {
                lemma_count_after_removal(s, kept@, subtree(m, kx), c);
            }
        }
        self.nfts = kept;
        proof {
            let k2 = self.nfts@;
            assert forall|q: int| 0 <= q < k2.len() implies {
                let r = #[trigger] k2[q];
                &&& self.collection(r.collection_id) is Some
                &&& r.nft_id < self.next_nft_ids@[r.collection_id as int]
            } by {
                assert(k2[q] == s[idx[q]]);
                assert(old(self).collection(s[idx[q]].collection_id) is Some);
            }
            assert forall|c: CollectionId| c < self.collections@.len() implies #[trigger] self.nfts_count(c)
                <= self.next_nft_ids@[c as int] by {
                assert(count_in(k2, c) <= count_in(s, c));
                assert(old(self).nfts_count(c) <= old(self).next_nft_ids@[c as int]);
            }
            assert forall|c: CollectionId| #[trigger] self.collection(c) is Some implies match self.collection(c)->0.max {
                Some(mx) => self.nfts_count(c) <= mx,
                None => true,
            } by {
                assert(count_in(k2, c) <= count_in(s, c));
                assert(old(self).collection(c) is Some);
            }
        }
    }

    /// No NFT of the subtree of `k` is locked.
    pub open spec fn subtree_unlocked(&self, k: NftKey) -> bool {
        forall|z: NftKey| #[trigger] subtree(self.owners(), k).contains(z) ==> !self.record(z).locked
    }

    /// Whether some marked record is locked.
    fn any_marked_locked(&self, marks: &Vec<bool>) -> (r: bool)
        requires
            marks@.len() == self.nfts@.len(),
        ensures
            r == exists|i: int| 0 <= i < self.nfts@.len() && marks@[i] && #[trigger] self.nfts@[i].locked,
    {
        let mut i: usize = 0;
        while i < self.nfts.len()
            invariant
                marks@.len() == self.nfts@.len(),
                0 <= i <= self.nfts@.len(),
                forall|j: int| 0 <= j < i ==> !(marks@[j] && #[trigger] self.nfts@[j].locked),
            decreases self.nfts@.len() - i,
        {
            if marks[i] && self.nfts[i].locked {
                return true;
            }
            i = i + 1;
        }
        false
    }

    /// Burns the NFT `(collection_id, nft_id)` together with every NFT
    /// nested inside it, one unit of `max_burns` per NFT. Fails, changing
    /// nothing, when the NFT is missing, when it or any NFT nested inside it
    /// is locked, or when the budget is smaller than the number of NFTs to
    /// burn.
    pub fn burn_nft(&mut self, collection_id: CollectionId, nft_id: NftId, max_burns: u32) -> (r:
        Result<(), RmrkError>)
        requires
            old(self).wf(),
        ensures
            final(self).wf(),
            r is Ok <==> {
                let k = (collection_id, nft_id);
                &&& old(self).owners().contains_key(k)
                &&& old(self).subtree_unlocked(k)
                &&& subtree(old(self).owners(), k).len() <= max_burns
            },
            r is Err ==> r == Err::<(), RmrkError>(failed()) && *final(self) == *old(self),
            r is Ok ==> {
                let d = subtree(old(self).owners(), (collection_id, nft_id));
                &&& final(self).owners() == old(self).owners().remove_keys(d)
                &&& final(self).nfts@.len() == old(self).nfts@.len() - d.len()
                &&& forall|k: NftKey|
                    #[trigger] final(self).owners().contains_key(k) ==> final(self).record(k)
                        == old(self).record(k)
                &&& forall|c: CollectionId|
                    #[trigger] final(self).nfts_count(c) == old(self).nfts_count(c)
                        - collection_keys(d, c).len()
                &&& final(self).collections == old(self).collections
                &&& final(self).next_nft_ids == old(self).next_nft_ids
            },
    {
        let x = match self.find_nft(collection_id, nft_id) {
            Some(x) => x,
            None => {
                return Err(RmrkError::ErrorCode(RmrkErrorCode::Failed));
            },
        };
        proof {
            lemma_index_of(self.nfts@, x as int);
        }
        let marks = self.subtree_marks(x);
        if self.any_marked_locked(&marks) {
            proof {
                let s = self.nfts@;
                let i = choose|i: int| 0 <= i < s.len() && marks@[i] && #[trigger] s[i].locked;
                lemma_index_of(s, i);
                assert(subtree(self.owners(), (collection_id, nft_id)).contains(key_of(s[i])));
            }
            return Err(RmrkError::ErrorCode(RmrkErrorCode::Failed));
        }
        proof {
            let s = self.nfts@;
            let kx = (collection_id, nft_id);
            assert forall|z: NftKey| subtree(self.owners(), kx).contains(z) implies !self.record(z).locked by {
                let i = index_of(s, z);
                lemma_index_of(s, i);
                assert(marks@[i]);
            }
        }
        let cnt = self.count_marks(&marks, x);
        if cnt > max_burns as usize {
            return Err(RmrkError::ErrorCode(RmrkErrorCode::Failed));
        }
        self.remove_marked(&marks, x);
        Ok(())
    }

    /// Moves the NFT `(collection_id, nft_id)` to `new_owner`. Fails,
    /// changing nothing, unless `send_allowed` holds.
    pub fn send(
        &mut self,
        collection_id: CollectionId,
        nft_id: NftId,
        new_owner: AccountIdOrCollectionNftTuple,
    ) -> (r: Result<(), RmrkError>)
        requires
            old(self).wf(),
        ensures
            final(self).wf(),
            r is Ok <==> old(self).send_allowed((collection_id, nft_id), new_owner),
            r is Err ==> r == Err::<(), RmrkError>(failed()) && *final(self) == *old(self),
            r is Ok ==> {
                let i = index_of(old(self).nfts@, (collection_id, nft_id));
                &&& final(self).owners() == old(self).owners().insert((collection_id, nft_id), new_owner)
                &&& final(self).nfts@.len() == old(self).nfts@.len()
                &&& final(self).nfts@[i].owner == new_owner
                &&& same_but_owner(final(self).nfts@[i], old(self).nfts@[i])
                &&& forall|j: int| 0 <= j < old(self).nfts@.len() && j != i ==> final(self).nfts@[j] == old(self).nfts@[j]
                &&& final(self).collections == old(self).collections
                &&& final(self).next_nft_ids == old(self).next_nft_ids
            },
    {
        let x = match self.find_nft(collection_id, nft_id) {
            Some(x) => x,
            None => {
                return Err(RmrkError::ErrorCode(RmrkErrorCode::Failed));
            },
        };
        proof {
            lemma_index_of(self.nfts@, x as int);
        }
        if !self.nfts[x].transferable || self.nfts[x].locked {
            return Err(RmrkError::ErrorCode(RmrkErrorCode::Failed));
        }
        match new_owner {
            AccountIdOrCollectionNftTuple::CollectionAndNftTuple(c, n) => {
                let j = match self.find_nft(c, n) {
                    Some(j) => j,
                    None => {
                        return Err(RmrkError::ErrorCode(RmrkErrorCode::Failed));
                    },
                };
                let marks = self.subtree_marks(x);
                if marks[j] {
                    return Err(RmrkError::ErrorCode(RmrkErrorCode::Failed));
                }
            },
            AccountIdOrCollectionNftTuple::AccountId(_) => {},
        }
        let ghost s = self.nfts@;
        let mut rec = self.nfts.remove(x);
        rec.owner = new_owner;
        self.nfts.insert(x, rec);
        proof {
            let s2 = self.nfts@;
            assert(s2 =~= s.update(x as int, rec));
            lemma_owner_map_update(s, x as int, rec);
            lemma_reparent(owner_map(s), key_of(s[x as int]), new_owner);
            assert forall|c: CollectionId| true implies count_in(s2, c) == count_in(s, c) by {
                lemma_count_update(s, x as int, rec, c);
            }
            assert forall|q: int| 0 <= q < s2.len() implies {
                let r = #[trigger] s2[q];
                &&& self.collection(r.collection_id) is Some
                &&& r.nft_id < self.next_nft_ids@[r.collection_id as int]
            } by {
                assert(old(self).collection(s[q].collection_id) is Some);
            }
            assert forall|c: CollectionId| c < self.collections@.len() implies #[trigger] self.nfts_count(c)
                <= self.next_nft_ids@[c as int] by {
                assert(old(self).nfts_count(c) <= old(self).next_nft_ids@[c as int]);
            }
            assert forall|c: CollectionId| #[trigger] self.collection(c) is Some implies match self.collection(c)->0.max {
                Some(mx) => self.nfts_count(c) <= mx,
                None => true,
            } by {
                assert(old(self).collection(c) is Some);
            }
        }
        Ok(())
    }
}

impl RmrkEngine {
    /// The NFT `k` exists and holds a resource with id `rid`.
    pub open spec fn has_resource_at(&self, k: NftKey, rid: ResourceId) -> bool {
        self.owners().contains_key(k) && has_resource(self.record(k).resources@, rid)
    }

    /// The resource `rid` of NFT `k`.
    pub open spec fn resource_at(&self, k: NftKey, rid: ResourceId) -> ResourceInfo {
        resource_in(self.record(k).resources@, rid)
    }

    /// The position of the first resource with id `rid` of the record at `i`.
    fn find_resource(&self, i: usize, rid: ResourceId) -> (r: Option<usize>)
        requires
            i < self.nfts@.len(),
        ensures
            match r {
                Some(j) => is_first_resource(self.nfts@[i as int].resources@, rid, j as int),
                None => !has_resource(self.nfts@[i as int].resources@, rid),
            },
    {
        let rs = &self.nfts[i].resources;
        let mut j: usize = 0;
        while j < rs.len()
            invariant
                i < self.nfts@.len(),
                rs@ == self.nfts@[i as int].resources@,
                0 <= j <= rs@.len(),
                forall|a: int| 0 <= a < j ==> (#[trigger] rs@[a]).id != rid,
            decreases rs@.len() - j,
        {
            if rs[j].id == rid {
                return Some(j);
            }
            j = j + 1;
        }
        None
    }

    /// Finds NFT `(c, n)` and its resource `rid`.
    fn locate_resource(&self, c: CollectionId, n: NftId, rid: ResourceId) -> (r: Option<(usize, usize)>)
        requires
            self.wf(),
        ensures
            r is Some <==> self.has_resource_at((c, n), rid),
            match r {
                Some((i, j)) => {
                    &&& i < self.nfts@.len()
                    &&& index_of(self.nfts@, (c, n)) == i
                    &&& is_first_resource(self.nfts@[i as int].resources@, rid, j as int)
                    &&& self.resource_at((c, n), rid) == self.nfts@[i as int].resources@[j as int]
                },
                None => true,
            },
    {
        match self.find_nft(c, n) {
            Some(i) => {
                proof {
                    lemma_index_of(self.nfts@, i as int);
                }
                match self.find_resource(i, rid) {
                    Some(j) => {
                        proof {
                            lemma_first_resource_unique(self.nfts@[i as int].resources@, rid, j as int);
                        }
                        Some((i, j))
                    },
                    None => None,
                }
            },
            None => None,
        }
    }

    /// The id that the next NFT of collection `collection_id` gets; 0 for a
    /// collection id never issued.
    pub fn next_nft_id(&self, collection_id: CollectionId) -> (r: NftId)
        requires
            self.wf(),
        ensures
            r == if collection_id < self.next_nft_ids@.len() {
                self.next_nft_ids@[collection_id as int]
            } else {
                0
            },
    {
        if (collection_id as usize) < self.next_nft_ids.len() {
            self.next_nft_ids[collection_id as usize]
        } else {
            0
        }
    }

    /// The id that the next collection gets.
    pub fn collection_index(&self) -> (r: CollectionId)
        requires
            self.wf(),
        ensures
            r == self.collections@.len(),
    {
        self.collections.len() as u32
    }

    /// The id that the next resource of NFT `(collection_id, nft_id)` gets;
    /// 0 when the NFT does not exist.
    pub fn next_resource_id(&self, collection_id: CollectionId, nft_id: NftId) -> (r: ResourceId)
        requires
            self.wf(),
        ensures
            r == if self.owners().contains_key((collection_id, nft_id)) {
                self.record((collection_id, nft_id)).next_resource_id
            } else {
                0
            },
    {
        match self.find_nft(collection_id, nft_id) {
            Some(i) => {
                proof {
                    lemma_index_of(self.nfts@, i as int);
                }
                self.nfts[i].next_resource_id
            },
            None => 0,
        }
    }

    /// The collection `collection_id` with its current NFT count, or `None`
    /// when it does not exist.
    pub fn collections(&self, collection_id: CollectionId) -> (r: Result<Option<CollectionInfo>, RmrkError>)
        requires
            self.wf(),
        ensures
            r is Ok,
            (r->Ok_0 is Some) == (self.collection(collection_id) is Some),
            r->Ok_0 is Some ==> {
                let got = r->Ok_0->Some_0;
                let info = self.collection(collection_id)->0;
                &&& got.issuer == info.issuer
                &&& got.metadata@ == info.metadata@
                &&& got.max == info.max
                &&& got.symbol@ == info.symbol@
                &&& got.nfts_count == self.nfts_count(collection_id)
            },
    {
        let c = collection_id as usize;
        if c >= self.collections.len() {
            return Ok(None);
        }
        match &self.collections[c] {
            Some(info) => {
                let mut got = info.duplicate();
                got.nfts_count = self.count_nfts(collection_id);
                Ok(Some(got))
            },
            None => Ok(None),
        }
    }

    /// The priority of resource `resource_id` of the NFT; 0 when there is no
    /// such resource.
    pub fn priorities(&self, collection_id: CollectionId, nft_id: NftId, resource_id: ResourceId) -> (r: u32)
        requires
            self.wf(),
        ensures
            r == if self.has_resource_at((collection_id, nft_id), resource_id) {
                self.resource_at((collection_id, nft_id), resource_id).priority
            } else {
                0
            },
    {
        match self.locate_resource(collection_id, nft_id, resource_id) {
            Some((i, j)) => self.nfts[i].resources[j].priority,
            None => 0,
        }
    }

    /// The resource `resource_id` of the NFT.
    pub fn resources(&self, collection_id: CollectionId, nft_id: NftId, resource_id: ResourceId) -> (r: Result<ResourceInfo, RmrkError>)
        requires
            self.wf(),
        ensures
            r is Ok <==> self.has_resource_at((collection_id, nft_id), resource_id),
            r is Err ==> r == Err::<ResourceInfo, RmrkError>(failed()),
            r is Ok ==> {
                let got = r->Ok_0;
                let res = self.resource_at((collection_id, nft_id), resource_id);
                &&& got.id == res.id
                &&& got.priority == res.priority
                &&& got.metadata@ == res.metadata@
                &&& got.properties@ == res.properties@
                &&& got.equip == res.equip
            },
    {
        match self.locate_resource(collection_id, nft_id, resource_id) {
            Some((i, j)) => Ok(self.nfts[i].resources[j].duplicate()),
            None => Err(RmrkError::ErrorCode(RmrkErrorCode::Failed)),
        }
    }

    /// The properties of resource `resource_id` of the NFT.
    pub fn properties(&self, collection_id: CollectionId, nft_id: NftId, resource_id: ResourceId) -> (r: Result<Vec<u8>, RmrkError>)
        requires
            self.wf(),
        ensures
            r is Ok <==> self.has_resource_at((collection_id, nft_id), resource_id),
            r is Err ==> r == Err::<Vec<u8>, RmrkError>(failed()),
            r is Ok ==> r->Ok_0@ == self.resource_at((collection_id, nft_id), resource_id).properties@,
    {
        match self.locate_resource(collection_id, nft_id, resource_id) {
            Some((i, j)) => Ok(self.nfts[i].resources[j].properties.clone()),
            None => Err(RmrkError::ErrorCode(RmrkErrorCode::Failed)),
        }
    }

    /// Succeeds when some resource of the NFT can be equipped into a slot of
    /// base `base_id`.
    pub fn equippable_bases(&self, collection_id: CollectionId, nft_id: NftId, base_id: BaseId) -> (r: Result<(), RmrkError>)
        requires
            self.wf(),
        ensures
            r is Ok <==> {
                let k = (collection_id, nft_id);
                &&& self.owners().contains_key(k)
                &&& binds_base(self.record(k).resources@, base_id)
            },
            r is Err ==> r == Err::<(), RmrkError>(failed()),
    {
        let i = match self.find_nft(collection_id, nft_id) {
            Some(i) => i,
            None => {
                return Err(RmrkError::ErrorCode(RmrkErrorCode::Failed));
            },
        };
        proof {
            lemma_index_of(self.nfts@, i as int);
        }
        let rs = &self.nfts[i].resources;
        let mut j: usize = 0;
        while j < rs.len()
            invariant
                i < self.nfts@.len(),
                index_of(self.nfts@, (collection_id, nft_id)) == i,
                self.owners().contains_key((collection_id, nft_id)),
                rs@ == self.nfts@[i as int].resources@,
                0 <= j <= rs@.len(),
                forall|a: int| 0 <= a < j ==> match (#[trigger] rs@[a]).equip {
                    Some((b, _)) => b != base_id,
                    None => true,
                },
            decreases rs@.len() - j,
        {
            match rs[j].equip {
                Some((b, _)) => {
                    if b == base_id {
                        proof {
                            assert(rs@[j as int].equip is Some && (rs@[j as int].equip->0).0 == b);
                            assert(binds_base(rs@, base_id));
                        }
                        return Ok(());
                    }
                },
                None => {},
            }
            j = j + 1;
        }
        Err(RmrkError::ErrorCode(RmrkErrorCode::Failed))
    }

    /// Succeeds exactly when resource `resource_id` of the NFT is bound to
    /// slot `slot_id` of base `base_id`.
    pub fn equippable_slots(
        &self,
        collection_id: CollectionId,
        nft_id: NftId,
        resource_id: ResourceId,
        base_id: BaseId,
        slot_id: SlotId,
    ) -> (r: Result<(), RmrkError>)
        requires
            self.wf(),
        ensures
            r is Ok <==> self.has_resource_at((collection_id, nft_id), resource_id)
                && self.resource_at((collection_id, nft_id), resource_id).equip == Some(
                (base_id, slot_id),
            ),
            r is Err ==> r == Err::<(), RmrkError>(failed()),
    {
        match self.locate_resource(collection_id, nft_id, resource_id) {
            Some((i, j)) => match self.nfts[i].resources[j].equip {
                Some((b, sl)) => {
                    if b == base_id && sl == slot_id {
                        Ok(())
                    } else {
                        Err(RmrkError::ErrorCode(RmrkErrorCode::Failed))
                    }
                },
                None => Err(RmrkError::ErrorCode(RmrkErrorCode::Failed)),
            },
            None => Err(RmrkError::ErrorCode(RmrkErrorCode::Failed)),
        }
    }

    /// Whether the NFT is locked.
    pub fn lock(&self, collection_id: CollectionId, nft_id: NftId) -> (r: Result<bool, RmrkError>)
        requires
            self.wf(),
        ensures
            r is Ok <==> self.owners().contains_key((collection_id, nft_id)),
            r is Err ==> r == Err::<bool, RmrkError>(failed()),
            r is Ok ==> r->Ok_0 == self.record((collection_id, nft_id)).locked,
    {
        match self.find_nft(collection_id, nft_id) {
            Some(i) => {
                proof {
                    lemma_index_of(self.nfts@, i as int);
                }
                Ok(self.nfts[i].locked)
            },
            None => Err(RmrkError::ErrorCode(RmrkErrorCode::Failed)),
        }
    }

    /// Locks or unlocks the NFT. Only the issuer of its collection may.
    pub fn set_lock(&mut self, caller: AccountId, collection_id: CollectionId, nft_id: NftId, locked: bool) -> (r: Result<(), RmrkError>)
        requires
            old(self).wf(),
        ensures
            final(self).wf(),
            r is Ok <==> old(self).owners().contains_key((collection_id, nft_id)) && same_account(
                old(self).collection(collection_id)->0.issuer,
                caller,
            ),
            r is Err ==> r == Err::<(), RmrkError>(failed()) && *final(self) == *old(self),
            r is Ok ==> {
                let i = index_of(old(self).nfts@, (collection_id, nft_id));
                &&& final(self).nfts@.len() == old(self).nfts@.len()
                &&& final(self).nfts@[i].locked == locked
                &&& same_but_lock(final(self).nfts@[i], old(self).nfts@[i])
                &&& forall|j: int| 0 <= j < old(self).nfts@.len() && j != i ==> final(self).nfts@[j] == old(self).nfts@[j]
                &&& final(self).owners() == old(self).owners()
                &&& final(self).collections == old(self).collections
                &&& final(self).next_nft_ids == old(self).next_nft_ids
            },
    {
        let x = match self.find_nft(collection_id, nft_id) {
            Some(x) => x,
            None => {
                return Err(RmrkError::ErrorCode(RmrkErrorCode::Failed));
            },
        };
        proof {
            lemma_index_of(self.nfts@, x as int);
            assert(self.collection(self.nfts@[x as int].collection_id) is Some);
        }
        let allowed = match &self.collections[collection_id as usize] {
            Some(info) => info.issuer == caller,
            None => false,
        };
        if !allowed {
            return Err(RmrkError::ErrorCode(RmrkErrorCode::Failed));
        }
        let ghost s = self.nfts@;
        let mut rec = self.nfts.remove(x);
        rec.locked = locked;
        self.nfts.insert(x, rec);
        proof {
            let s2 = self.nfts@;
            assert(s2 =~= s.update(x as int, rec));
            lemma_owner_map_update(s, x as int, rec);
            assert(owner_map(s).insert(key_of(rec), rec.owner) =~= owner_map(s));
            assert forall|c: CollectionId| true implies count_in(s2, c) == count_in(s, c) by {
                lemma_count_update(s, x as int, rec, c);
            }
            assert forall|q: int| 0 <= q < s2.len() implies {
                let r = #[trigger] s2[q];
                &&& self.collection(r.collection_id) is Some
                &&& r.nft_id < self.next_nft_ids@[r.collection_id as int]
            } by {
                assert(old(self).collection(s[q].collection_id) is Some);
            }
            assert forall|c: CollectionId| c < self.collections@.len() implies #[trigger] self.nfts_count(c)
                <= self.next_nft_ids@[c as int] by {
                assert(old(self).nfts_count(c) <= old(self).next_nft_ids@[c as int]);
            }
            assert forall|c: CollectionId| #[trigger] self.collection(c) is Some implies match self.collection(c)->0.max {
                Some(mx) => self.nfts_count(c) <= mx,
                None => true,
            } by {
                assert(old(self).collection(c) is Some);
            }
        }
        Ok(())
    }
}

/// No capped collection ever holds more NFTs than its cap: this holds of
/// every well-formed engine, and every operation keeps the engine
/// well-formed.
pub proof fn lemma_counts_within_caps(e: &RmrkEngine, c: CollectionId)
    requires
        e.wf(),
        e.collection(c) is Some,
        e.collection(c)->0.max is Some,
    ensures
        e.nfts_count(c) <= e.collection(c)->0.max->0,
{
}

/// Following the ownership relation from an NFT one or more times never
/// comes back to that NFT, in every well-formed engine.
pub proof fn lemma_no_ownership_cycles(e: &RmrkEngine, k: NftKey, n: nat)
    requires
        e.wf(),
        e.owners().contains_key(k),
        n >= 1,
    ensures
        crate::graph::ancestor(e.owners(), k, n) != Some(k),
{
    crate::graph::lemma_never_revisits(e.owners(), k, n);
}

/// An NFT that is not transferable can never be sent.
pub proof fn lemma_non_transferable_never_sent(
    e: &RmrkEngine,
    k: NftKey,
    new_owner: AccountIdOrCollectionNftTuple,
)
    requires
        e.owners().contains_key(k),
        !e.record(k).transferable,
    ensures
        !e.send_allowed(k, new_owner),
{
}

} // verus!
