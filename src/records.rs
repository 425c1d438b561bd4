use vstd::prelude::*;

use crate::graph::{collection_keys, is_descendant, is_forest, subtree, NftKey, OwnerMap};
use crate::types::{
    AccountId, AccountIdOrCollectionNftTuple, BaseId, CollectionId, NftId, ResourceId,
    ResourceInfo,
};

verus! {

/// An NFT as the engine stores it.
#[derive(Debug)]
pub struct NftRecord {
    pub collection_id: CollectionId,
    pub nft_id: NftId,
    pub owner: AccountIdOrCollectionNftTuple,
    pub royalty_recipient: Option<AccountId>,
    pub royalty: Option<u8>,
    pub metadata: Vec<u8>,
    pub transferable: bool,
    pub locked: bool,
    pub resources: Vec<ResourceInfo>,
    pub next_resource_id: ResourceId,
}

pub open spec fn key_of(r: NftRecord) -> NftKey {
    (r.collection_id, r.nft_id)
}

pub open spec fn keys_unique(s: Seq<NftRecord>) -> bool {
    forall|i: int, j: int|
        0 <= i < s.len() && 0 <= j < s.len() && i != j ==> key_of(#[trigger] s[i]) != key_of(
            #[trigger] s[j],
        )
}

pub open spec fn has_key(s: Seq<NftRecord>, k: NftKey) -> bool {
    exists|i: int| 0 <= i < s.len() && key_of(#[trigger] s[i]) == k
}

/// The position of the NFT with key `k`.
pub open spec fn index_of(s: Seq<NftRecord>, k: NftKey) -> int {
    choose|i: int| 0 <= i < s.len() && key_of(#[trigger] s[i]) == k
}

/// The ownership relation of a sequence of NFT records.
pub open spec fn owner_map(s: Seq<NftRecord>) -> OwnerMap {
    Map::new(|k: NftKey| has_key(s, k), |k: NftKey| s[index_of(s, k)].owner)
}

/// The number of NFTs of collection `c`.
pub open spec fn count_in(s: Seq<NftRecord>, c: CollectionId) -> nat
    decreases s.len(),
{
    if s.len() == 0 {
        0
    } else {
        count_in(s.drop_last(), c) + if s.last().collection_id == c {
            1nat
        } else {
            0nat
        }
    }
}

pub open spec fn owner_exists(s: Seq<NftRecord>, o: AccountIdOrCollectionNftTuple) -> bool {
    match o {
        AccountIdOrCollectionNftTuple::CollectionAndNftTuple(c, n) => has_key(s, (c, n)),
        AccountIdOrCollectionNftTuple::AccountId(_) => true,
    }
}

pub proof fn lemma_index_of(s: Seq<NftRecord>, i: int)
    requires
        keys_unique(s),
        0 <= i < s.len(),
    ensures
        index_of(s, key_of(s[i])) == i,
        owner_map(s).contains_key(key_of(s[i])),
        owner_map(s)[key_of(s[i])] == s[i].owner,
{
    assert(has_key(s, key_of(s[i])));
}

pub proof fn lemma_owner_map_push(s: Seq<NftRecord>, r: NftRecord)
    requires
        keys_unique(s),
        !has_key(s, key_of(r)),
    ensures
        keys_unique(s.push(r)),
        owner_map(s.push(r)) == owner_map(s).insert(key_of(r), r.owner),
{
    let s2 = s.push(r);
    assert(s2[s.len() as int] == r);
    assert forall|i: int, j: int|
        0 <= i < s2.len() && 0 <= j < s2.len() && i != j implies key_of(#[trigger] s2[i])
        != key_of(#[trigger] s2[j]) by {
        if i < s.len() && j < s.len() {
            assert(s2[i] == s[i] && s2[j] == s[j]);
        } else if i < s.len() {
            assert(s2[i] == s[i]);
        } else if j < s.len() {
            assert(s2[j] == s[j]);
        }
    }
    let m = owner_map(s).insert(key_of(r), r.owner);
    assert forall|k: NftKey| #[trigger] owner_map(s2).contains_key(k) <==> m.contains_key(k) by {
        if has_key(s, k) {
            let i = choose|i: int| 0 <= i < s.len() && key_of(#[trigger] s[i]) == k;
            assert(s2[i] == s[i]);
        }
        if has_key(s2, k) && k != key_of(r) {
            let i = choose|i: int| 0 <= i < s2.len() && key_of(#[trigger] s2[i]) == k;
            assert(s2[i] == s[i]);
        }
    }
    assert forall|k: NftKey| #[trigger] owner_map(s2).contains_key(k) implies owner_map(s2)[k]
        == m[k] by {
        if k == key_of(r) {
            lemma_index_of(s2, s.len() as int);
        } else {
            let i = index_of(s2, k);
            assert(s2[i] == s[i]);
            lemma_index_of(s2, i);
            lemma_index_of(s, i);
        }
    }
    assert(owner_map(s2) =~= m);
}

pub proof fn lemma_owner_map_update(s: Seq<NftRecord>, i: int, r: NftRecord)
    requires
        keys_unique(s),
        0 <= i < s.len(),
        key_of(r) == key_of(s[i]),
    ensures
        keys_unique(s.update(i, r)),
        owner_map(s.update(i, r)) == owner_map(s).insert(key_of(r), r.owner),
{
    let s2 = s.update(i, r);
    assert forall|a: int, b: int|
        0 <= a < s2.len() && 0 <= b < s2.len() && a != b implies key_of(#[trigger] s2[a])
        != key_of(#[trigger] s2[b]) by {
        assert(key_of(s2[a]) == key_of(s[a]));
        assert(key_of(s2[b]) == key_of(s[b]));
    }
    let m = owner_map(s).insert(key_of(r), r.owner);
    assert forall|k: NftKey| #[trigger] owner_map(s2).contains_key(k) <==> m.contains_key(k) by {
        if has_key(s, k) {
            let j = choose|j: int| 0 <= j < s.len() && key_of(#[trigger] s[j]) == k;
            assert(key_of(s2[j]) == k);
        }
        if has_key(s2, k) {
            let j = choose|j: int| 0 <= j < s2.len() && key_of(#[trigger] s2[j]) == k;
            assert(key_of(s[j]) == k);
        }
    }
    assert forall|k: NftKey| #[trigger] owner_map(s2).contains_key(k) implies owner_map(s2)[k]
        == m[k] by {
        let j = index_of(s2, k);
        lemma_index_of(s2, j);
        assert(key_of(s[j]) == k);
        lemma_index_of(s, j);
    }
    assert(owner_map(s2) =~= m);
}

pub proof fn lemma_count_push(s: Seq<NftRecord>, r: NftRecord, c: CollectionId)
    ensures
        count_in(s.push(r), c) == count_in(s, c) + if r.collection_id == c {
            1nat
        } else {
            0nat
        },
{
    assert(s.push(r).drop_last() =~= s);
}

pub proof fn lemma_count_update(s: Seq<NftRecord>, i: int, r: NftRecord, c: CollectionId)
    requires
        0 <= i < s.len(),
        r.collection_id == s[i].collection_id,
    ensures
        count_in(s.update(i, r), c) == count_in(s, c),
    decreases s.len(),
{
    let s2 = s.update(i, r);
    if i == s.len() - 1 {
        assert(s2.drop_last() =~= s.drop_last());
    } else {
        assert(s2.drop_last() =~= s.drop_last().update(i, r));
        lemma_count_update(s.drop_last(), i, r, c);
    }
}

pub proof fn lemma_count_zero(s: Seq<NftRecord>, c: CollectionId, i: int)
    requires
        count_in(s, c) == 0,
        0 <= i < s.len(),
    ensures
        s[i].collection_id != c,
    decreases s.len(),
{
    if i < s.len() - 1 {
        assert(s.drop_last()[i] == s[i]);
        lemma_count_zero(s.drop_last(), c, i);
    }
}

/// The number of `true` entries.
pub open spec fn count_true(s: Seq<bool>) -> nat
    decreases s.len(),
{
    if s.len() == 0 {
        0
    } else {
        count_true(s.drop_last()) + if s.last() {
            1nat
        } else {
            0nat
        }
    }
}

pub proof fn lemma_count_true_set(s: Seq<bool>, i: int)
    requires
        0 <= i < s.len(),
        !s[i],
    ensures
        count_true(s.update(i, true)) == count_true(s) + 1,
    decreases s.len(),
{
    let s2 = s.update(i, true);
    if i == s.len() - 1 {
        assert(s2.drop_last() =~= s.drop_last());
    } else {
        assert(s2.drop_last() =~= s.drop_last().update(i, true));
        lemma_count_true_set(s.drop_last(), i);
    }
}

pub proof fn lemma_count_true_le(s: Seq<bool>)
    ensures
        count_true(s) <= s.len(),
    decreases s.len(),
{
    if s.len() > 0 {
        lemma_count_true_le(s.drop_last());
    }
}

/// No unmarked record is owned by a marked one.
pub open spec fn marks_closed(s: Seq<NftRecord>, marks: Seq<bool>) -> bool {
    forall|i: int, j: int|
        0 <= i < s.len() && 0 <= j < s.len() && #[trigger] marks[j] && (#[trigger] s[i]).owner
            == AccountIdOrCollectionNftTuple::CollectionAndNftTuple(
            s[j].collection_id,
            s[j].nft_id,
        ) ==> marks[i]
}

pub proof fn lemma_marks_complete(s: Seq<NftRecord>, marks: Seq<bool>, x: int, k: NftKey, n: nat)
    requires
        keys_unique(s),
        is_forest(owner_map(s)),
        marks.len() == s.len(),
        0 <= x < s.len(),
        marks[x],
        marks_closed(s, marks),
        owner_map(s).contains_key(k),
        crate::graph::ancestor(owner_map(s), k, n) == Some(key_of(s[x])),
    ensures
        marks[index_of(s, k)],
    decreases n,
{
    let m = owner_map(s);
    let i = index_of(s, k);
    lemma_index_of(s, i);
    if n == 0 {
        lemma_index_of(s, x);
    } else {
        crate::graph::lemma_compose(m, k, 1, (n - 1) as nat);
        assert(crate::graph::ancestor(m, k, 0) == Some(k));
        let p = crate::graph::parent(m, k)->0;
        assert(m.contains_key(p));
        lemma_marks_complete(s, marks, x, p, (n - 1) as nat);
        let j = index_of(s, p);
        lemma_index_of(s, j);
        assert(s[i].owner == AccountIdOrCollectionNftTuple::CollectionAndNftTuple(
            s[j].collection_id,
            s[j].nft_id,
        ));
    }
}

/// `a` and `b` agree on every field but the owner.
pub open spec fn same_but_owner(a: NftRecord, b: NftRecord) -> bool {
    &&& a.collection_id == b.collection_id
    &&& a.nft_id == b.nft_id
    &&& a.royalty_recipient == b.royalty_recipient
    &&& a.royalty == b.royalty
    &&& a.metadata == b.metadata
    &&& a.transferable == b.transferable
    &&& a.locked == b.locked
    &&& a.resources == b.resources
    &&& a.next_resource_id == b.next_resource_id
}

/// `a` and `b` agree on every field but the lock flag.
pub open spec fn same_but_lock(a: NftRecord, b: NftRecord) -> bool {
    &&& a.collection_id == b.collection_id
    &&& a.nft_id == b.nft_id
    &&& a.owner == b.owner
    &&& a.royalty_recipient == b.royalty_recipient
    &&& a.royalty == b.royalty
    &&& a.metadata == b.metadata
    &&& a.transferable == b.transferable
    &&& a.resources == b.resources
    &&& a.next_resource_id == b.next_resource_id
}

/// `i` is the first position in `rs` of a resource with id `rid`.
pub open spec fn is_first_resource(rs: Seq<ResourceInfo>, rid: ResourceId, i: int) -> bool {
    &&& 0 <= i < rs.len()
    &&& rs[i].id == rid
    &&& forall|j: int| 0 <= j < i ==> (#[trigger] rs[j]).id != rid
}

/// Some resource in `rs` can be equipped into base `base_id`.
pub open spec fn binds_base(rs: Seq<ResourceInfo>, base_id: BaseId) -> bool {
    exists|j: int|
        0 <= j < rs.len() && match (#[trigger] rs[j]).equip {
            Some((b, _)) => b == base_id,
            None => false,
        }
}

/// Some resource in `rs` has id `rid`.
pub open spec fn has_resource(rs: Seq<ResourceInfo>, rid: ResourceId) -> bool {
    exists|i: int| 0 <= i < rs.len() && (#[trigger] rs[i]).id == rid
}

/// The resource of `rs` with id `rid` (the first, should ids repeat).
pub open spec fn resource_in(rs: Seq<ResourceInfo>, rid: ResourceId) -> ResourceInfo {
    rs[choose|i: int| is_first_resource(rs, rid, i)]
}

pub proof fn lemma_first_resource_unique(rs: Seq<ResourceInfo>, rid: ResourceId, i: int)
    requires
        is_first_resource(rs, rid, i),
    ensures
        resource_in(rs, rid) == rs[i],
{
    let j = choose|j: int| is_first_resource(rs, rid, j);
    if j < i {
        assert(rs[j].id != rid);
    } else if i < j {
        assert(rs[i].id != rid);
    }
}

/// `kept` holds, at distinct positions `idx` of `s` from `low` on, the
/// unmarked records there, and each of them.
pub open spec fn kept_from(
    s: Seq<NftRecord>,
    marks: Seq<bool>,
    kept: Seq<NftRecord>,
    idx: Seq<int>,
    low: int,
) -> bool {
    &&& kept.len() == idx.len()
    &&& forall|q: int|
        0 <= q < kept.len() ==> low <= #[trigger] idx[q] < s.len() && kept[q] == s[idx[q]]
            && !marks[idx[q]]
    &&& forall|q1: int, q2: int|
        0 <= q1 < kept.len() && 0 <= q2 < kept.len() && q1 != q2 ==> #[trigger] idx[q1]
            != #[trigger] idx[q2]
    &&& forall|a: int|
        low <= a < s.len() && !#[trigger] marks[a] ==> exists|q: int|
            0 <= q < kept.len() && idx[q] == a
}

pub proof fn lemma_kept_push(
    s: Seq<NftRecord>,
    marks: Seq<bool>,
    kept: Seq<NftRecord>,
    idx: Seq<int>,
    len: int,
)
    requires
        0 < len <= s.len(),
        marks.len() == s.len(),
        kept_from(s, marks, kept, idx, len),
        !marks[len - 1],
    ensures
        kept_from(s, marks, kept.push(s[len - 1]), idx.push(len - 1), len - 1),
{
    let k2 = kept.push(s[len - 1]);
    let i2 = idx.push(len - 1);
    assert forall|q: int| 0 <= q < k2.len() implies len - 1 <= #[trigger] i2[q] < s.len() && k2[q]
        == s[i2[q]] && !marks[i2[q]] by {
        if q < kept.len() {
            assert(i2[q] == idx[q]);
        }
    }
    assert forall|q1: int, q2: int|
        0 <= q1 < k2.len() && 0 <= q2 < k2.len() && q1 != q2 implies #[trigger] i2[q1]
        != #[trigger] i2[q2] by {
        if q1 < kept.len() {
            assert(i2[q1] == idx[q1]);
        }
        if q2 < kept.len() {
            assert(i2[q2] == idx[q2]);
        }
    }
    assert forall|a: int| len - 1 <= a < s.len() && !#[trigger] marks[a] implies exists|q: int|
        0 <= q < k2.len() && i2[q] == a by {
        if a == len - 1 {
            assert(i2[kept.len() as int] == a);
        } else {
            let q = choose|q: int| 0 <= q < kept.len() && idx[q] == a;
            assert(i2[q] == a);
        }
    }
}

pub proof fn lemma_kept_skip(
    s: Seq<NftRecord>,
    marks: Seq<bool>,
    kept: Seq<NftRecord>,
    idx: Seq<int>,
    len: int,
)
    requires
        0 < len <= s.len(),
        marks.len() == s.len(),
        kept_from(s, marks, kept, idx, len),
        marks[len - 1],
    ensures
        kept_from(s, marks, kept, idx, len - 1),
{
}

pub proof fn lemma_kept_map(s: Seq<NftRecord>, marks: Seq<bool>, kept: Seq<NftRecord>, idx: Seq<int>, x: int)
    requires
        keys_unique(s),
        is_forest(owner_map(s)),
        0 <= x < s.len(),
        marks.len() == s.len(),
        kept_from(s, marks, kept, idx, 0),
        forall|i: int|
            0 <= i < s.len() ==> (marks[i] <==> is_descendant(
                owner_map(s),
                key_of(#[trigger] s[i]),
                key_of(s[x]),
            )),
    ensures
        keys_unique(kept),
        owner_map(kept) == owner_map(s).remove_keys(subtree(owner_map(s), key_of(s[x]))),
        forall|k: NftKey|
            #[trigger] owner_map(kept).contains_key(k) ==> kept[index_of(kept, k)] == s[index_of(
                s,
                k,
            )],
{
    let m = owner_map(s);
    let d = subtree(m, key_of(s[x]));
    let target = m.remove_keys(d);
    assert forall|p: int, q: int|
        0 <= p < kept.len() && 0 <= q < kept.len() && p != q implies key_of(#[trigger] kept[p])
        != key_of(#[trigger] kept[q]) by {
        assert(idx[p] != idx[q]);
    }
    assert forall|z: NftKey| #[trigger] owner_map(kept).contains_key(z) <==> target.contains_key(z) by {
        if has_key(kept, z) {
            let q = choose|q: int| 0 <= q < kept.len() && key_of(#[trigger] kept[q]) == z;
            assert(kept[q] == s[idx[q]]);
            lemma_index_of(s, idx[q]);
        }
        if target.contains_key(z) {
            let a = choose|a: int| 0 <= a < s.len() && key_of(#[trigger] s[a]) == z;
            assert(!marks[a]);
            let q = choose|q: int| 0 <= q < kept.len() && idx[q] == a;
            assert(kept[q] == s[a]);
            assert(key_of(kept[q]) == z);
        }
    }
    assert forall|z: NftKey| #[trigger] owner_map(kept).contains_key(z) implies owner_map(kept)[z]
        == target[z] by {
        let q = index_of(kept, z);
        lemma_index_of(kept, q);
        assert(kept[q] == s[idx[q]]);
        lemma_index_of(s, idx[q]);
    }
    assert(owner_map(kept) =~= target);
    assert forall|k: NftKey| #[trigger] owner_map(kept).contains_key(k) implies kept[index_of(kept, k)]
        == s[index_of(s, k)] by {
        let q = index_of(kept, k);
        lemma_index_of(kept, q);
        assert(kept[q] == s[idx[q]]);
        lemma_index_of(s, idx[q]);
    }
}

/// The keys of the records of collection `c`.
pub open spec fn keys_in(s: Seq<NftRecord>, c: CollectionId) -> Set<NftKey> {
    collection_keys(owner_map(s).dom(), c)
}

/// With unique keys, the number of records of a collection is the number of
/// their keys.
pub proof fn lemma_count_is_keys(s: Seq<NftRecord>, c: CollectionId)
    requires
        keys_unique(s),
    ensures
        keys_in(s, c).finite(),
        count_in(s, c) == keys_in(s, c).len(),
    decreases s.len(),
{
    if s.len() == 0 {
        assert(keys_in(s, c) =~= Set::<NftKey>::empty());
    } else {
        let t = s.drop_last();
        let r = s.last();
        assert forall|i: int, j: int|
            0 <= i < t.len() && 0 <= j < t.len() && i != j implies key_of(#[trigger] t[i])
            != key_of(#[trigger] t[j]) by {
            assert(t[i] == s[i] && t[j] == s[j]);
        }
        lemma_count_is_keys(t, c);
        assert forall|z: NftKey| has_key(s, z) <==> (has_key(t, z) || z == key_of(r)) by {
            if has_key(s, z) {
                let i = choose|i: int| 0 <= i < s.len() && key_of(#[trigger] s[i]) == z;
                if i < t.len() {
                    assert(t[i] == s[i]);
                }
            }
            if has_key(t, z) {
                let i = choose|i: int| 0 <= i < t.len() && key_of(#[trigger] t[i]) == z;
                assert(t[i] == s[i]);
            }
            if z == key_of(r) {
                assert(key_of(s[s.len() - 1]) == z);
            }
        }
        if has_key(t, key_of(r)) {
            let i = choose|i: int| 0 <= i < t.len() && key_of(#[trigger] t[i]) == key_of(r);
            assert(t[i] == s[i]);
            assert(key_of(s[i]) != key_of(s[s.len() - 1]));
        }
        if r.collection_id == c {
            assert(keys_in(s, c) =~= keys_in(t, c).insert(key_of(r)));
        } else {
            assert(keys_in(s, c) =~= keys_in(t, c));
        }
    }
}

/// Removing the keys `d` from the records removes, from each collection's
/// count, the members of `d` in that collection.
pub proof fn lemma_count_after_removal(
    s: Seq<NftRecord>,
    kept: Seq<NftRecord>,
    d: Set<NftKey>,
    c: CollectionId,
)
    requires
        keys_unique(s),
        keys_unique(kept),
        owner_map(kept) == owner_map(s).remove_keys(d),
        d.subset_of(owner_map(s).dom()),
    ensures
        count_in(kept, c) == count_in(s, c) - collection_keys(d, c).len(),
{
    lemma_count_is_keys(s, c);
    lemma_count_is_keys(kept, c);
    let a = keys_in(s, c);
    let b = collection_keys(d, c);
    assert(b.subset_of(a));
    vstd::set_lib::lemma_len_subset(b, a);
    assert(keys_in(kept, c) =~= a.difference(b));
    vstd::set_lib::lemma_len_subset(a.difference(b), a);
    vstd::set_lib::lemma_set_disjoint_lens(a.difference(b), b);
    assert(a.difference(b) + b =~= a);
}

pub proof fn lemma_count_true_zero(s: Seq<bool>)
    requires
        forall|j: int| 0 <= j < s.len() ==> !s[j],
    ensures
        count_true(s) == 0,
    decreases s.len(),
{
    if s.len() > 0 {
        assert forall|j: int| 0 <= j < s.drop_last().len() implies !s.drop_last()[j] by {
            assert(s.drop_last()[j] == s[j]);
        }
        lemma_count_true_zero(s.drop_last());
    }
}

pub proof fn lemma_count_absent(s: Seq<NftRecord>, c: CollectionId)
    requires
        forall|i: int| 0 <= i < s.len() ==> s[i].collection_id != c,
    ensures
        count_in(s, c) == 0,
    decreases s.len(),
{
    if s.len() > 0 {
        assert forall|i: int| 0 <= i < s.drop_last().len() implies s.drop_last()[i].collection_id
            != c by {
            assert(s.drop_last()[i] == s[i]);
        }
        lemma_count_absent(s.drop_last(), c);
    }
}

pub proof fn lemma_count_prefix(s: Seq<NftRecord>, c: CollectionId, k: int)
    requires
        0 <= k <= s.len(),
    ensures
        count_in(s.subrange(0, k), c) <= count_in(s, c),
    decreases s.len() - k,
{
    if k < s.len() {
        lemma_count_prefix(s, c, k + 1);
        assert(s.subrange(0, k + 1).drop_last() =~= s.subrange(0, k));
    } else {
        assert(s.subrange(0, k) =~= s);
    }
}

} // verus!
