use vstd::prelude::*;

use crate::types::{AccountIdOrCollectionNftTuple, CollectionId, NftId};

verus! {

/// An NFT's identity: its collection and its id within it.
pub type NftKey = (CollectionId, NftId);

/// The ownership relation: each existing NFT mapped to its owner.
pub type OwnerMap = Map<NftKey, AccountIdOrCollectionNftTuple>;

/// The NFT that `k` is nested in, if `k` exists and is owned by an NFT.
pub open spec fn parent(m: OwnerMap, k: NftKey) -> Option<NftKey> {
    if m.contains_key(k) {
        match m[k] {
            AccountIdOrCollectionNftTuple::CollectionAndNftTuple(c, n) => Some((c, n)),
            AccountIdOrCollectionNftTuple::AccountId(_) => None,
        }
    } else {
        None
    }
}

/// The NFT reached from `k` by following the ownership relation `n` times.
pub open spec fn ancestor(m: OwnerMap, k: NftKey, n: nat) -> Option<NftKey>
    decreases n,
{
    if n == 0 {
        Some(k)
    } else {
        match ancestor(m, k, (n - 1) as nat) {
            Some(z) => parent(m, z),
            None => None,
        }
    }
}

/// `y` is `x` or is nested, directly or not, inside `x`.
pub open spec fn is_descendant(m: OwnerMap, y: NftKey, x: NftKey) -> bool {
    exists|n: nat| ancestor(m, y, n) == Some(x)
}

/// The existing NFTs that are `x` or nested inside it.
pub open spec fn subtree(m: OwnerMap, x: NftKey) -> Set<NftKey> {
    Set::new(|k: NftKey| m.contains_key(k) && is_descendant(m, k, x))
}

/// The members of `keys` that belong to collection `c`.
pub open spec fn collection_keys(keys: Set<NftKey>, c: CollectionId) -> Set<NftKey> {
    keys.filter(|k: NftKey| k.0 == c)
}

/// Following the ownership relation from `k` reaches an account.
pub open spec fn chain_ends(m: OwnerMap, k: NftKey) -> bool {
    exists|n: nat| ancestor(m, k, n) is None
}

/// Every NFT that owns another exists.
pub open spec fn owners_exist(m: OwnerMap) -> bool {
    forall|k: NftKey|
        #[trigger] m.contains_key(k) && parent(m, k) is Some ==> m.contains_key(
            parent(m, k)->0,
        )
}

/// The ownership relation is a forest: parents exist and every chain of
/// owners ends at an account.
pub open spec fn is_forest(m: OwnerMap) -> bool {
    &&& owners_exist(m)
    &&& forall|k: NftKey| #[trigger] m.contains_key(k) ==> chain_ends(m, k)
}

pub proof fn lemma_compose(m: OwnerMap, k: NftKey, a: nat, t: nat)
    ensures
        ancestor(m, k, a + t) == match ancestor(m, k, a) {
            Some(z) => ancestor(m, z, t),
            None => None,
        },
    decreases t,
{
    if t > 0 {
        lemma_compose(m, k, a, (t - 1) as nat);
        assert(ancestor(m, k, a + t) == match ancestor(m, k, (a + t - 1) as nat) {
            Some(w) => parent(m, w),
            None => None,
        });
        if let Some(z) = ancestor(m, k, a) {
            assert(ancestor(m, z, t) == match ancestor(m, z, (t - 1) as nat) {
                Some(w) => parent(m, w),
                None => None,
            });
        }
    }
}

proof fn lemma_agree(m: OwnerMap, m2: OwnerMap, k: NftKey, n: nat)
    requires
        forall|i: nat|
            i < n ==> match #[trigger] ancestor(m, k, i) {
                Some(z) => parent(m2, z) == parent(m, z),
                None => true,
            },
    ensures
        ancestor(m2, k, n) == ancestor(m, k, n),
    decreases n,
{
    if n > 0 {
        lemma_agree(m, m2, k, (n - 1) as nat);
        let _ = ancestor(m, k, (n - 1) as nat);
    }
}

proof fn lemma_in_domain(m: OwnerMap, k: NftKey, n: nat)
    requires
        owners_exist(m),
        m.contains_key(k),
        ancestor(m, k, n) is Some,
    ensures
        m.contains_key(ancestor(m, k, n)->0),
    decreases n,
{
    if n > 0 {
        let prev = ancestor(m, k, (n - 1) as nat);
        if prev is Some {
            lemma_in_domain(m, k, (n - 1) as nat);
            assert(m.contains_key(prev->0));
        }
    }
}

proof fn lemma_first_hit(m: OwnerMap, k: NftKey, x: NftKey, a: nat) -> (b: nat)
    requires
        ancestor(m, k, a) == Some(x),
    ensures
        b <= a,
        ancestor(m, k, b) == Some(x),
        forall|i: nat| i < b ==> ancestor(m, k, i) != Some(x),
    decreases a,
{
    if exists|i: nat| i < a && ancestor(m, k, i) == Some(x) {
        let i = choose|i: nat| i < a && ancestor(m, k, i) == Some(x);
        lemma_first_hit(m, k, x, i)
    } else {
        a
    }
}

proof fn lemma_stays_some(m: OwnerMap, k: NftKey, j: nat, n: nat)
    requires
        j <= n,
        ancestor(m, k, n) is Some,
    ensures
        ancestor(m, k, j) is Some,
{
    lemma_compose(m, k, j, (n - j) as nat);
}

proof fn lemma_cycle_never_ends(m: OwnerMap, k: NftKey, n: nat, j: nat)
    requires
        n >= 1,
        ancestor(m, k, n) == Some(k),
    ensures
        ancestor(m, k, j) is Some,
    decreases j,
{
    if j <= n {
        lemma_stays_some(m, k, j, n);
    } else {
        lemma_cycle_never_ends(m, k, n, (j - n) as nat);
        lemma_compose(m, k, n, (j - n) as nat);
    }
}

/// In a forest, following the ownership relation from an NFT one or more
/// times never comes back to that NFT.
pub proof fn lemma_never_revisits(m: OwnerMap, k: NftKey, n: nat)
    requires
        is_forest(m),
        m.contains_key(k),
        n >= 1,
    ensures
        ancestor(m, k, n) != Some(k),
{
    if ancestor(m, k, n) == Some(k) {
        assert(chain_ends(m, k));
        let e = choose|e: nat| ancestor(m, k, e) is None;
        lemma_cycle_never_ends(m, k, n, e);
    }
}

/// Adding a new NFT owned by an account or by an existing NFT keeps a forest.
pub proof fn lemma_insert_leaf(m: OwnerMap, nk: NftKey, o: AccountIdOrCollectionNftTuple)
    requires
        is_forest(m),
        !m.contains_key(nk),
        match o {
            AccountIdOrCollectionNftTuple::CollectionAndNftTuple(c, n) => m.contains_key((c, n)),
            AccountIdOrCollectionNftTuple::AccountId(_) => true,
        },
    ensures
        is_forest(m.insert(nk, o)),
{
    let m2 = m.insert(nk, o);
    assert forall|k: NftKey| m.contains_key(k) implies ancestor(m2, k, choose|e: nat| ancestor(m, k, e) is None) is None by {
        assert(chain_ends(m, k));
        let e = choose|e: nat| ancestor(m, k, e) is None;
        assert forall|i: nat| i < e implies match #[trigger] ancestor(m, k, i) {
            Some(z) => parent(m2, z) == parent(m, z),
            None => true,
        } by {
            if ancestor(m, k, i) is Some {
                lemma_in_domain(m, k, i);
            }
        }
        lemma_agree(m, m2, k, e);
    }
    assert forall|k: NftKey| #[trigger] m2.contains_key(k) implies chain_ends(m2, k) by {
        if k == nk {
            match o {
                AccountIdOrCollectionNftTuple::CollectionAndNftTuple(c, n) => {
                    let p = (c, n);
                    let e = choose|e: nat| ancestor(m, p, e) is None;
                    assert(ancestor(m2, p, e) is None);
                    assert(ancestor(m2, k, 0) == Some(k));
                    assert(ancestor(m2, k, 1) == Some(p));
                    lemma_compose(m2, k, 1, e);
                    assert(ancestor(m2, k, 1 + e) is None);
                },
                AccountIdOrCollectionNftTuple::AccountId(_) => {
                    assert(ancestor(m2, k, 0) == Some(k));
                    assert(ancestor(m2, k, 1) is None);
                },
            }
        } else {
            let e = choose|e: nat| ancestor(m, k, e) is None;
            assert(ancestor(m2, k, e) is None);
        }
    }
    assert forall|k: NftKey|
        #[trigger] m2.contains_key(k) && parent(m2, k) is Some implies m2.contains_key(
            parent(m2, k)->0,
        ) by {
        if k != nk {
            assert(parent(m2, k) == parent(m, k));
        }
    }
}

/// Giving an existing NFT a new owner keeps a forest, when that owner is an
/// account or an existing NFT that is not nested inside it.
pub proof fn lemma_reparent(m: OwnerMap, x: NftKey, o: AccountIdOrCollectionNftTuple)
    requires
        is_forest(m),
        m.contains_key(x),
        match o {
            AccountIdOrCollectionNftTuple::CollectionAndNftTuple(c, n) => m.contains_key((c, n))
                && !is_descendant(m, (c, n), x),
            AccountIdOrCollectionNftTuple::AccountId(_) => true,
        },
    ensures
        is_forest(m.insert(x, o)),
{
    let m2 = m.insert(x, o);
    assert forall|k: NftKey| #[trigger] m2.contains_key(k) implies chain_ends(m2, k) by {
        assert(m.contains_key(k));
        assert(chain_ends(m, k));
        if is_descendant(m, k, x) {
            let a = choose|a: nat| ancestor(m, k, a) == Some(x);
            let b = lemma_first_hit(m, k, x, a);
            assert forall|i: nat| i < b implies match #[trigger] ancestor(m, k, i) {
                Some(z) => parent(m2, z) == parent(m, z),
                None => true,
            } by {}
            lemma_agree(m, m2, k, b);
            assert(ancestor(m2, k, b + 1) == parent(m2, x));
            match o {
                AccountIdOrCollectionNftTuple::CollectionAndNftTuple(c, n) => {
                    let p = (c, n);
                    assert(chain_ends(m, p));
                    let e = choose|e: nat| ancestor(m, p, e) is None;
                    assert forall|i: nat| i < e implies match #[trigger] ancestor(m, p, i) {
                        Some(z) => parent(m2, z) == parent(m, z),
                        None => true,
                    } by {
                        if ancestor(m, p, i) == Some(x) {
                            assert(is_descendant(m, p, x));
                        }
                    }
                    lemma_agree(m, m2, p, e);
                    lemma_compose(m2, k, b + 1, e);
                    assert(ancestor(m2, k, b + 1 + e) is None);
                },
                AccountIdOrCollectionNftTuple::AccountId(_) => {
                    assert(ancestor(m2, k, b + 1) is None);
                },
            }
        } else {
            let e = choose|e: nat| ancestor(m, k, e) is None;
            assert forall|i: nat| i < e implies match #[trigger] ancestor(m, k, i) {
                Some(z) => parent(m2, z) == parent(m, z),
                None => true,
            } by {
                if ancestor(m, k, i) == Some(x) {
                    assert(is_descendant(m, k, x));
                }
            }
            lemma_agree(m, m2, k, e);
            assert(ancestor(m2, k, e) is None);
        }
    }
    assert forall|k: NftKey|
        #[trigger] m2.contains_key(k) && parent(m2, k) is Some implies m2.contains_key(
            parent(m2, k)->0,
        ) by {
        if k != x {
            assert(parent(m2, k) == parent(m, k));
        }
    }
}

/// An NFT nested in a member of `subtree(m, x)` is itself a member.
pub proof fn lemma_subtree_closed(m: OwnerMap, k: NftKey, z: NftKey, x: NftKey, i: nat)
    requires
        ancestor(m, k, i) == Some(z),
        is_descendant(m, z, x),
    ensures
        is_descendant(m, k, x),
{
    let j = choose|j: nat| ancestor(m, z, j) == Some(x);
    lemma_compose(m, k, i, j);
    assert(ancestor(m, k, i + j) == Some(x));
}

/// Removing an NFT together with everything nested inside it keeps a forest.
pub proof fn lemma_remove_subtree(m: OwnerMap, x: NftKey)
    requires
        is_forest(m),
    ensures
        is_forest(m.remove_keys(subtree(m, x))),
{
    let d = subtree(m, x);
    let m2 = m.remove_keys(d);
    assert forall|k: NftKey, i: nat|
        m2.contains_key(k) && #[trigger] ancestor(m, k, i) is Some implies m2.contains_key(
            ancestor(m, k, i)->0,
        ) by {
        let z = ancestor(m, k, i)->0;
        lemma_in_domain(m, k, i);
        if is_descendant(m, z, x) {
            lemma_subtree_closed(m, k, z, x, i);
        }
    }
    assert forall|k: NftKey| #[trigger] m2.contains_key(k) implies chain_ends(m2, k) by {
        assert(chain_ends(m, k));
        let e = choose|e: nat| ancestor(m, k, e) is None;
        assert forall|i: nat| i < e implies match #[trigger] ancestor(m, k, i) {
            Some(z) => parent(m2, z) == parent(m, z),
            None => true,
        } by {
            if ancestor(m, k, i) is Some {
                assert(m2.contains_key(ancestor(m, k, i)->0));
            }
        }
        lemma_agree(m, m2, k, e);
        assert(ancestor(m2, k, e) is None);
    }
    assert forall|k: NftKey|
        #[trigger] m2.contains_key(k) && parent(m2, k) is Some implies m2.contains_key(
            parent(m2, k)->0,
        ) by {
        assert(parent(m2, k) == parent(m, k));
        assert(ancestor(m, k, 0) == Some(k));
        assert(ancestor(m, k, 1) == parent(m, k));
    }
}

} // verus!
