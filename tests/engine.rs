use rmrk::contract::RmrkTestContract;
use rmrk::engine::RmrkEngine;
use rmrk::error::{RmrkError, RmrkErrorCode};
use rmrk::types::{AccountId, AccountIdOrCollectionNftTuple, ResourceSpec};

fn alice() -> AccountId {
    AccountId::from_bytes([1u8; 32])
}

fn bob() -> AccountId {
    AccountId::from_bytes([2u8; 32])
}

fn failed() -> RmrkError {
    RmrkError::ErrorCode(RmrkErrorCode::Failed)
}

fn mint(e: &mut RmrkEngine, collection_id: u32, transferable: bool) -> Result<(), RmrkError> {
    e.mint_nft(alice(), alice(), collection_id, None, None, vec![1, 2], transferable, None)
}

fn mint_into(e: &mut RmrkEngine, parent: (u32, u32)) -> Result<(), RmrkError> {
    e.mint_nft_directly_to_nft(alice(), parent, 0, None, None, vec![3], true, None)
}

fn nft_owner(c: u32, n: u32) -> AccountIdOrCollectionNftTuple {
    AccountIdOrCollectionNftTuple::CollectionAndNftTuple(c, n)
}

/// An engine with one uncapped collection issued by alice.
fn engine_with_collection() -> RmrkEngine {
    let mut e = RmrkEngine::new();
    assert_eq!(e.create_collection(alice(), vec![7], None, vec![8]), Ok(()));
    e
}

#[test]
fn create_collection_then_collections_reports_it() {
    let mut contract = RmrkTestContract::new();
    assert_eq!(contract.collection_index(), 0);
    assert_eq!(contract.create_collection(alice()), Ok(()));
    let info = contract.collections(0).unwrap().unwrap();
    assert_eq!(info.nfts_count, 0);
    assert_eq!(info.max, Some(1000));
    assert_eq!(info.metadata, b"ipfs://ipfs/QmTG9ekqrdMh3dsehLYjC19fUSmPR31Ds2h6Jd7LnMZ9c7".to_vec());
    assert_eq!(info.symbol, b"ROO".to_vec());
    assert_eq!(info.issuer, alice());
    assert_eq!(contract.collection_index(), 1);
    assert!(contract.collections(1).unwrap().is_none());
}

#[test]
fn create_collection_rejects_zero_cap() {
    let mut e = RmrkEngine::new();
    assert_eq!(e.create_collection(alice(), vec![], Some(0), vec![]), Err(failed()));
    assert_eq!(e.collection_index(), 0);
}

#[test]
fn mint_stops_at_the_cap() {
    let mut e = RmrkEngine::new();
    assert_eq!(e.create_collection(alice(), vec![], Some(2), vec![]), Ok(()));
    assert_eq!(mint(&mut e, 0, true), Ok(()));
    assert_eq!(mint(&mut e, 0, true), Ok(()));
    assert_eq!(mint(&mut e, 0, true), Err(failed()));
    assert_eq!(e.collections(0).unwrap().unwrap().nfts_count, 2);
    assert_eq!(e.next_nft_id(0), 2);
    assert_eq!(e.burn_nft(0, 1, 1), Ok(()));
    assert_eq!(mint(&mut e, 0, true), Ok(()));
    assert_eq!(e.collections(0).unwrap().unwrap().nfts_count, 2);
    assert_eq!(e.next_nft_id(0), 3);
}

#[test]
fn mint_checks_issuer_royalty_and_collection() {
    let mut e = engine_with_collection();
    assert_eq!(
        e.mint_nft(bob(), bob(), 0, None, None, vec![], true, None),
        Err(failed())
    );
    assert_eq!(
        e.mint_nft(alice(), bob(), 0, Some(bob()), Some(101), vec![], true, None),
        Err(failed())
    );
    assert_eq!(mint(&mut e, 1, true), Err(failed()));
    assert_eq!(
        e.mint_nft(alice(), bob(), 0, Some(bob()), Some(100), vec![], true, None),
        Ok(())
    );
    assert_eq!(e.next_nft_id(0), 1);
    assert_eq!(e.next_nft_id(5), 0);
}

#[test]
fn mint_to_nft_needs_an_existing_parent() {
    let mut e = engine_with_collection();
    assert_eq!(mint_into(&mut e, (0, 0)), Err(failed()));
    assert_eq!(mint(&mut e, 0, true), Ok(()));
    assert_eq!(mint_into(&mut e, (0, 0)), Ok(()));
    assert_eq!(e.collections(0).unwrap().unwrap().nfts_count, 2);
}

#[test]
fn send_refuses_cycles() {
    let mut e = engine_with_collection();
    assert_eq!(mint(&mut e, 0, true), Ok(()));
    assert_eq!(mint_into(&mut e, (0, 0)), Ok(()));
    assert_eq!(mint_into(&mut e, (0, 1)), Ok(()));
    // 0 owns 1 owns 2: moving 0 under 2 or under itself would close a loop.
    assert_eq!(e.send(0, 0, nft_owner(0, 2)), Err(failed()));
    assert_eq!(e.send(0, 0, nft_owner(0, 0)), Err(failed()));
    assert_eq!(e.send(0, 0, nft_owner(0, 9)), Err(failed()));
    // Moving 2 up under 0 is fine.
    assert_eq!(e.send(0, 2, nft_owner(0, 0)), Ok(()));
    assert_eq!(e.send(0, 1, AccountIdOrCollectionNftTuple::AccountId(bob())), Ok(()));
    assert_eq!(e.send(0, 0, nft_owner(0, 1)), Ok(()));
}

#[test]
fn send_refuses_non_transferable() {
    let mut e = engine_with_collection();
    assert_eq!(mint(&mut e, 0, false), Ok(()));
    assert_eq!(mint(&mut e, 0, true), Ok(()));
    assert_eq!(e.send(0, 0, AccountIdOrCollectionNftTuple::AccountId(bob())), Err(failed()));
    assert_eq!(e.send(0, 0, nft_owner(0, 1)), Err(failed()));
    match e.nfts[0].owner {
        AccountIdOrCollectionNftTuple::AccountId(a) => assert_eq!(a, alice()),
        _ => panic!("owner changed"),
    }
}

#[test]
fn burn_needs_budget_for_the_whole_subtree() {
    let mut e = engine_with_collection();
    assert_eq!(mint(&mut e, 0, true), Ok(()));
    assert_eq!(mint_into(&mut e, (0, 0)), Ok(()));
    assert_eq!(mint_into(&mut e, (0, 1)), Ok(()));
    assert_eq!(mint(&mut e, 0, true), Ok(()));
    assert_eq!(e.burn_nft(0, 0, 2), Err(failed()));
    assert_eq!(e.nfts.len(), 4);
    assert_eq!(e.collections(0).unwrap().unwrap().nfts_count, 4);
    assert_eq!(e.burn_nft(0, 0, 3), Ok(()));
    assert_eq!(e.nfts.len(), 1);
    assert_eq!(e.collections(0).unwrap().unwrap().nfts_count, 1);
    assert_eq!(e.lock(0, 3), Ok(false));
    assert_eq!(e.lock(0, 1), Err(failed()));
    assert_eq!(e.burn_nft(0, 0, 3), Err(failed()));
}

#[test]
fn burn_of_a_leaf_keeps_its_parent() {
    let mut e = engine_with_collection();
    assert_eq!(mint(&mut e, 0, true), Ok(()));
    assert_eq!(mint_into(&mut e, (0, 0)), Ok(()));
    assert_eq!(e.burn_nft(0, 1, 1), Ok(()));
    assert_eq!(e.lock(0, 0), Ok(false));
    assert_eq!(e.lock(0, 1), Err(failed()));
}

#[test]
fn locked_nft_cannot_move_or_burn() {
    let mut e = engine_with_collection();
    assert_eq!(mint(&mut e, 0, true), Ok(()));
    assert_eq!(e.set_lock(bob(), 0, 0, true), Err(failed()));
    assert_eq!(e.set_lock(alice(), 0, 0, true), Ok(()));
    assert_eq!(e.lock(0, 0), Ok(true));
    assert_eq!(e.send(0, 0, AccountIdOrCollectionNftTuple::AccountId(bob())), Err(failed()));
    assert_eq!(e.burn_nft(0, 0, 5), Err(failed()));
    assert_eq!(e.set_lock(alice(), 0, 0, false), Ok(()));
    assert_eq!(e.burn_nft(0, 0, 5), Ok(()));
}

#[test]
fn destroy_collection_needs_issuer_and_empty() {
    let mut e = engine_with_collection();
    assert_eq!(mint(&mut e, 0, true), Ok(()));
    assert_eq!(e.destroy_collection(alice(), 0), Err(failed()));
    assert_eq!(e.burn_nft(0, 0, 1), Ok(()));
    assert_eq!(e.destroy_collection(bob(), 0), Err(failed()));
    assert_eq!(e.destroy_collection(alice(), 0), Ok(()));
    assert!(e.collections(0).unwrap().is_none());
    assert_eq!(e.destroy_collection(alice(), 0), Err(failed()));
    assert_eq!(mint(&mut e, 0, true), Err(failed()));
}

fn engine_with_equippable_resource() -> RmrkEngine {
    let mut e = engine_with_collection();
    let spec = ResourceSpec {
        priority: 4,
        metadata: vec![10],
        properties: vec![11, 12],
        equip: Some((5, 7)),
    };
    assert_eq!(e.mint_nft(alice(), alice(), 0, None, None, vec![], true, Some(spec)), Ok(()));
    e
}

#[test]
fn equippable_slots_needs_exact_binding() {
    let e = engine_with_equippable_resource();
    assert_eq!(e.equippable_slots(0, 0, 0, 5, 7), Ok(()));
    assert_eq!(e.equippable_slots(0, 0, 0, 5, 8), Err(failed()));
    assert_eq!(e.equippable_slots(0, 0, 0, 6, 7), Err(failed()));
    assert_eq!(e.equippable_slots(0, 0, 1, 5, 7), Err(failed()));
    assert_eq!(e.equippable_slots(0, 1, 0, 5, 7), Err(failed()));
}

#[test]
fn equippable_bases_looks_at_every_resource() {
    let e = engine_with_equippable_resource();
    assert_eq!(e.equippable_bases(0, 0, 5), Ok(()));
    assert_eq!(e.equippable_bases(0, 0, 7), Err(failed()));
    assert_eq!(e.equippable_bases(0, 1, 5), Err(failed()));
}

#[test]
fn resource_queries_report_the_resource() {
    let e = engine_with_equippable_resource();
    let r = e.resources(0, 0, 0).unwrap();
    assert_eq!(r.id, 0);
    assert_eq!(r.priority, 4);
    assert_eq!(r.metadata, vec![10]);
    assert_eq!(r.properties, vec![11, 12]);
    assert_eq!(r.equip, Some((5, 7)));
    assert_eq!(e.resources(0, 0, 1).err(), Some(failed()));
    assert_eq!(e.properties(0, 0, 0), Ok(vec![11, 12]));
    assert_eq!(e.properties(0, 0, 3), Err(failed()));
    assert_eq!(e.priorities(0, 0, 0), 4);
    assert_eq!(e.priorities(0, 0, 3), 0);
    assert_eq!(e.next_resource_id(0, 0), 1);
    assert_eq!(e.next_resource_id(0, 4), 0);
}

#[test]
fn contract_forwards_to_its_engine() {
    let mut c = RmrkTestContract::new();
    assert_eq!(c.create_collection(alice()), Ok(()));
    assert_eq!(
        c.mint_ntf(alice(), bob(), 0, None, None, vec![1], true, None),
        Ok(())
    );
    assert_eq!(
        c.mint_ntf_directly_to_nft(alice(), (0, 0), 0, None, None, vec![2], false, None),
        Ok(())
    );
    assert_eq!(c.next_nft_id(0), 2);
    assert_eq!(c.next_resource_id(0, 0), 0);
    assert_eq!(c.lock(0, 1), Ok(false));
    assert_eq!(c.send(0, 1, AccountIdOrCollectionNftTuple::AccountId(bob())), Err(failed()));
    assert_eq!(c.send(0, 0, nft_owner(0, 1)), Err(failed()));
    assert_eq!(c.equippable_bases(0, 0, 1), Err(failed()));
    assert_eq!(c.equippable_slots(0, 0, 0, 1, 1), Err(failed()));
    assert_eq!(c.resources(0, 0, 0).err(), Some(failed()));
    assert_eq!(c.properties(0, 0, 0), Err(failed()));
    assert_eq!(c.priorities(0, 0, 0), 0);
    assert_eq!(c.burn_nft(0, 0, 1), Err(failed()));
    assert_eq!(c.burn_nft(0, 0, 2), Ok(()));
    assert_eq!(c.collections(0).unwrap().unwrap().nfts_count, 0);
    assert_eq!(c.destroy_collection(bob(), 0), Err(failed()));
    assert_eq!(c.destroy_collection(alice(), 0), Ok(()));
}

#[test]
fn burn_lowers_each_collection_by_its_burned_nfts() {
    let mut e = engine_with_collection();
    assert_eq!(e.create_collection(alice(), vec![], None, vec![]), Ok(()));
    assert_eq!(mint(&mut e, 0, true), Ok(()));
    assert_eq!(mint(&mut e, 0, true), Ok(()));
    assert_eq!(e.mint_nft_directly_to_nft(alice(), (0, 0), 1, None, None, vec![4], true, None), Ok(()));
    assert_eq!(e.mint_nft_directly_to_nft(alice(), (1, 0), 1, None, None, vec![5], true, None), Ok(()));
    assert_eq!(e.set_lock(alice(), 0, 1, true), Ok(()));
    assert_eq!(e.burn_nft(0, 0, 3), Ok(()));
    assert_eq!(e.collections(0).unwrap().unwrap().nfts_count, 1);
    assert_eq!(e.collections(1).unwrap().unwrap().nfts_count, 0);
    // The survivor keeps its data.
    assert_eq!(e.lock(0, 1), Ok(true));
    assert_eq!(e.nfts[0].metadata, vec![1, 2]);
}

#[test]
fn burn_refuses_a_subtree_with_a_locked_nft() {
    let mut e = engine_with_collection();
    assert_eq!(mint(&mut e, 0, true), Ok(()));
    assert_eq!(mint_into(&mut e, (0, 0)), Ok(()));
    assert_eq!(e.set_lock(alice(), 0, 1, true), Ok(()));
    assert_eq!(e.burn_nft(0, 0, 5), Err(failed()));
    assert_eq!(e.nfts.len(), 2);
    assert_eq!(e.set_lock(alice(), 0, 1, false), Ok(()));
    assert_eq!(e.burn_nft(0, 0, 5), Ok(()));
    assert_eq!(e.nfts.len(), 0);
}

#[test]
fn set_lock_changes_only_the_flag() {
    let mut e = engine_with_collection();
    assert_eq!(
        e.mint_nft(alice(), bob(), 0, Some(bob()), Some(5), vec![9, 9], false, None),
        Ok(())
    );
    assert_eq!(e.set_lock(alice(), 0, 0, true), Ok(()));
    assert!(e.nfts[0].locked);
    assert_eq!(e.nfts[0].metadata, vec![9, 9]);
    assert_eq!(e.nfts[0].royalty, Some(5));
    assert_eq!(e.nfts[0].royalty_recipient, Some(bob()));
    assert!(!e.nfts[0].transferable);
}
