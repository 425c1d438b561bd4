use rmrk::error::{RmrkError, RmrkErrorCode};
use rmrk::types::{AccountId, AccountIdOrCollectionNftTuple};
use rmrk::protocol::{
    check_new_owner, read_status, settle_response, settle_value, ExtensionOp, ProtocolFault, ResponseShape,
};

const ALL_OPS: [ExtensionOp; 16] = [
    ExtensionOp::NextNftId,
    ExtensionOp::CollectionIndex,
    ExtensionOp::NextResourceId,
    ExtensionOp::Collections,
    ExtensionOp::Priorities,
    ExtensionOp::Resources,
    ExtensionOp::EquippableBases,
    ExtensionOp::EquippableSlots,
    ExtensionOp::Properties,
    ExtensionOp::Lock,
    ExtensionOp::MintNft,
    ExtensionOp::MintNftDirectlyToNft,
    ExtensionOp::CreateCollection,
    ExtensionOp::BurnNft,
    ExtensionOp::DestroyCollection,
    ExtensionOp::Send,
];

#[test]
fn func_ids_match_the_table() {
    assert_eq!(ExtensionOp::NextNftId.func_id(), 3501);
    assert_eq!(ExtensionOp::Collections.func_id(), 3504);
    assert_eq!(ExtensionOp::Priorities.func_id(), 3506);
    assert_eq!(ExtensionOp::Resources.func_id(), 3508);
    assert_eq!(ExtensionOp::Lock.func_id(), 3512);
    assert_eq!(ExtensionOp::MintNft.func_id(), 3513);
    assert_eq!(ExtensionOp::Send.func_id(), 3518);
}

#[test]
fn func_ids_read_back() {
    for op in ALL_OPS {
        assert_eq!(ExtensionOp::from_func_id(op.func_id()), Some(op));
    }
    assert_eq!(ExtensionOp::from_func_id(3505), None);
    assert_eq!(ExtensionOp::from_func_id(3507), None);
    assert_eq!(ExtensionOp::from_func_id(0), None);
}

#[test]
fn shapes_match_the_table() {
    assert_eq!(ExtensionOp::NextNftId.shape(), ResponseShape::BareValue);
    assert_eq!(ExtensionOp::Priorities.shape(), ResponseShape::BareValue);
    assert_eq!(ExtensionOp::Collections.shape(), ResponseShape::TypedResult);
    assert_eq!(ExtensionOp::Lock.shape(), ResponseShape::TypedResult);
    assert_eq!(ExtensionOp::BurnNft.shape(), ResponseShape::Mutating);
    assert!(!ExtensionOp::CollectionIndex.handles_status());
    assert!(ExtensionOp::Send.handles_status());
}

#[test]
fn status_words_are_read() {
    assert_eq!(RmrkErrorCode::from_status_code(0), Ok(()));
    assert_eq!(RmrkErrorCode::from_status_code(1), Err(RmrkErrorCode::Failed));
    assert_eq!(read_status(0), Ok(Ok(())));
    assert_eq!(read_status(1), Ok(Err(RmrkError::ErrorCode(RmrkErrorCode::Failed))));
    assert_eq!(read_status(2), Err(ProtocolFault::UnknownStatus(2)));
    assert_eq!(RmrkError::from(RmrkErrorCode::Failed), RmrkError::ErrorCode(RmrkErrorCode::Failed));
}

#[test]
fn responses_are_settled() {
    let failed = RmrkError::ErrorCode(RmrkErrorCode::Failed);
    assert_eq!(settle_response::<u32>(0, Some(Ok(7))), Ok(Ok(7)));
    assert_eq!(settle_response::<u32>(0, Some(Err(failed))), Ok(Err(failed)));
    assert_eq!(settle_response::<u32>(0, None), Err(ProtocolFault::UndecodableOutput));
    assert_eq!(settle_response::<u32>(1, Some(Ok(7))), Ok(Err(failed)));
    assert_eq!(settle_response::<u32>(5, Some(Ok(7))), Err(ProtocolFault::UnknownStatus(5)));
    assert_eq!(settle_value::<u32>(Some(4)), Ok(4));
    assert_eq!(settle_value::<u32>(None), Err(ProtocolFault::UndecodableOutput));
}

#[test]
fn self_ownership_is_refused_before_dispatch() {
    let failed = RmrkError::ErrorCode(RmrkErrorCode::Failed);
    let own = AccountIdOrCollectionNftTuple::CollectionAndNftTuple(3, 4);
    assert_eq!(check_new_owner(3, 4, own), Err(failed));
    let other = AccountIdOrCollectionNftTuple::CollectionAndNftTuple(3, 5);
    assert_eq!(check_new_owner(3, 4, other), Ok(()));
    let account = AccountIdOrCollectionNftTuple::AccountId(AccountId::from_bytes([0u8; 32]));
    assert_eq!(check_new_owner(3, 4, account), Ok(()));
}
