use vstd::prelude::*;

use crate::error::{failed, RmrkError, RmrkErrorCode};
use crate::types::{AccountIdOrCollectionNftTuple, CollectionId, NftId};

verus! {

/// The operations of the engine call protocol.
#[derive(Clone, Copy, Debug, PartialEq, Eq, Structural)]
pub enum ExtensionOp {
    NextNftId,
    CollectionIndex,
    NextResourceId,
    Collections,
    Priorities,
    Resources,
    EquippableBases,
    EquippableSlots,
    Properties,
    Lock,
    MintNft,
    MintNftDirectlyToNft,
    CreateCollection,
    BurnNft,
    DestroyCollection,
    Send,
}

/// How the engine's answer to an operation is read.
#[derive(Clone, Copy, Debug, PartialEq, Eq, Structural)]
pub enum ResponseShape {
    /// A raw value; the call has no failure channel.
    BareValue,
    /// A value or the domain failure.
    TypedResult,
    /// A state change that succeeds or fails, with no value.
    Mutating,
}

/// A response that does not fit the declared shape of its operation.
/// It is never turned into the domain failure: the caller must abort.
#[derive(Clone, Copy, Debug, PartialEq, Eq, Structural)]
pub enum ProtocolFault {
    UnknownStatus(u32),
    UndecodableOutput,
}

pub open spec fn op_func_id(op: ExtensionOp) -> u32 {
    match op {
        ExtensionOp::NextNftId => 3501,
        ExtensionOp::CollectionIndex => 3502,
        ExtensionOp::NextResourceId => 3503,
        ExtensionOp::Collections => 3504,
        ExtensionOp::Priorities => 3506,
        ExtensionOp::Resources => 3508,
        ExtensionOp::EquippableBases => 3509,
        ExtensionOp::EquippableSlots => 3510,
        ExtensionOp::Properties => 3511,
        ExtensionOp::Lock => 3512,
        ExtensionOp::MintNft => 3513,
        ExtensionOp::MintNftDirectlyToNft => 3514,
        ExtensionOp::CreateCollection => 3515,
        ExtensionOp::BurnNft => 3516,
        ExtensionOp::DestroyCollection => 3517,
        ExtensionOp::Send => 3518,
    }
}

/// The operation served under function id `id`, if any.
pub open spec fn op_of_func_id(id: u32) -> Option<ExtensionOp> {
    match id {
        3501 => Some(ExtensionOp::NextNftId),
        3502 => Some(ExtensionOp::CollectionIndex),
        3503 => Some(ExtensionOp::NextResourceId),
        3504 => Some(ExtensionOp::Collections),
        3506 => Some(ExtensionOp::Priorities),
        3508 => Some(ExtensionOp::Resources),
        3509 => Some(ExtensionOp::EquippableBases),
        3510 => Some(ExtensionOp::EquippableSlots),
        3511 => Some(ExtensionOp::Properties),
        3512 => Some(ExtensionOp::Lock),
        3513 => Some(ExtensionOp::MintNft),
        3514 => Some(ExtensionOp::MintNftDirectlyToNft),
        3515 => Some(ExtensionOp::CreateCollection),
        3516 => Some(ExtensionOp::BurnNft),
        3517 => Some(ExtensionOp::DestroyCollection),
        3518 => Some(ExtensionOp::Send),
        _ => None,
    }
}

pub open spec fn op_shape(op: ExtensionOp) -> ResponseShape {
    match op {
        ExtensionOp::NextNftId | ExtensionOp::CollectionIndex | ExtensionOp::NextResourceId
        | ExtensionOp::Priorities => ResponseShape::BareValue,
        ExtensionOp::Collections | ExtensionOp::Resources | ExtensionOp::EquippableBases
        | ExtensionOp::EquippableSlots | ExtensionOp::Properties | ExtensionOp::Lock =>
            ResponseShape::TypedResult,
        _ => ResponseShape::Mutating,
    }
}

/// What a status word means for an operation that has a failure channel.
pub open spec fn status_meaning(status: u32) -> Result<Result<(), RmrkError>, ProtocolFault> {
    if status == 0 {
        Ok(Ok(()))
    } else if status == 1 {
        Ok(Err(failed()))
    } else {
        Err(ProtocolFault::UnknownStatus(status))
    }
}

impl ExtensionOp {
    /// The numeric function id under which the engine serves the operation.
    pub fn func_id(&self) -> (r: u32)
        ensures
            r == op_func_id(*self),
    {
        match self {
            ExtensionOp::NextNftId => 3501,
            ExtensionOp::CollectionIndex => 3502,
            ExtensionOp::NextResourceId => 3503,
            ExtensionOp::Collections => 3504,
            ExtensionOp::Priorities => 3506,
            ExtensionOp::Resources => 3508,
            ExtensionOp::EquippableBases => 3509,
            ExtensionOp::EquippableSlots => 3510,
            ExtensionOp::Properties => 3511,
            ExtensionOp::Lock => 3512,
            ExtensionOp::MintNft => 3513,
            ExtensionOp::MintNftDirectlyToNft => 3514,
            ExtensionOp::CreateCollection => 3515,
            ExtensionOp::BurnNft => 3516,
            ExtensionOp::DestroyCollection => 3517,
            ExtensionOp::Send => 3518,
        }
    }

    /// The operation served under a function id, if any.
    pub fn from_func_id(id: u32) -> (r: Option<ExtensionOp>)
        ensures
            r == op_of_func_id(id),
    {
        match id {
            3501 => Some(ExtensionOp::NextNftId),
            3502 => Some(ExtensionOp::CollectionIndex),
            3503 => Some(ExtensionOp::NextResourceId),
            3504 => Some(ExtensionOp::Collections),
            3506 => Some(ExtensionOp::Priorities),
            3508 => Some(ExtensionOp::Resources),
            3509 => Some(ExtensionOp::EquippableBases),
            3510 => Some(ExtensionOp::EquippableSlots),
            3511 => Some(ExtensionOp::Properties),
            3512 => Some(ExtensionOp::Lock),
            3513 => Some(ExtensionOp::MintNft),
            3514 => Some(ExtensionOp::MintNftDirectlyToNft),
            3515 => Some(ExtensionOp::CreateCollection),
            3516 => Some(ExtensionOp::BurnNft),
            3517 => Some(ExtensionOp::DestroyCollection),
            3518 => Some(ExtensionOp::Send),
            _ => None,
        }
    }

    /// The response shape of the operation.
    pub fn shape(&self) -> (r: ResponseShape)
        ensures
            r == op_shape(*self),
    {
        match self {
            ExtensionOp::NextNftId | ExtensionOp::CollectionIndex | ExtensionOp::NextResourceId
            | ExtensionOp::Priorities => ResponseShape::BareValue,
            ExtensionOp::Collections | ExtensionOp::Resources | ExtensionOp::EquippableBases
            | ExtensionOp::EquippableSlots | ExtensionOp::Properties | ExtensionOp::Lock =>
                ResponseShape::TypedResult,
            _ => ResponseShape::Mutating,
        }
    }

    /// Whether the engine's status word is read for this operation.
    pub fn handles_status(&self) -> (r: bool)
        ensures
            r == (op_shape(*self) != ResponseShape::BareValue),
    {
        match self.shape() {
            ResponseShape::BareValue => false,
            _ => true,
        }
    }
}

/// Reads a status word: 0 is success, 1 the domain failure, and any other
/// word a protocol fault.
pub fn read_status(status: u32) -> (r: Result<Result<(), RmrkError>, ProtocolFault>)
    ensures
        r == status_meaning(status),
{
    if status <= 1 {
        match RmrkErrorCode::from_status_code(status) {
            Ok(()) => Ok(Ok(())),
            Err(code) => Ok(Err(RmrkError::from(code))),
        }
    } else {
        Err(ProtocolFault::UnknownStatus(status))
    }
}

/// Settles the answer to an operation with a failure channel, given its
/// status word and its output as decoded (`None` when it could not be).
/// The status word decides first; the output is read only on success.
pub fn settle_response<T>(status: u32, decoded: Option<Result<T, RmrkError>>) -> (r: Result<
    Result<T, RmrkError>,
    ProtocolFault,
>)
    ensures
        status > 1 ==> r == Err::<Result<T, RmrkError>, ProtocolFault>(
            ProtocolFault::UnknownStatus(status),
        ),
        status == 1 ==> r == Ok::<Result<T, RmrkError>, ProtocolFault>(Err(failed())),
        status == 0 ==> match decoded {
            Some(v) => r == Ok::<Result<T, RmrkError>, ProtocolFault>(v),
            None => r == Err::<Result<T, RmrkError>, ProtocolFault>(
                ProtocolFault::UndecodableOutput,
            ),
        },
{
    match read_status(status) {
        Err(fault) => Err(fault),
        Ok(Err(e)) => Ok(Err(e)),
        Ok(Ok(())) => match decoded {
            Some(v) => Ok(v),
            None => Err(ProtocolFault::UndecodableOutput),
        },
    }
}

/// Settles the answer to an operation without a failure channel: the
/// output is the value, and one that could not be decoded is a fault.
pub fn settle_value<T>(decoded: Option<T>) -> (r: Result<T, ProtocolFault>)
    ensures
        match decoded {
            Some(v) => r == Ok::<T, ProtocolFault>(v),
            None => r == Err::<T, ProtocolFault>(ProtocolFault::UndecodableOutput),
        },
{
    match decoded {
        Some(v) => Ok(v),
        None => Err(ProtocolFault::UndecodableOutput),
    }
}

/// Rejects, before dispatch, a send that would make an NFT its own owner.
/// Deeper cycles are left to the engine, which sees the whole relation.
pub fn check_new_owner(
    collection_id: CollectionId,
    nft_id: NftId,
    new_owner: AccountIdOrCollectionNftTuple,
) -> (r: Result<(), RmrkError>)
    ensures
        r is Err <==> new_owner == AccountIdOrCollectionNftTuple::CollectionAndNftTuple(
            collection_id,
            nft_id,
        ),
        r is Err ==> r == Err::<(), RmrkError>(failed()),
{
    match new_owner {
        AccountIdOrCollectionNftTuple::CollectionAndNftTuple(c, n) => {
            if c == collection_id && n == nft_id {
                Err(RmrkError::ErrorCode(RmrkErrorCode::Failed))
            } else {
                Ok(())
            }
        },
        AccountIdOrCollectionNftTuple::AccountId(_) => Ok(()),
    }
}

/// Reading back the function id of an operation gives the operation, and
/// an id that reads back as an operation is that operation's id.
pub proof fn lemma_func_id_round_trip(op: ExtensionOp, id: u32)
    ensures
        op_of_func_id(op_func_id(op)) == Some(op),
        op_of_func_id(id) == Some(op) ==> op_func_id(op) == id,
{
}

} // verus!
