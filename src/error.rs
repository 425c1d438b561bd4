use vstd::prelude::*;

verus! {

/// The single domain failure that the engine reports.
#[derive(Clone, Copy, Debug, PartialEq, Eq, Structural)]
pub enum RmrkErrorCode {
    Failed,
}

/// Error returned by every fallible operation.
#[derive(Clone, Copy, Debug, PartialEq, Eq, Structural)]
pub enum RmrkError {
    ErrorCode(RmrkErrorCode),
}

/// The error that every engine-reported failure becomes.
pub open spec fn failed() -> RmrkError {
    RmrkError::ErrorCode(RmrkErrorCode::Failed)
}

impl From<RmrkErrorCode> for RmrkError {
    fn from(error_code: RmrkErrorCode) -> (r: RmrkError) {
        RmrkError::ErrorCode(error_code)
    }
}

impl vstd::std_specs::convert::FromSpecImpl<RmrkErrorCode> for RmrkError {
    open spec fn obeys_from_spec() -> bool {
        true
    }

    open spec fn from_spec(v: RmrkErrorCode) -> RmrkError {
        RmrkError::ErrorCode(v)
    }
}

impl RmrkErrorCode {
    /// Maps the status word of an engine call: 0 is success and 1 is the
    /// domain failure. Any other word is a protocol fault that the caller
    /// must treat as fatal, so it is not admitted here.
    pub fn from_status_code(status_code: u32) -> (r: Result<(), RmrkErrorCode>)
        requires
            status_code <= 1,
        ensures
            status_code == 0 ==> r == Ok::<(), RmrkErrorCode>(()),
            status_code == 1 ==> r == Err::<(), RmrkErrorCode>(RmrkErrorCode::Failed),
    {
        if status_code == 0 {
            Ok(())
        } else {
            Err(RmrkErrorCode::Failed)
        }
    }
}

} // verus!
