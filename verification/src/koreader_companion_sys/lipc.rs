//! Result codes of the inter-process property bus.
use vstd::prelude::*;

verus! {

/// A result code of the property bus.
#[derive(Debug, Clone, Copy, PartialEq, Eq, Structural)]
pub enum LIPCcode {
    Success,
    ErrorUnknown,
    ErrorInternal,
    ErrorNoSuchSource,
    ErrorOperationNotSupported,
    ErrorOutOfMemory,
    ErrorSubscriptionFailed,
    ErrorNoSuchParam,
    ErrorNoSuchProperty,
    ErrorAccessNotAllowed,
    ErrorBufferTooSmall,
    ErrorInvalidHandle,
    ErrorInvalidArg,
    ErrorOperationNotAllowed,
    ErrorParamsSizeExceeded,
    ErrorTimedOut,
    ErrorServiceNameTooLong,
    ErrorDuplicateServiceName,
    ErrorInitDbus,
    PropErrorInvalidState,
    PropErrorNotInitialized,
    PropErrorInternal,
}

/// The number the bus uses for each code.
pub open spec fn lipc_code_value(c: LIPCcode) -> i32 {
    match c {
        LIPCcode::Success => 0,
        LIPCcode::ErrorUnknown => 1,
        LIPCcode::ErrorInternal => 2,
        LIPCcode::ErrorNoSuchSource => 3,
        LIPCcode::ErrorOperationNotSupported => 4,
        LIPCcode::ErrorOutOfMemory => 5,
        LIPCcode::ErrorSubscriptionFailed => 6,
        LIPCcode::ErrorNoSuchParam => 7,
        LIPCcode::ErrorNoSuchProperty => 8,
        LIPCcode::ErrorAccessNotAllowed => 9,
        LIPCcode::ErrorBufferTooSmall => 10,
        LIPCcode::ErrorInvalidHandle => 11,
        LIPCcode::ErrorInvalidArg => 12,
        LIPCcode::ErrorOperationNotAllowed => 13,
        LIPCcode::ErrorParamsSizeExceeded => 14,
        LIPCcode::ErrorTimedOut => 15,
        LIPCcode::ErrorServiceNameTooLong => 16,
        LIPCcode::ErrorDuplicateServiceName => 17,
        LIPCcode::ErrorInitDbus => 18,
        LIPCcode::PropErrorInvalidState => 0x100,
        LIPCcode::PropErrorNotInitialized => 0x101,
        LIPCcode::PropErrorInternal => 0x102,
    }
}

/// The code that the number `v` stands for, if any.
pub open spec fn lipc_code_of(v: i32) -> Option<LIPCcode> {
    if v == 0 {
        Some(LIPCcode::Success)
    } else if v == 1 {
        Some(LIPCcode::ErrorUnknown)
    } else if v == 2 {
        Some(LIPCcode::ErrorInternal)
    } else if v == 3 {
        Some(LIPCcode::ErrorNoSuchSource)
    } else if v == 4 {
        Some(LIPCcode::ErrorOperationNotSupported)
    } else if v == 5 {
        Some(LIPCcode::ErrorOutOfMemory)
    } else if v == 6 {
        Some(LIPCcode::ErrorSubscriptionFailed)
    } else if v == 7 {
        Some(LIPCcode::ErrorNoSuchParam)
    } else if v == 8 {
        Some(LIPCcode::ErrorNoSuchProperty)
    } else if v == 9 {
        Some(LIPCcode::ErrorAccessNotAllowed)
    } else if v == 10 {
        Some(LIPCcode::ErrorBufferTooSmall)
    } else if v == 11 {
        Some(LIPCcode::ErrorInvalidHandle)
    } else if v == 12 {
        Some(LIPCcode::ErrorInvalidArg)
    } else if v == 13 {
        Some(LIPCcode::ErrorOperationNotAllowed)
    } else if v == 14 {
        Some(LIPCcode::ErrorParamsSizeExceeded)
    } else if v == 15 {
        Some(LIPCcode::ErrorTimedOut)
    } else if v == 16 {
        Some(LIPCcode::ErrorServiceNameTooLong)
    } else if v == 17 {
        Some(LIPCcode::ErrorDuplicateServiceName)
    } else if v == 18 {
        Some(LIPCcode::ErrorInitDbus)
    } else if v == 0x100 {
        Some(LIPCcode::PropErrorInvalidState)
    } else if v == 0x101 {
        Some(LIPCcode::PropErrorNotInitialized)
    } else if v == 0x102 {
        Some(LIPCcode::PropErrorInternal)
    } else {
        None
    }
}

impl LIPCcode {
    /// The number the bus uses for this code.
    pub fn code(&self) -> (r: i32)
        ensures
            r == lipc_code_value(*self),
    {
        match self {
            LIPCcode::Success => 0,
            LIPCcode::ErrorUnknown => 1,
            LIPCcode::ErrorInternal => 2,
            LIPCcode::ErrorNoSuchSource => 3,
            LIPCcode::ErrorOperationNotSupported => 4,
            LIPCcode::ErrorOutOfMemory => 5,
            LIPCcode::ErrorSubscriptionFailed => 6,
            LIPCcode::ErrorNoSuchParam => 7,
            LIPCcode::ErrorNoSuchProperty => 8,
            LIPCcode::ErrorAccessNotAllowed => 9,
            LIPCcode::ErrorBufferTooSmall => 10,
            LIPCcode::ErrorInvalidHandle => 11,
            LIPCcode::ErrorInvalidArg => 12,
            LIPCcode::ErrorOperationNotAllowed => 13,
            LIPCcode::ErrorParamsSizeExceeded => 14,
            LIPCcode::ErrorTimedOut => 15,
            LIPCcode::ErrorServiceNameTooLong => 16,
            LIPCcode::ErrorDuplicateServiceName => 17,
            LIPCcode::ErrorInitDbus => 18,
            LIPCcode::PropErrorInvalidState => 0x100,
            LIPCcode::PropErrorNotInitialized => 0x101,
            LIPCcode::PropErrorInternal => 0x102,
        }
    }

    /// The code a number from the bus stands for; `None` for a number
    /// that is no code.
    pub fn from_code(v: i32) -> (r: Option<LIPCcode>)
        ensures
            r == lipc_code_of(v),
    {
        if v == 0 {
            Some(LIPCcode::Success)
        } else if v == 1 {
            Some(LIPCcode::ErrorUnknown)
        } else if v == 2 {
            Some(LIPCcode::ErrorInternal)
        } else if v == 3 {
            Some(LIPCcode::ErrorNoSuchSource)
        } else if v == 4 {
            Some(LIPCcode::ErrorOperationNotSupported)
        } else if v == 5 {
            Some(LIPCcode::ErrorOutOfMemory)
        } else if v == 6 {
            Some(LIPCcode::ErrorSubscriptionFailed)
        } else if v == 7 {
            Some(LIPCcode::ErrorNoSuchParam)
        } else if v == 8 {
            Some(LIPCcode::ErrorNoSuchProperty)
        } else if v == 9 {
            Some(LIPCcode::ErrorAccessNotAllowed)
        } else if v == 10 {
            Some(LIPCcode::ErrorBufferTooSmall)
        } else if v == 11 {
            Some(LIPCcode::ErrorInvalidHandle)
        } else if v == 12 {
            Some(LIPCcode::ErrorInvalidArg)
        } else if v == 13 {
            Some(LIPCcode::ErrorOperationNotAllowed)
        } else if v == 14 {
            Some(LIPCcode::ErrorParamsSizeExceeded)
        } else if v == 15 {
            Some(LIPCcode::ErrorTimedOut)
        } else if v == 16 {
            Some(LIPCcode::ErrorServiceNameTooLong)
        } else if v == 17 {
            Some(LIPCcode::ErrorDuplicateServiceName)
        } else if v == 18 {
            Some(LIPCcode::ErrorInitDbus)
        } else if v == 0x100 {
            Some(LIPCcode::PropErrorInvalidState)
        } else if v == 0x101 {
            Some(LIPCcode::PropErrorNotInitialized)
        } else if v == 0x102 {
            Some(LIPCcode::PropErrorInternal)
        } else {
            None
        }
    }
}

/// Every code reads back from its number, and a number that reads as a
/// code is that code's number: the two are inverse.
pub proof fn lemma_lipc_code_round_trip(c: LIPCcode, v: i32)
    ensures
        lipc_code_of(lipc_code_value(c)) == Some(c),
        lipc_code_of(v) == Some(c) ==> lipc_code_value(c) == v,
{
}

} // verus!
