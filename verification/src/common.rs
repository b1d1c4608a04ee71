//! The closed set of error kinds shared by every fallible operation.

use vstd::prelude::*;

verus! {

/// Every failure the library can report: arithmetic overflow,
/// misalignment, pool exhaustion, out-of-range or unmapped addresses,
/// region mismatches, host-mapping failures, malformed images, and
/// address-placement mismatches.
#[derive(Debug, Clone)]
pub enum Error {
    NoError,
    Common(String),
    CreateMMap(String),
    UnallignedAddress,
    UnallignedSize,
    NoEnoughMemory,
    AddressNotInRange,
    RootPageIdxNoExist,
    IOError(String),
    NoEnoughSpace,
    RangeUnavailable,
    Overflow,
    WrongELFFormat,
    ELFLoadError(&'static str),
    InterpreterFileErr,
    MMampError,
    UnmatchRegion,
    AddressDoesMatch,
    Locked,
    ZeroCount,
    QueueFull,
    NoData,
    NoneIdx,
    AddressNotMap,
}

impl Default for Error {
    fn default() -> (r: Self)
        ensures
            r is NoError,
    {
        Error::NoError
    }
}

} // verus!
