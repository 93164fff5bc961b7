//! The status-code field: an HTTP status code, valid exactly when it
//! lies in the range 100 to 599.

use vstd::prelude::*;

verus! {

/// A semantically validated HTTP status code.
#[derive(Debug, Clone, Copy, PartialEq, Eq, Structural)]
pub struct StatusCode {
    pub code: u16,
}

/// The valid HTTP status code range.
pub open spec fn valid_status(n: int) -> bool {
    100 <= n <= 599
}

/// What an integer yields as a status code: the code exactly when it is
/// in the valid range.
pub open spec fn spec_status_from_u16(code: u16) -> Option<StatusCode> {
    if valid_status(code as int) {
        Some(StatusCode { code })
    } else {
        None
    }
}

impl StatusCode {
    pub open spec fn is_valid(self) -> bool {
        valid_status(self.code as int)
    }

    /// Validate an integer as a status code.
    pub fn from_u16(code: u16) -> (r: Option<StatusCode>)
        ensures
            r == spec_status_from_u16(code),
    {
        if 100 <= code && code <= 599 {
            Some(StatusCode { code })
        } else {
            None
        }
    }

    pub fn as_u16(self) -> (r: u16)
        ensures
            r == self.code,
    {
        self.code
    }
}

} // verus!
