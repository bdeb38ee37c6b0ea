//! The status code of a response.

use vstd::prelude::*;

verus! {

/// A status code: a number from 100 to 999.
#[derive(Debug, Clone, Copy, PartialEq, Eq, Structural)]
pub struct StatusCode {
    code: u16,
}

impl View for StatusCode {
    type V = int;

    closed spec fn view(&self) -> int {
        self.code as int
    }
}

impl StatusCode {
    #[verifier::type_invariant]
    closed spec fn in_range(self) -> bool {
        100 <= self.code <= 999
    }

    /// The status code of the number `code`, where there is one.
    pub fn from_u16(code: u16) -> (status: Option<StatusCode>)
        ensures
            status is Some <==> 100 <= code <= 999,
            status matches Some(made) ==> made@ == code,
    {
        if 100 <= code && code <= 999 {
            Some(StatusCode { code })
        } else {
            None
        }
    }

    /// 200, the status of a response that declares no other.
    pub fn ok() -> (status: StatusCode)
        ensures
            status@ == 200,
    {
        StatusCode { code: 200 }
    }

    /// The number of the status code.
    pub fn as_u16(&self) -> (code: u16)
        ensures
            code == self@,
            100 <= code <= 999,
    {
        proof {
            use_type_invariant(self);
        }
        self.code
    }
}

} // verus!
