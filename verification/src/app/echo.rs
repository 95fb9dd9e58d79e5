//! Issuing and checking Echo values, which the caller owns.
use vstd::prelude::*;

use crate::error::ValueError;
use crate::message::Echo;
use crate::storage::Endpoint;

verus! {

/// What an Echo policy decides on.
#[derive(Debug)]
pub struct EchoCheck {
    /// The received value, if there is one and it is well-formed.
    pub echo: Result<Option<Echo>, ValueError>,
    /// Where the request came from.
    pub peer: Endpoint,
    /// The caller's clock.
    pub now_ms: u64,
    /// Was the request verified in an attached security context?
    pub oscore_protected: bool,
}

/// What an Echo policy decides.
#[derive(Debug)]
pub enum EchoDecision {
    /// Go on with the request.
    Accept,
    /// Answer 4.01 with this challenge, and do nothing else.
    Challenge(Echo),
    /// Answer 4.01 without a challenge, and do nothing else.
    Reject,
}

/// A server's Echo policy, called before a body is assembled or a handler runs.
pub trait EchoPolicy {
    /// May the policy be asked about this request?
    spec fn accepts(&self, check: EchoCheck) -> bool;

    /// May the policy decide like this?
    spec fn gives(&self, check: EchoCheck, d: EchoDecision) -> bool;

    /// Decide on a request.
    fn decide(&self, check: EchoCheck) -> (d: EchoDecision)
        requires
            self.accepts(check),
        ensures
            self.gives(check, d),
    ;
}

impl<F: Fn(EchoCheck) -> EchoDecision> EchoPolicy for F {
    open spec fn accepts(&self, check: EchoCheck) -> bool {
        call_requires(*self, (check,))
    }

    open spec fn gives(&self, check: EchoCheck, d: EchoDecision) -> bool {
        call_ensures(*self, (check,), d)
    }

    fn decide(&self, check: EchoCheck) -> (d: EchoDecision) {
        self(check)
    }
}

/// Does a policy decide like another?
pub open spec fn decides_like<P: EchoPolicy + ?Sized>(
    set: Option<Box<dyn EchoPolicy>>,
    policy: &P,
) -> bool {
    set.is_some() && forall|check: EchoCheck, d: EchoDecision| #[trigger]
        set->0.gives(check, d) == policy.gives(check, d)
}

/// Can the policy be asked about any request?
pub open spec fn policy_total<P: EchoPolicy + ?Sized>(policy: &P) -> bool {
    forall|check: EchoCheck| #[trigger] policy.accepts(check)
}

} // verus!
