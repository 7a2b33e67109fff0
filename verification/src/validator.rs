//! The request validator cache: the replay-prevention and at-most-once
//! admission layer shared between the check and deliver phases.

use crate::error::ManyError;
use crate::protocol::{RequestMessage, ResponseMessage};
use vstd::prelude::*;

verus! {

/// The hooks a validator offers around request execution.
pub trait RequestValidator {
    /// Which envelopes the validator admits.
    spec fn spec_envelope_admitted(&self, envelope: Seq<u8>) -> bool;

    /// Which opened requests the validator admits.
    spec fn spec_request_admitted(&self, request: RequestMessage) -> bool;

    /// Validates the envelope, prior to executing the message.
    fn validate_envelope(&self, envelope: &Vec<u8>) -> (r: Result<(), ManyError>)
        ensures
            r is Ok <==> self.spec_envelope_admitted(envelope@),
    ;

    /// Validates the request message after opening the envelope, but before
    /// executing it.
    fn validate_request(&self, request: &RequestMessage) -> (r: Result<(), ManyError>)
        ensures
            r is Ok <==> self.spec_request_admitted(*request),
    ;

    /// Records a successfully executed message.
    fn message_executed(&mut self, request_envelope: &Vec<u8>, response: &ResponseMessage) -> Result<
        (),
        ManyError,
    >;
}

/// A validator that runs another validator's checks but never records an
/// execution.
pub struct ValidateOnlyRequestValidator<T: RequestValidator> {
    pub backend: T,
}

impl<T: RequestValidator> ValidateOnlyRequestValidator<T> {
    /// Wraps a validator.
    pub fn new(backend: T) -> ValidateOnlyRequestValidator<T> {
        ValidateOnlyRequestValidator { backend }
    }
}

impl<T: RequestValidator> RequestValidator for ValidateOnlyRequestValidator<T> {
    /// Delegation: the wrapper admits exactly the envelopes its backend admits.
    open spec fn spec_envelope_admitted(&self, envelope: Seq<u8>) -> bool {
        self.backend.spec_envelope_admitted(envelope)
    }

    /// Delegation: the wrapper admits exactly the requests its backend admits.
    open spec fn spec_request_admitted(&self, request: RequestMessage) -> bool {
        self.backend.spec_request_admitted(request)
    }

    fn validate_envelope(&self, envelope: &Vec<u8>) -> Result<(), ManyError> {
        self.backend.validate_envelope(envelope)
    }

    fn validate_request(&self, request: &RequestMessage) -> Result<(), ManyError> {
        self.backend.validate_request(request)
    }

    /// The no-record law: the wrapper validates without committing anything,
    /// so recording succeeds and leaves the wrapped validator untouched.
    fn message_executed(&mut self, _request_envelope: &Vec<u8>, _response: &ResponseMessage) -> (r:
        Result<(), ManyError>)
        ensures
            r is Ok,
            *final(self) == *old(self),
    {
        Ok(())
    }
}

/// The replay cache: remembers every envelope recorded as executed and
/// rejects it on any further admission check within the retention window
/// (the cache's lifetime).
pub struct ReplayCache {
    seen: Vec<Vec<u8>>,
}

impl ReplayCache {
    /// The set of envelopes the cache remembers.
    pub closed spec fn seen_set(&self) -> Set<Seq<u8>> {
        Set::new(
            |e: Seq<u8>|
                exists|i: int| 0 <= i < self.seen@.len() && (#[trigger] self.seen@[i])@ == e,
        )
    }

    /// An empty cache.
    pub fn new() -> (r: ReplayCache)
        ensures
            r.seen_set() == Set::<Seq<u8>>::empty(),
    {
        let r = ReplayCache { seen: Vec::new() };
        proof {
            assert(r.seen_set() =~= Set::<Seq<u8>>::empty());
        }
        r
    }

    /// Accepts an envelope exactly when it has not been recorded.
    pub fn check_envelope(&self, envelope: &Vec<u8>) -> (r: Result<(), ManyError>)
        ensures
            r is Ok <==> !self.seen_set().contains(envelope@),
            r matches Err(e) ==> e.message matches Some(m) && m@ == "Transaction already in cache"@,
    {
        let n = self.seen.len();
        let mut i: usize = 0;
        while i < n
            invariant
                i <= n,
                n == self.seen@.len(),
                forall|j: int| 0 <= j < i ==> (#[trigger] self.seen@[j])@ != envelope@,
            decreases n - i,
        {
            if &self.seen[i] == envelope {
                assert(self.seen@[i as int]@ == envelope@);
                assert(self.seen_set().contains(envelope@));
                return Err(ManyError::unknown(alloc_str_already_in_cache()));
            }
            assert(self.seen@[i as int]@ != envelope@);
            i = i + 1;
        }
        assert(!self.seen_set().contains(envelope@));
        Ok(())
    }

    /// Accepts every message; domain-independent request checks live with
    /// the server's own admission rules.
    pub fn check_request(&self, _request: &RequestMessage) -> (r: Result<(), ManyError>)
        ensures
            r is Ok,
    {
        Ok(())
    }

    /// Records an executed envelope so further submissions are rejected.
    pub fn record_executed(&mut self, request_envelope: &Vec<u8>, _response: &ResponseMessage) -> (r:
        Result<(), ManyError>)
        ensures
            r is Ok,
            final(self).seen_set() == old(self).seen_set().insert(request_envelope@),
    {
        self.seen.push(request_envelope.clone());
        proof {
            assert(self.seen@[self.seen@.len() - 1]@ == request_envelope@);
            assert forall|e: Seq<u8>| true implies #[trigger] self.seen_set().contains(e) == old(
                self,
            ).seen_set().insert(request_envelope@).contains(e) by {
                if self.seen_set().contains(e) {
                    let i = choose|i: int|
                        0 <= i < self.seen@.len() && (#[trigger] self.seen@[i])@ == e;
                    if i < old(self).seen@.len() {
                        assert(old(self).seen@[i]@ == e);
                    }
                }
                if old(self).seen_set().contains(e) {
                    let i = choose|i: int|
                        0 <= i < old(self).seen@.len() && (#[trigger] old(self).seen@[i])@ == e;
                    assert(self.seen@[i]@ == e);
                }
            }
            assert(self.seen_set() =~= old(self).seen_set().insert(request_envelope@));
        }
        Ok(())
    }
}

impl RequestValidator for ReplayCache {
    /// The cache admits exactly the envelopes it has not recorded.
    open spec fn spec_envelope_admitted(&self, envelope: Seq<u8>) -> bool {
        !self.seen_set().contains(envelope)
    }

    /// The cache admits every opened request.
    open spec fn spec_request_admitted(&self, request: RequestMessage) -> bool {
        true
    }

    fn validate_envelope(&self, envelope: &Vec<u8>) -> Result<(), ManyError> {
        self.check_envelope(envelope)
    }

    fn validate_request(&self, request: &RequestMessage) -> Result<(), ManyError> {
        self.check_request(request)
    }

    fn message_executed(&mut self, request_envelope: &Vec<u8>, response: &ResponseMessage) -> (r:
        Result<(), ManyError>)
        ensures
            r is Ok,
            final(self).seen_set() == old(self).seen_set().insert(request_envelope@),
    {
        self.record_executed(request_envelope, response)
    }
}

/// Law: once an envelope's execution is recorded, a second admission check
/// of the same envelope fails.
pub fn replay_is_rejected(cache: &mut ReplayCache, envelope: &Vec<u8>, response: &ResponseMessage)
    -> (r: bool)
    ensures
        r,
{
    let _ = cache.record_executed(envelope, response);
    cache.check_envelope(envelope).is_err()
}

/// The replay rejection message.
fn alloc_str_already_in_cache() -> (r: String)
    ensures
        r@ == "Transaction already in cache"@,
{
    let s = "Transaction already in cache";
    s.to_owned()
}

} // verus!
