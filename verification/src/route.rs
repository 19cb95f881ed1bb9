//! The one route of the service.

use vstd::prelude::*;

verus! {

/// What the service answers to a request.
#[derive(Debug, Clone, Copy, PartialEq, Eq)]
pub struct Reply {
    /// The HTTP status code.
    pub status: u16,
    /// The body, as text.
    pub body: &'static str,
}

/// Whether `reply` is the answer to `GET /`: status 200 and the greeting.
pub open spec fn answers_root(reply: Reply) -> bool {
    reply.status == 200 && reply.body@ == "Hello, World!"@
}

/// Answers `GET /`. The answer depends on nothing: not on the request, nor
/// on what was answered before.
pub fn root() -> (reply: Reply)
    ensures
        answers_root(reply),
{
    Reply { status: 200, body: "Hello, World!" }
}

/// Any two answers to `GET /` have the same status and the same body.
pub proof fn lemma_root_replies_agree(first: Reply, second: Reply)
    requires
        answers_root(first),
        answers_root(second),
    ensures
        first.status == second.status,
        first.body@ == second.body@,
{
}

} // verus!
