//! The publisher connection: how often to try connecting, and what to do
//! with a message the publisher sends.

use vstd::prelude::*;
use vstd::string::StringExecFns;

use crate::hex::{decimal_text, hex_encode, hex_text, push_decimal};

verus! {

/// The payload of a message from the publisher.
#[derive(Debug)]
pub enum PublisherPayload {
    /// The publisher decided an instance (identified by its id bytes, if given).
    Decided { xt_id: Option<Vec<u8>>, decision: bool },
    /// A vote relayed by the publisher.
    Vote,
    /// Any other payload.
    Other,
}

/// What to do with a message from the publisher.
#[derive(Debug)]
pub enum PublisherAction {
    /// Apply the publisher's decision to the instance with this (hex) id.
    ApplyDecision { xt_id: String, decision: bool },
    /// Votes from the publisher are not for the sidecar: ignore.
    Ignore,
    /// A message the sidecar does not handle.
    Unhandled,
}

/// The action for a decoded publisher message. A decision without an id
/// goes to the empty id.
pub fn publisher_action(payload: Option<PublisherPayload>) -> (a: PublisherAction)
    ensures
        match payload {
            Some(PublisherPayload::Decided { xt_id, decision }) => (a matches PublisherAction::ApplyDecision { xt_id: id, decision: d }
                && d == decision && id@ == match xt_id {
                Some(b) => hex_text(b@),
                None => Seq::empty(),
            }),
            Some(PublisherPayload::Vote) => a is Ignore,
            _ => a is Unhandled,
        },
{
    match payload {
        Some(PublisherPayload::Decided { xt_id, decision }) => {
            let id = match xt_id {
                Some(b) => hex_encode(b.as_slice()),
                None => String::new(),
            };
            PublisherAction::ApplyDecision { xt_id: id, decision }
        },
        Some(PublisherPayload::Vote) => PublisherAction::Ignore,
        _ => PublisherAction::Unhandled,
    }
}

/// How many connection attempts a retrying connect makes: `max_retries`,
/// or without limit (`u32::MAX`) when it is zero.
pub fn connect_attempts(max_retries: u32) -> (n: u32)
    ensures
        max_retries == 0 ==> n == u32::MAX,
        max_retries != 0 ==> n == max_retries,
{
    if max_retries == 0 {
        u32::MAX
    } else {
        max_retries
    }
}

/// After attempt number `attempt` (counting from 1) failed: the number of the
/// next attempt, or `None` when all `max_attempts` were made.
pub fn next_attempt(attempt: u32, max_attempts: u32) -> (r: Option<u32>)
    requires
        1 <= attempt <= max_attempts,
    ensures
        attempt < max_attempts ==> r == Some((attempt + 1) as u32),
        attempt == max_attempts ==> r is None,
{
    if attempt < max_attempts {
        Some(attempt + 1)
    } else {
        None
    }
}

/// The message of a connect that gave up after `max_attempts` attempts.
pub open spec fn gave_up_message(max_attempts: u32) -> Seq<char> {
    "failed after "@ + decimal_text(max_attempts as nat) + " attempts"@
}

pub fn gave_up(max_attempts: u32) -> (m: String)
    ensures
        m@ == gave_up_message(max_attempts),
{
    let mut m = String::from_str("failed after ");
    push_decimal(&mut m, max_attempts as u64);
    m.append(" attempts");
    m
}

} // verus!
