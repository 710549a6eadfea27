//! Where a sentence block is scored, and how a failed remote sentence call is retried.
use vstd::prelude::*;

verus! {

/// Blocks shorter than this (in characters) are not scored.
pub const SENTENCE_MIN_LENGTH: usize = 10;

/// Blocks shorter than this are scored locally only.
pub const SENTENCE_LLM_THRESHOLD: usize = 50;

/// Blocks longer than this go to the reasoning model.
pub const SENTENCE_REASONER_THRESHOLD: usize = 300;

/// Attempts made for one remote sentence call, the first included.
pub const SENTENCE_MAX_ATTEMPTS: usize = 3;

#[derive(Debug, Clone, Copy, PartialEq, Eq, Structural)]
pub enum SentenceRoute {
    Skip,
    LocalOnly,
    RemoteChat,
    RemoteReasoner,
}

/// Under 10 characters a block is skipped, under 50 scored locally, up to 300 sent to
/// the chat model and beyond that to the reasoning model.
pub open spec fn route_of(char_count: nat) -> SentenceRoute {
    if char_count < SENTENCE_MIN_LENGTH {
        SentenceRoute::Skip
    } else if char_count < SENTENCE_LLM_THRESHOLD {
        SentenceRoute::LocalOnly
    } else if char_count <= SENTENCE_REASONER_THRESHOLD {
        SentenceRoute::RemoteChat
    } else {
        SentenceRoute::RemoteReasoner
    }
}

pub fn sentence_route(char_count: usize) -> (r: SentenceRoute)
    ensures
        r == route_of(char_count as nat),
{
    if char_count < SENTENCE_MIN_LENGTH {
        SentenceRoute::Skip
    } else if char_count < SENTENCE_LLM_THRESHOLD {
        SentenceRoute::LocalOnly
    } else if char_count <= SENTENCE_REASONER_THRESHOLD {
        SentenceRoute::RemoteChat
    } else {
        SentenceRoute::RemoteReasoner
    }
}

impl SentenceRoute {
    /// The remote model a route uses, if any.
    pub fn model(&self) -> (r: Option<&'static str>)
        ensures
            match *self {
                SentenceRoute::RemoteChat => r == Some("deepseek-chat"),
                SentenceRoute::RemoteReasoner => r == Some("deepseek-reasoner"),
                _ => r is None,
            },
    {
        match self {
            SentenceRoute::RemoteChat => Some("deepseek-chat"),
            SentenceRoute::RemoteReasoner => Some("deepseek-reasoner"),
            _ => None,
        }
    }
}

/// After attempt number `attempt` (counted from 1) has failed: how many milliseconds
/// to wait before the next one, or `None` when the attempts are used up.
pub fn retry_backoff_ms(attempt: usize) -> (r: Option<u64>)
    ensures
        r == (if 1 <= attempt < SENTENCE_MAX_ATTEMPTS {
            Some((400 * attempt) as u64)
        } else {
            None::<u64>
        }),
{
    if attempt >= 1 && attempt < SENTENCE_MAX_ATTEMPTS {
        Some(400 * (attempt as u64))
    } else {
        None
    }
}

} // verus!
