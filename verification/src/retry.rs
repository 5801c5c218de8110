//! When a request that failed is made again, and after how long.

use crate::text::{parse_unsigned, unsigned_value};
use vstd::prelude::*;

verus! {

/// How often a request is made, and how its replies are taken.
#[derive(Clone, Copy, Debug, PartialEq, Eq, Structural)]
pub struct RetryPolicy {
    /// How often the request is made at most.
    pub attempts: u32,
    /// The longest wait between two attempts, in seconds, unless the server asks for
    /// another.
    pub longest_delay: u64,
    /// The server can ask for a wait, which is granted up to a minute.
    pub heeds_server: bool,
    /// Any status but one that calls for another attempt is taken as the answer.
    pub takes_any_status: bool,
}

/// How scholarly sources are asked.
#[verifier::allow_in_spec]
pub fn source_policy() -> (r: RetryPolicy)
    returns
        (RetryPolicy {
            attempts: 5,
            longest_delay: 30,
            heeds_server: true,
            takes_any_status: true,
        }),
{
    RetryPolicy { attempts: 5, longest_delay: 30, heeds_server: true, takes_any_status: true }
}

/// How models are asked.
#[verifier::allow_in_spec]
pub fn model_policy() -> (r: RetryPolicy)
    returns
        (RetryPolicy {
            attempts: 5,
            longest_delay: 30,
            heeds_server: true,
            takes_any_status: false,
        }),
{
    RetryPolicy { attempts: 5, longest_delay: 30, heeds_server: true, takes_any_status: false }
}

/// How PDFs are downloaded.
#[verifier::allow_in_spec]
pub fn download_policy() -> (r: RetryPolicy)
    returns
        (RetryPolicy {
            attempts: 4,
            longest_delay: 20,
            heeds_server: false,
            takes_any_status: false,
        }),
{
    RetryPolicy { attempts: 4, longest_delay: 20, heeds_server: false, takes_any_status: false }
}

/// How often a request was made before, and how long to wait before the next time.
#[derive(Clone, Copy, Debug, PartialEq, Eq, Structural)]
pub struct RetryState {
    pub attempt: u32,
    pub delay: u64,
}

/// What became of a request.
#[derive(Debug)]
pub enum Reply {
    /// A response came, with a status and perhaps a wait that the server asks for.
    Answered { status: u16, retry_after: Option<String> },
    /// No response came, or it broke off.
    Failed,
}

/// What to do after a reply.
#[derive(Clone, Copy, Debug, PartialEq, Eq, Structural)]
pub enum RetryAction {
    /// Take the response.
    Accept,
    /// Report the status as an error.
    Reject,
    /// Wait, and make the request again in the state; or report that all attempts
    /// are spent where there is none.
    Wait { seconds: u64, next: Option<RetryState> },
    /// Report the failure.
    GiveUp,
}

/// The status says that the server is overloaded or in trouble.
pub open spec fn transient(status: u16) -> bool {
    status == 429 || 500 <= status <= 599
}

/// The status says that the request succeeded.
pub open spec fn successful(status: u16) -> bool {
    200 <= status <= 299
}

/// The state before the first attempt.
#[verifier::allow_in_spec]
pub fn first_attempt() -> (r: RetryState)
    returns
        (RetryState { attempt: 0, delay: 1 }),
{
    RetryState { attempt: 0, delay: 1 }
}

/// The state after an attempt: one more, and twice the delay up to the longest; none
/// where all attempts are spent.
pub open spec fn next_attempt(policy: RetryPolicy, state: RetryState) -> Option<RetryState> {
    if state.attempt + 1 < policy.attempts {
        Some(
            RetryState {
                attempt: (state.attempt + 1) as u32,
                delay: if state.delay * 2 < policy.longest_delay {
                    (state.delay * 2) as u64
                } else {
                    policy.longest_delay
                },
            },
        )
    } else {
        None
    }
}

/// The wait that the server asks for, in seconds and up to a minute; else the delay,
/// which is also cut there.
pub open spec fn server_wait(retry_after: Option<Seq<char>>, delay: u64) -> u64 {
    let asked = match retry_after {
        Some(value) => match unsigned_value(value, 0xffff_ffff_ffff_ffff) {
            Some(seconds) => seconds,
            None => delay as nat,
        },
        None => delay as nat,
    };
    if asked < 60 {
        asked as u64
    } else {
        60
    }
}

/// What to do after a response with the status.
pub open spec fn action_after_answer(
    policy: RetryPolicy,
    state: RetryState,
    status: u16,
    retry_after: Option<Seq<char>>,
) -> RetryAction {
    if transient(status) {
        RetryAction::Wait {
            seconds: if policy.heeds_server {
                server_wait(retry_after, state.delay)
            } else {
                state.delay
            },
            next: next_attempt(policy, state),
        }
    } else if policy.takes_any_status || successful(status) {
        RetryAction::Accept
    } else {
        RetryAction::Reject
    }
}

/// What to do after no response came, or it broke off.
pub open spec fn action_after_failure(policy: RetryPolicy, state: RetryState) -> RetryAction {
    if state.attempt + 1 < policy.attempts {
        RetryAction::Wait { seconds: state.delay, next: next_attempt(policy, state) }
    } else {
        RetryAction::GiveUp
    }
}

fn advance(policy: &RetryPolicy, state: &RetryState) -> (r: Option<RetryState>)
    ensures
        r == next_attempt(*policy, *state),
{
    if policy.attempts > 0 && state.attempt < policy.attempts - 1 {
        let half: u64 = policy.longest_delay / 2;
        let doubled = if state.delay < half || (state.delay == half && policy.longest_delay % 2 == 1) {
            state.delay * 2
        } else {
            policy.longest_delay
        };
        Some(RetryState { attempt: state.attempt + 1, delay: doubled })
    } else {
        None
    }
}

/// What to do after the reply.
pub fn after_reply(policy: &RetryPolicy, state: &RetryState, reply: &Reply) -> (r: RetryAction)
    ensures
        r == (match reply {
            Reply::Answered { status, retry_after } => action_after_answer(
                *policy,
                *state,
                *status,
                crate::text::opt_text(*retry_after),
            ),
            Reply::Failed => action_after_failure(*policy, *state),
        }),
{
    match reply {
        Reply::Answered { status, retry_after } => {
            let code = *status;
            if code == 429 || (500 <= code && code <= 599) {
                let asked: u64 = match retry_after {
                    Some(value) => match parse_unsigned(value, 0xffff_ffff_ffff_ffff) {
                        Some(seconds) => seconds,
                        None => state.delay,
                    },
                    None => state.delay,
                };
                let seconds: u64 = if !policy.heeds_server {
                    state.delay
                } else if asked < 60 {
                    asked
                } else {
                    60
                };
                RetryAction::Wait { seconds, next: advance(policy, state) }
            } else if policy.takes_any_status || (200 <= code && code <= 299) {
                RetryAction::Accept
            } else {
                RetryAction::Reject
            }
        },
        Reply::Failed => {
            match advance(policy, state) {
                Some(next) => RetryAction::Wait { seconds: state.delay, next: Some(next) },
                None => RetryAction::GiveUp,
            }
        },
    }
}

/// The state is one that a request can be in.
pub open spec fn reachable(policy: RetryPolicy, state: RetryState) -> bool {
    state.attempt < policy.attempts && 1 <= state.delay <= policy.longest_delay
}

/// A request is made no more often than the policy says, and no wait is longer than
/// a minute or the longest delay: each state that follows a state of a request is one
/// of a request with one attempt more.
pub proof fn law_attempts_and_waits_are_bounded(
    policy: RetryPolicy,
    state: RetryState,
    status: u16,
    retry_after: Option<Seq<char>>,
)
    requires
        reachable(policy, state),
        policy.longest_delay <= 60,
    ensures
        action_after_answer(policy, state, status, retry_after) matches RetryAction::Wait {
            seconds,
            next,
        } ==> seconds <= 60 && (next matches Some(following) ==> reachable(policy, following)
            && following.attempt == state.attempt + 1),
        action_after_failure(policy, state) matches RetryAction::Wait {
            seconds,
            next,
        } ==> seconds <= policy.longest_delay && (next matches Some(following) ==> reachable(
            policy,
            following,
        ) && following.attempt == state.attempt + 1),
{
}

} // verus!
