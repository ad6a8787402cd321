//! Administration decisions and the request errors that a front end reports:
//! who may act, which actions a page offers, and the status of each error.
use vstd::prelude::*;
use crate::ballot::VoteError;
use crate::options::CreationError;

verus! {

/// The server's admin token; `None` turns the server-wide admin actions off.
pub struct AdminToken(pub Option<String>);

/// An action requested from an admin page.
#[derive(Debug, Clone, Copy, PartialEq, Eq, Structural)]
pub enum AdminAction {
    /// Removes every poll.
    PurgeDatabase,
    /// Empties the rate-limit store.
    ResetLimits,
    /// Lists every poll.
    ListPolls,
    /// Zeroes a poll's votes.
    ResetVotes,
    /// Removes a poll.
    DeletePoll,
}

/// A request to an admin page: the token offered and the action asked for.
pub struct AdminParams {
    pub token: String,
    pub action: AdminAction,
}

/// Why a request failed, as reported to the requester.
#[derive(Debug, Clone, PartialEq, Eq)]
pub enum UserError {
    /// Something failed on the server's side.
    InternalError,
    /// The creation input was refused.
    PollCreation(CreationError),
    /// The ballot was refused.
    Voting(VoteError),
    /// The requester is rate-limited.
    TooManyRequests,
    /// The token offered is not the admin token.
    InvalidAdminToken,
    /// The server has no admin token.
    AdminOff,
    /// The action is not offered on that page.
    InvalidAdminAction,
}

/// The HTTP status for an error.
pub open spec fn status_spec(e: UserError) -> u16 {
    match e {
        UserError::InternalError => 500,
        UserError::PollCreation(_) | UserError::Voting(_) | UserError::AdminOff
        | UserError::InvalidAdminAction => 400,
        UserError::InvalidAdminToken => 401,
        UserError::TooManyRequests => 429,
    }
}

impl UserError {
    /// The HTTP status code to answer with.
    pub fn status_code(&self) -> (r: u16)
        ensures
            r == status_spec(*self),
    {
        match self {
            UserError::InternalError => 500,
            UserError::PollCreation(_) | UserError::Voting(_) | UserError::AdminOff
            | UserError::InvalidAdminAction => 400,
            UserError::InvalidAdminToken => 401,
            UserError::TooManyRequests => 429,
        }
    }
}

/// Whether an action is one of the server-wide ones.
pub open spec fn is_server_action(a: AdminAction) -> bool {
    a == AdminAction::PurgeDatabase || a == AdminAction::ResetLimits || a == AdminAction::ListPolls
}

/// Whether an action is one of the per-poll ones.
pub open spec fn is_poll_action(a: AdminAction) -> bool {
    a == AdminAction::ResetVotes || a == AdminAction::DeletePoll
}

/// Whether two strings hold the same characters.
fn same_string(a: &String, b: &String) -> (r: bool)
    ensures
        r == (a@ == b@),
{
    crate::text::same_text(a.as_str(), b.as_str())
}

/// Decides a request to the server-wide admin page: the server must have a
/// token, the request must offer it, and the action must be a server-wide one.
pub fn check_admin_action(token: &AdminToken, params: &AdminParams) -> (r: Result<AdminAction, UserError>)
    ensures
        match token.0 {
            None => r == Err::<AdminAction, UserError>(UserError::AdminOff),
            Some(t) => if t@ != params.token@ {
                r == Err::<AdminAction, UserError>(UserError::InvalidAdminToken)
            } else if !is_server_action(params.action) {
                r == Err::<AdminAction, UserError>(UserError::InvalidAdminAction)
            } else {
                r == Ok::<AdminAction, UserError>(params.action)
            },
        },
{
    match &token.0 {
        None => Err(UserError::AdminOff),
        Some(t) => {
            if !same_string(t, &params.token) {
                Err(UserError::InvalidAdminToken)
            } else {
                match params.action {
                    AdminAction::PurgeDatabase | AdminAction::ResetLimits | AdminAction::ListPolls => Ok(
                        params.action,
                    ),
                    _ => Err(UserError::InvalidAdminAction),
                }
            }
        },
    }
}

/// Decides a request to a poll's admin page: the request must offer the
/// poll's own token, and the action must be a per-poll one.
pub fn check_poll_admin_action(poll_token: &String, params: &AdminParams) -> (r: Result<AdminAction, UserError>)
    ensures
        if poll_token@ != params.token@ {
            r == Err::<AdminAction, UserError>(UserError::InvalidAdminToken)
        } else if !is_poll_action(params.action) {
            r == Err::<AdminAction, UserError>(UserError::InvalidAdminAction)
        } else {
            r == Ok::<AdminAction, UserError>(params.action)
        },
{
    if !same_string(poll_token, &params.token) {
        Err(UserError::InvalidAdminToken)
    } else {
        match params.action {
            AdminAction::ResetVotes | AdminAction::DeletePoll => Ok(params.action),
            _ => Err(UserError::InvalidAdminAction),
        }
    }
}

} // verus!
