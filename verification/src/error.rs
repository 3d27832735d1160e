//! The errors that a member can answer with, and how a round treats them.

use crate::members::ServerId;
use vstd::prelude::*;

verus! {

/// Hint at the current leader, sent by a member that is not the leader.
#[derive(Clone, Debug, PartialEq, Eq)]
pub struct Redirect {
    /// The leader as the member knows it, if it knows one.
    pub leader_id: Option<ServerId>,
    /// The term in which the member made the statement.
    pub term: u64,
}

/// Error of one request to one member.
#[derive(Clone, Debug, PartialEq, Eq)]
pub enum CurpError {
    /// The proposal was already made.
    Duplicated,
    /// The cluster is shutting down.
    ShuttingDown,
    /// The requested configuration is invalid.
    InvalidConfig,
    /// The node to add is already a member.
    NodeAlreadyExists,
    /// The node to change is no member.
    NodeNotExists,
    /// The learner has not caught up with the log.
    LearnerNotCatchUp,
    /// The client id has expired.
    ExpiredClientId,
    /// The request was made for another version of the cluster.
    WrongClusterVersion,
    /// The member is not the leader and points to it.
    Redirect(Redirect),
    /// The command conflicts with one that is still in flight.
    KeyConflict,
    /// The request did not get through, or no answer came in time.
    RpcTransport,
    /// The member failed for a reason of its own.
    Internal(String),
}

impl CurpError {
    /// Whether the error speaks for the whole cluster: a round that receives
    /// it ends at once and returns it.
    pub open spec fn spec_return_early(&self) -> bool {
        match self {
            CurpError::Duplicated => true,
            CurpError::ShuttingDown => true,
            CurpError::InvalidConfig => true,
            CurpError::NodeAlreadyExists => true,
            CurpError::NodeNotExists => true,
            CurpError::LearnerNotCatchUp => true,
            CurpError::ExpiredClientId => true,
            CurpError::WrongClusterVersion => true,
            CurpError::Redirect(_) => true,
            CurpError::KeyConflict => false,
            CurpError::RpcTransport => false,
            CurpError::Internal(_) => false,
        }
    }

    /// Whether the error reports a conflict between commands.
    pub open spec fn spec_is_conflict(&self) -> bool {
        self is KeyConflict
    }

    /// The proposal was already made.
    pub fn duplicated() -> (e: Self)
        ensures
            e == CurpError::Duplicated,
    {
        CurpError::Duplicated
    }

    /// The cluster is shutting down.
    pub fn shutting_down() -> (e: Self)
        ensures
            e == CurpError::ShuttingDown,
    {
        CurpError::ShuttingDown
    }

    /// The requested configuration is invalid.
    pub fn invalid_config() -> (e: Self)
        ensures
            e == CurpError::InvalidConfig,
    {
        CurpError::InvalidConfig
    }

    /// The node to add is already a member.
    pub fn node_already_exists() -> (e: Self)
        ensures
            e == CurpError::NodeAlreadyExists,
    {
        CurpError::NodeAlreadyExists
    }

    /// The node to change is no member.
    pub fn node_not_exist() -> (e: Self)
        ensures
            e == CurpError::NodeNotExists,
    {
        CurpError::NodeNotExists
    }

    /// The learner has not caught up with the log.
    pub fn learner_not_catch_up() -> (e: Self)
        ensures
            e == CurpError::LearnerNotCatchUp,
    {
        CurpError::LearnerNotCatchUp
    }

    /// The client id has expired.
    pub fn expired_client_id() -> (e: Self)
        ensures
            e == CurpError::ExpiredClientId,
    {
        CurpError::ExpiredClientId
    }

    /// The request was made for another version of the cluster.
    pub fn wrong_cluster_version() -> (e: Self)
        ensures
            e == CurpError::WrongClusterVersion,
    {
        CurpError::WrongClusterVersion
    }

    /// The member is not the leader; it names the leader it knows, and its term.
    pub fn redirect(leader_id: Option<ServerId>, term: u64) -> (e: Self)
        ensures
            e == CurpError::Redirect(Redirect { leader_id, term }),
    {
        CurpError::Redirect(Redirect { leader_id, term })
    }

    /// The command conflicts with one that is still in flight.
    pub fn key_conflict() -> (e: Self)
        ensures
            e == CurpError::KeyConflict,
    {
        CurpError::KeyConflict
    }

    /// The request did not get through, or no answer came in time.
    pub fn rpc_transport() -> (e: Self)
        ensures
            e == CurpError::RpcTransport,
    {
        CurpError::RpcTransport
    }

    /// The member failed for the given reason.
    pub fn internal(reason: &str) -> (e: Self)
        ensures
            e matches CurpError::Internal(text) && text@ == reason@,
    {
        CurpError::Internal(reason.to_owned())
    }

    /// Whether a round that receives this error ends at once.
    #[verifier::when_used_as_spec(spec_return_early)]
    pub fn return_early(&self) -> (b: bool)
        ensures
            b == self.spec_return_early(),
    {
        match self {
            CurpError::KeyConflict | CurpError::RpcTransport | CurpError::Internal(_) => false,
            _ => true,
        }
    }

    /// Whether the error reports a conflict between commands. Such an error
    /// is preferred when a round fails and has several errors to choose from.
    #[verifier::when_used_as_spec(spec_is_conflict)]
    pub fn is_conflict(&self) -> (b: bool)
        ensures
            b == self.spec_is_conflict(),
    {
        match self {
            CurpError::KeyConflict => true,
            _ => false,
        }
    }
}

} // verus!
