//! What can go wrong with a ZFS command.

use crate::decimal::{push_signed, signed_decimal};
use vstd::prelude::*;
use vstd::string::*;

verus! {

/// What went wrong.
#[derive(Debug, Clone, PartialEq, Eq)]
pub enum ZfsError {
    NotFound(String),
    Busy(String),
    /// The command, its raw exit status and what it wrote to its standard error.
    CommandFailed(String, i32, String),
    /// The command, and why it could not be run.
    Spawn(String, String),
}

/// What a [`ZfsError`] holds.
#[verifier::ext_equal]
pub enum ZfsErrorView {
    NotFound(Seq<char>),
    Busy(Seq<char>),
    CommandFailed(Seq<char>, i32, Seq<char>),
    Spawn(Seq<char>, Seq<char>),
}

impl View for ZfsError {
    type V = ZfsErrorView;

    open spec fn view(&self) -> ZfsErrorView {
        match self {
            ZfsError::NotFound(name) => ZfsErrorView::NotFound(name@),
            ZfsError::Busy(name) => ZfsErrorView::Busy(name@),
            ZfsError::CommandFailed(command, status, stderr) => ZfsErrorView::CommandFailed(
                command@,
                *status,
                stderr@,
            ),
            ZfsError::Spawn(command, reason) => ZfsErrorView::Spawn(command@, reason@),
        }
    }
}

/// A result by the error that it holds.
pub open spec fn failure<T>(r: Result<T, ZfsError>) -> Option<ZfsErrorView> {
    match r {
        Ok(_) => None,
        Err(e) => Some(e@),
    }
}

impl ZfsErrorView {
    pub open spec fn text(self) -> Seq<char> {
        match self {
            ZfsErrorView::NotFound(name) => "not found: "@ + name,
            ZfsErrorView::Busy(name) => "busy: "@ + name,
            ZfsErrorView::CommandFailed(command, status, stderr) => command + " failed with status "@ + signed_decimal(
                status as int,
            ) + ": "@ + stderr,
            ZfsErrorView::Spawn(command, reason) => "failed to run "@ + command + ": "@ + reason,
        }
    }
}

impl ZfsError {
    /// The error in words.
    pub fn message(&self) -> (r: String)
        ensures
            r@ == self@.text(),
    {
        match self {
            ZfsError::NotFound(name) => {
                let mut out = "not found: ".to_owned();
                out.append(name.as_str());
                out
            },
            ZfsError::Busy(name) => {
                let mut out = "busy: ".to_owned();
                out.append(name.as_str());
                out
            },
            ZfsError::CommandFailed(command, status, stderr) => {
                let mut out = command.clone();
                out.append(" failed with status ");
                push_signed(&mut out, *status as i64);
                out.append(": ");
                out.append(stderr.as_str());
                out
            },
            ZfsError::Spawn(command, reason) => {
                let mut out = "failed to run ".to_owned();
                out.append(command.as_str());
                out.append(": ");
                out.append(reason.as_str());
                out
            },
        }
    }
}

} // verus!
