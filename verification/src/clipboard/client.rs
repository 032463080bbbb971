//! How a client reads the daemon's replies: the answer it asked for, the error
//! the daemon reported, or a reply of the wrong kind.
use crate::clipboard::models::EntryMeta;
use crate::protocol::DaemonResponse;
use crate::search::LauncherItem;
use vstd::prelude::*;

verus! {

/// The outcome of one request.
#[derive(Debug)]
pub enum Reply<T> {
    /// The answer asked for.
    Value(T),
    /// The daemon reported an error.
    Failed(String),
    /// The daemon answered with another kind of reply.
    Unexpected(DaemonResponse),
}

/// The reply to a ping.
pub fn expect_pong(resp: DaemonResponse) -> (r: Reply<()>)
    ensures
        match resp {
            DaemonResponse::Pong => r is Value,
            DaemonResponse::Error(e) => r == Reply::<()>::Failed(e),
            other => r == Reply::<()>::Unexpected(other),
        },
{
    match resp {
        DaemonResponse::Pong => Reply::Value(()),
        DaemonResponse::Error(e) => Reply::Failed(e),
        other => Reply::Unexpected(other),
    }
}

/// The reply to a history request.
pub fn expect_history(resp: DaemonResponse) -> (r: Reply<Vec<EntryMeta>>)
    ensures
        match resp {
            DaemonResponse::ClipboardHistory(v) => r == Reply::Value(v),
            DaemonResponse::Error(e) => r == Reply::<Vec<EntryMeta>>::Failed(e),
            other => r == Reply::<Vec<EntryMeta>>::Unexpected(other),
        },
{
    match resp {
        DaemonResponse::ClipboardHistory(v) => Reply::Value(v),
        DaemonResponse::Error(e) => Reply::Failed(e),
        other => Reply::Unexpected(other),
    }
}

/// The reply to a paste request.
pub fn expect_pasted(resp: DaemonResponse) -> (r: Reply<()>)
    ensures
        match resp {
            DaemonResponse::ClipboardPasted => r is Value,
            DaemonResponse::Error(e) => r == Reply::<()>::Failed(e),
            other => r == Reply::<()>::Unexpected(other),
        },
{
    match resp {
        DaemonResponse::ClipboardPasted => Reply::Value(()),
        DaemonResponse::Error(e) => Reply::Failed(e),
        other => Reply::Unexpected(other),
    }
}

/// The reply to a content request.
pub fn expect_content(resp: DaemonResponse) -> (r: Reply<String>)
    ensures
        match resp {
            DaemonResponse::ClipboardContent(c) => r == Reply::Value(c),
            DaemonResponse::Error(e) => r == Reply::<String>::Failed(e),
            other => r == Reply::<String>::Unexpected(other),
        },
{
    match resp {
        DaemonResponse::ClipboardContent(c) => Reply::Value(c),
        DaemonResponse::Error(e) => Reply::Failed(e),
        other => Reply::Unexpected(other),
    }
}

/// The reply to a request for launcher items.
pub fn expect_launcher_items(resp: DaemonResponse) -> (r: Reply<Vec<LauncherItem>>)
    ensures
        match resp {
            DaemonResponse::LauncherItems(v) => r == Reply::Value(v),
            DaemonResponse::Error(e) => r == Reply::<Vec<LauncherItem>>::Failed(e),
            other => r == Reply::<Vec<LauncherItem>>::Unexpected(other),
        },
{
    match resp {
        DaemonResponse::LauncherItems(v) => Reply::Value(v),
        DaemonResponse::Error(e) => Reply::Failed(e),
        other => Reply::Unexpected(other),
    }
}

} // verus!
