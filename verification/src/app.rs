//! What the launcher window fetches in the background, and how often.
use crate::clipboard::models::{meta_views, EntryMetaView};
use crate::modes::clipboard::{entries_to_items, entry_row};
use crate::protocol::DaemonResponse;
use crate::search::item_views;
use crate::state::BackgroundUpdate;
use vstd::prelude::*;

verus! {

/// Where a window's items come from while it is open.
#[derive(Clone, Copy, Debug, PartialEq, Eq, Structural)]
pub enum RemoteSource {
    Clipboard,
    Launcher,
}

impl RemoteSource {
    /// Milliseconds between two refreshes: clipboard history is polled every
    /// 50 ms, the application list every 5 s.
    pub fn refresh_interval(self) -> (ms: u64)
        ensures
            ms == match self {
                RemoteSource::Clipboard => 50u64,
                RemoteSource::Launcher => 5000u64,
            },
    {
        match self {
            RemoteSource::Clipboard => 50,
            RemoteSource::Launcher => 5000,
        }
    }
}

/// The update that a daemon reply brings: history entries become rows, launcher
/// items are taken as they are, a failed request is an error. Any other reply is
/// handed back (as `Err`) for the caller to report as unexpected.
pub fn update_from_reply(reply: Result<DaemonResponse, String>) -> (r: Result<BackgroundUpdate, DaemonResponse>)
    ensures
        match reply {
            Ok(DaemonResponse::ClipboardHistory(entries)) => r matches Ok(BackgroundUpdate::Items(v))
                && item_views(v@) == meta_views(entries@).map_values(|e: EntryMetaView| entry_row(e)),
            Ok(DaemonResponse::LauncherItems(items)) => r matches Ok(BackgroundUpdate::Items(v))
                && item_views(v@) == item_views(items@),
            Ok(other) => r == Err::<BackgroundUpdate, DaemonResponse>(other),
            Err(e) => r matches Ok(BackgroundUpdate::Error(m)) && m@ == e@,
        },
{
    match reply {
        Ok(DaemonResponse::ClipboardHistory(entries)) => Ok(BackgroundUpdate::Items(entries_to_items(entries))),
        Ok(DaemonResponse::LauncherItems(items)) => Ok(BackgroundUpdate::Items(items)),
        Ok(other) => Err(other),
        Err(e) => Ok(BackgroundUpdate::Error(e)),
    }
}

} // verus!
