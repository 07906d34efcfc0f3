//! One tab: a page surface bound to one source.

use vstd::prelude::*;
use crate::catalog::MediaSource;
use crate::layout::{view_frame, spec_view_frame, Frame, WindowMetrics};

verus! {

/// Where a tab stands. `Active` and `Background` tabs have a live view;
/// an `Unloaded` tab has none and keeps its last URL to load it again.
#[derive(Debug, Clone, Copy, PartialEq, Eq, Structural)]
pub enum TabStatus {
    Active,
    Background,
    Unloaded,
}

/// The unique key of a tab, also the label of its view.
pub type TabKey = String;

/// The record of one open tab.
#[derive(Debug)]
pub struct TabState {
    pub key: TabKey,
    pub source: MediaSource,
    pub url: String,
    pub status: TabStatus,
    pub is_playing: bool,
    pub display_name: String,
    /// Milliseconds on the host's monotonic clock of the last activation or
    /// playback event.
    pub last_interaction: u64,
}

/// The status a tab takes when another tab is shown.
pub open spec fn hidden_status(s: TabStatus) -> TabStatus {
    match s {
        TabStatus::Unloaded => TabStatus::Unloaded,
        _ => TabStatus::Background,
    }
}

impl TabState {
    /// A copy of the record, field for field.
    pub fn duplicate(&self) -> (r: TabState)
        ensures
            r == *self,
    {
        TabState {
            key: self.key.clone(),
            source: self.source,
            url: self.url.clone(),
            status: self.status,
            is_playing: self.is_playing,
            display_name: self.display_name.clone(),
            last_interaction: self.last_interaction,
        }
    }

    /// Makes the tab the visible one. Returns whether its view must be
    /// created first, which is so when the tab was unloaded.
    pub fn show(&mut self, now: u64) -> (needs_load: bool)
        ensures
            needs_load == (old(self).status == TabStatus::Unloaded),
            *final(self) == (TabState {
                status: TabStatus::Active,
                last_interaction: now,
                ..*old(self)
            }),
    {
        let needs_load = self.status == TabStatus::Unloaded;
        self.status = TabStatus::Active;
        self.last_interaction = now;
        needs_load
    }

    /// Sends the tab to the background; an unloaded tab stays unloaded.
    pub fn to_background(&mut self)
        ensures
            *final(self) == (TabState { status: hidden_status(old(self).status), ..*old(self) }),
    {
        if self.status != TabStatus::Unloaded {
            self.status = TabStatus::Background;
        }
    }

    /// Marks the tab as having no live view; its URL is kept.
    pub fn unload_tab(&mut self)
        ensures
            *final(self) == (TabState { status: TabStatus::Unloaded, ..*old(self) }),
    {
        self.status = TabStatus::Unloaded;
    }

    /// The frame the tab's view takes when it is the active one.
    pub fn frame(&self, m: WindowMetrics) -> (r: Frame)
        ensures
            r == spec_view_frame(self.source.spec_multi_instance(), m),
    {
        view_frame(self.source.multi_instance(), m)
    }
}

} // verus!
