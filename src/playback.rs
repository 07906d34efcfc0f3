//! Notifications that pages send about their media.

use vstd::prelude::*;

verus! {

/// A page reports that its media started or stopped playing.
#[derive(Debug)]
pub struct PlaybackEvent {
    pub label: String,
    pub playing: bool,
    pub title: Option<String>,
    pub artist: Option<String>,
    pub artwork_url: Option<String>,
}

/// A page reports a new document title.
#[derive(Debug)]
pub struct TitleChangedEvent {
    pub label: String,
    pub title: String,
}

} // verus!
