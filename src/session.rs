//! The persisted form of the open tab set.

use vstd::prelude::*;
use crate::catalog::MediaSource;
use crate::tab::TabKey;

verus! {

/// One saved tab: its key, its source and its last URL.
#[derive(Debug)]
pub struct SavedTab {
    pub key: TabKey,
    pub source_id: MediaSource,
    pub url: String,
}

/// The saved tabs in presentation order, and the key of the active one.
#[derive(Debug)]
pub struct SavedSession {
    pub tabs: Vec<SavedTab>,
    pub active_tab: Option<TabKey>,
}

/// The first position whose saved key is the saved active key.
pub fn active_index(session: &SavedSession) -> (r: Option<usize>)
    ensures
        match r {
            Some(i) => {
                &&& i < session.tabs@.len()
                &&& session.active_tab matches Some(k) && session.tabs@[i as int].key@ == k@
                &&& forall|j: int| 0 <= j < i ==> session.tabs@[j].key@ != session.tabs@[i as int].key@
            },
            None => match session.active_tab {
                Some(k) => forall|j: int| 0 <= j < session.tabs@.len() ==> session.tabs@[j].key@ != k@,
                None => true,
            },
        },
{
    let active = match &session.active_tab {
        Some(k) => k,
        None => {
            return None;
        },
    };
    let mut i: usize = 0;
    while i < session.tabs.len()
        invariant
            i <= session.tabs@.len(),
            session.active_tab == Some(*active),
            forall|j: int| 0 <= j < i ==> session.tabs@[j].key@ != active@,
        decreases session.tabs@.len() - i,
    {
        if session.tabs[i].key == *active {
            return Some(i);
        }
        i = i + 1;
    }
    None
}

} // verus!
