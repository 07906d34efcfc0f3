//! Choosing the tab that becomes active when the active tab is closed.

use vstd::prelude::*;
use crate::catalog::MediaSource;
use crate::tab::TabState;

verus! {

/// The last position below `n` whose tab belongs to `source`, or -1.
pub open spec fn last_same_source_before(tabs: Seq<TabState>, source: MediaSource, n: int) -> int
    decreases n,
{
    if n <= 0 {
        -1
    } else if tabs[n - 1].source == source {
        n - 1
    } else {
        last_same_source_before(tabs, source, n - 1)
    }
}

/// The first position from `n` on whose tab belongs to `source`, or -1.
pub open spec fn first_same_source_from(tabs: Seq<TabState>, source: MediaSource, n: int) -> int
    decreases tabs.len() - n,
{
    if n < 0 || n >= tabs.len() {
        -1
    } else if tabs[n].source == source {
        n
    } else {
        first_same_source_from(tabs, source, n + 1)
    }
}

/// Successor selection over the remaining tabs, where `start` is the position
/// the closed tab held: the nearest tab of the same source before it, else
/// the first one from it on, else the tab now at `start` (the last one where
/// `start` is past the end).
pub open spec fn successor(tabs: Seq<TabState>, start: int, source: MediaSource) -> int {
    let back = last_same_source_before(tabs, source, if start < tabs.len() { start } else { tabs.len() as int });
    let forward = first_same_source_from(tabs, source, start);
    if back >= 0 {
        back
    } else if forward >= 0 {
        forward
    } else if start >= tabs.len() {
        tabs.len() - 1
    } else {
        start
    }
}

proof fn lemma_last_before_range(tabs: Seq<TabState>, source: MediaSource, n: int)
    ensures
        -1 <= last_same_source_before(tabs, source, n) < (if n > 0 { n } else { 0 }),
    decreases n,
{
    if n > 0 {
        lemma_last_before_range(tabs, source, n - 1);
    }
}

proof fn lemma_first_from_range(tabs: Seq<TabState>, source: MediaSource, n: int)
    ensures
        first_same_source_from(tabs, source, n) == -1
            || n <= first_same_source_from(tabs, source, n) < tabs.len(),
        n >= 0 ==> first_same_source_from(tabs, source, n) >= -1,
    decreases tabs.len() - n,
{
    if 0 <= n < tabs.len() {
        lemma_first_from_range(tabs, source, n + 1);
    }
}

/// The successor is a position of the remaining tabs.
pub proof fn lemma_successor_in_range(tabs: Seq<TabState>, start: int, source: MediaSource)
    requires
        tabs.len() > 0,
        start >= 0,
    ensures
        0 <= successor(tabs, start, source) < tabs.len(),
{
    lemma_last_before_range(tabs, source, if start < tabs.len() { start } else { tabs.len() as int });
    lemma_first_from_range(tabs, source, start);
}

pub fn successor_index(tabs: &Vec<TabState>, start: usize, source: MediaSource) -> (r: usize)
    requires
        tabs@.len() > 0,
    ensures
        r == successor(tabs@, start as int, source),
        r < tabs@.len(),
{
    let len = tabs.len();
    let mut j: usize = if start < len { start } else { len };
    let ghost top = j as int;
    while j > 0
        invariant
            j <= top <= len,
            len == tabs@.len(),
            top == (if start < tabs@.len() { start as int } else { tabs@.len() as int }),
            last_same_source_before(tabs@, source, top) == last_same_source_before(tabs@, source, j as int),
        decreases j,
    {
        if tabs[j - 1].source == source {
            return j - 1;
        }
        j = j - 1;
    }
    let mut k: usize = start;
    while k < len
        invariant
            start <= k,
            len == tabs@.len(),
            last_same_source_before(tabs@, source, top) == -1,
            top == (if start < tabs@.len() { start as int } else { tabs@.len() as int }),
            first_same_source_from(tabs@, source, start as int) == first_same_source_from(tabs@, source, k as int),
        decreases len - k,
    {
        if tabs[k].source == source {
            return k;
        }
        k = k + 1;
    }
    if start >= len {
        len - 1
    } else {
        start
    }
}

} // verus!
