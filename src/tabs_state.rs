//! The tab table and the operations that create, show, close and reclaim
//! tabs while keeping its invariants.

use vstd::prelude::*;
use crate::catalog::{is_tab_key_of, lemma_tab_key_source, MediaSource};
use crate::layout::{spec_view_frame, Frame, WindowMetrics};
use crate::playback::{PlaybackEvent, TitleChangedEvent};
use crate::session::{active_index, SavedSession, SavedTab};
use crate::title::{clean_page_title, spec_clean_page_title};
use crate::trusted::{parse_url, parsed_url};
use crate::successor::{lemma_successor_in_range, successor, successor_index};
use crate::tab::{hidden_status, TabKey, TabState, TabStatus};

verus! {

/// How long a background tab may stay untouched before the idle sweep
/// unloads it, in milliseconds.
pub const IDLE_THRESHOLD_MS: u64 = 900_000;

/// The period of the idle sweep, in milliseconds.
pub const SWEEP_INTERVAL_MS: u64 = 30_000;

/// How many keys `create_tab` draws before it gives up on finding one that is
/// not in use.
pub const KEY_ATTEMPTS: usize = 4;

/// What the host must do to the page views after an operation, in order.
#[derive(Debug)]
pub enum ViewAction {
    /// Create the view of `key` at `url`, hidden, with the source's page script.
    Load { key: TabKey, url: String, source: MediaSource },
    /// Show the view of the key and give it the active frame.
    Show(TabKey),
    /// Hide the view of the key.
    Hide(TabKey),
    /// Destroy the view of the key.
    Close(TabKey),
}

/// Why an operation on the tab table was refused.
#[derive(Debug, PartialEq, Eq)]
pub enum TabError {
    /// No tab has the key.
    NotFound(TabKey),
    /// The source allows a single tab and already has one.
    InstanceLimitExceeded(MediaSource),
    /// The URL does not parse as an absolute URL.
    InvalidUrl(String),
    /// A freshly drawn key is already in use.
    DuplicateKey(TabKey),
}

/// The abstract state of the table: the tabs in presentation order, the key
/// of the active tab, the key of the playing tab, and every key the table has
/// held, in the order they were added (a key is never used twice).
pub struct SessionModel {
    pub tabs: Seq<TabState>,
    pub active: Option<Seq<char>>,
    pub playing: Option<Seq<char>>,
    pub used: Seq<Seq<char>>,
}

pub open spec fn opt_key(k: Option<String>) -> Option<Seq<char>> {
    match k {
        Some(s) => Some(s@),
        None => None,
    }
}

/// The keys in presentation order.
pub open spec fn key_order(tabs: Seq<TabState>) -> Seq<Seq<char>> {
    tabs.map_values(|t: TabState| t.key@)
}

/// The table as a mapping from key to record.
pub open spec fn key_table(tabs: Seq<TabState>) -> Map<Seq<char>, TabState> {
    Map::new(
        |k: Seq<char>| has_key(tabs, k),
        |k: Seq<char>| tabs[index_of(tabs, k)],
    )
}

pub open spec fn has_key(tabs: Seq<TabState>, k: Seq<char>) -> bool {
    exists|i: int| 0 <= i < tabs.len() && tabs[i].key@ == k
}

/// The position of a key that the table holds.
pub open spec fn index_of(tabs: Seq<TabState>, k: Seq<char>) -> int {
    choose|i: int| 0 <= i < tabs.len() && tabs[i].key@ == k
}

/// Some key has the shape of a key minted for `source`, so a fresh draw for
/// `source` could collide with it.
pub open spec fn has_tab_key_of(keys: Seq<Seq<char>>, source: MediaSource) -> bool {
    exists|j: int| 0 <= j < keys.len() && is_tab_key_of(keys[j], source)
}

pub open spec fn keys_unique(tabs: Seq<TabState>) -> bool {
    forall|i: int, j: int|
        0 <= i < tabs.len() && 0 <= j < tabs.len() && i != j ==> tabs[i].key@ != tabs[j].key@
}

/// A source allowed one tab has at most one.
pub open spec fn instances_within_limit(tabs: Seq<TabState>) -> bool {
    forall|i: int, j: int|
        0 <= i < tabs.len() && 0 <= j < tabs.len() && i != j && tabs[i].source == tabs[j].source
            ==> tabs[i].source.spec_multi_instance()
}

/// A new tab of `source` keeps the instance limit.
pub open spec fn can_create(tabs: Seq<TabState>, source: MediaSource) -> bool {
    source.spec_multi_instance() || forall|i: int| 0 <= i < tabs.len() ==> tabs[i].source != source
}

/// The tabs after the one at `i` was shown at time `now`.
pub open spec fn shown(tabs: Seq<TabState>, i: int, now: u64) -> Seq<TabState> {
    Seq::new(
        tabs.len(),
        |j: int|
            if j == i {
                TabState { status: TabStatus::Active, last_interaction: now, ..tabs[j] }
            } else {
                TabState { status: hidden_status(tabs[j].status), ..tabs[j] }
            },
    )
}

/// Hide actions for the tabs before position `n`, other than `i`, that have a view.
pub open spec fn hide_actions(tabs: Seq<TabState>, i: int, n: int) -> Seq<ViewAction>
    decreases n,
{
    if n <= 0 {
        Seq::empty()
    } else {
        let prev = hide_actions(tabs, i, n - 1);
        if n - 1 != i && tabs[n - 1].status != TabStatus::Unloaded {
            prev.push(ViewAction::Hide(tabs[n - 1].key))
        } else {
            prev
        }
    }
}

/// The view actions that showing the tab at `i` takes: hide every other
/// view, load the tab's view if it has none, show it.
pub open spec fn show_actions(tabs: Seq<TabState>, i: int) -> Seq<ViewAction> {
    let load = if tabs[i].status == TabStatus::Unloaded {
        seq![ViewAction::Load { key: tabs[i].key, url: tabs[i].url, source: tabs[i].source }]
    } else {
        Seq::empty()
    };
    hide_actions(tabs, i, tabs.len() as int) + load + seq![ViewAction::Show(tabs[i].key)]
}

impl SessionModel {
    /// The invariants of the table.
    pub open spec fn wf(self) -> bool {
        &&& self.wf_but_active()
        &&& self.active_wf()
    }

    /// Exactly the tab that `active` names has status Active.
    pub open spec fn active_wf(self) -> bool {
        &&& forall|i: int|
            0 <= i < self.tabs.len() ==> ((#[trigger] self.tabs[i]).status == TabStatus::Active
                <==> self.active == Some(self.tabs[i].key@))
        &&& self.active is Some ==> has_key(self.tabs, self.active->0)
    }

    /// The invariants other than the one on the active tab.
    pub open spec fn wf_but_active(self) -> bool {
        &&& keys_unique(self.tabs)
        &&& forall|i: int|
            0 <= i < self.tabs.len() ==> ((#[trigger] self.tabs[i]).is_playing
                <==> self.playing == Some(self.tabs[i].key@))
        &&& self.playing is Some ==> has_key(self.tabs, self.playing->0)
        &&& instances_within_limit(self.tabs)
        &&& forall|i: int| 0 <= i < self.tabs.len() ==> self.used.contains((#[trigger] self.tabs[i]).key@)
    }

    /// The state after the tab at `i` was closed, and a successor shown at
    /// time `now` where it was the active one.
    pub open spec fn close_at(self, i: int, now: u64) -> SessionModel {
        let closed = self.tabs[i];
        let rest = SessionModel {
            tabs: self.tabs.remove(i),
            active: self.active,
            playing: if self.playing == Some(closed.key@) { None } else { self.playing },
            used: self.used,
        };
        if self.active == Some(closed.key@) {
            if rest.tabs.len() == 0 {
                SessionModel { active: None, ..rest }
            } else {
                rest.show_at(successor(rest.tabs, i, closed.source), now)
            }
        } else {
            rest
        }
    }

    /// The view actions that closing the tab at `i` takes.
    pub open spec fn close_actions(self, i: int) -> Seq<ViewAction> {
        let closed = self.tabs[i];
        let rest = self.tabs.remove(i);
        if self.active == Some(closed.key@) && rest.len() > 0 {
            seq![ViewAction::Close(closed.key)] + show_actions(rest, successor(rest, i, closed.source))
        } else {
            seq![ViewAction::Close(closed.key)]
        }
    }

    /// The state after the record `t` was appended and shown at time `now`.
    pub open spec fn create(self, t: TabState, now: u64) -> SessionModel {
        SessionModel { tabs: self.tabs.push(t), used: self.used.push(t.key@), ..self }.show_at(
            self.tabs.len() as int,
            now,
        )
    }

    /// The state after the tab at `i` reported that it plays.
    pub open spec fn play_at(self, i: int, now: u64) -> SessionModel {
        SessionModel {
            tabs: Seq::new(
                self.tabs.len(),
                |j: int|
                    if j == i {
                        TabState { is_playing: true, last_interaction: now, ..self.tabs[j] }
                    } else {
                        TabState { is_playing: false, ..self.tabs[j] }
                    },
            ),
            playing: Some(self.tabs[i].key@),
            ..self
        }
    }

    /// The state after the tab at `i` reported that it paused.
    pub open spec fn pause_at(self, i: int, now: u64) -> SessionModel {
        SessionModel {
            tabs: self.tabs.update(
                i,
                TabState { is_playing: false, last_interaction: now, ..self.tabs[i] },
            ),
            playing: if self.playing == Some(self.tabs[i].key@) { None } else { self.playing },
            ..self
        }
    }

    /// The state after an idle sweep at time `now`.
    pub open spec fn sweep(self, now: u64, threshold: u64) -> SessionModel {
        SessionModel {
            tabs: Seq::new(
                self.tabs.len(),
                |j: int|
                    if is_idle(self, self.tabs[j], now, threshold) {
                        TabState { status: TabStatus::Unloaded, ..self.tabs[j] }
                    } else {
                        self.tabs[j]
                    },
            ),
            ..self
        }
    }

    /// The tab that media keys act on: the playing one, else the active one.
    pub open spec fn media_target(self) -> Option<Seq<char>> {
        if self.playing is Some {
            self.playing
        } else {
            self.active
        }
    }

    /// The state after the tab at `i` was shown at time `now`.
    pub open spec fn show_at(self, i: int, now: u64) -> SessionModel {
        SessionModel {
            tabs: shown(self.tabs, i, now),
            active: Some(self.tabs[i].key@),
            playing: self.playing,
            used: self.used,
        }
    }
}

proof fn lemma_index_of(tabs: Seq<TabState>, i: int)
    requires
        keys_unique(tabs),
        0 <= i < tabs.len(),
    ensures
        has_key(tabs, tabs[i].key@),
        index_of(tabs, tabs[i].key@) == i,
{
    assert(tabs[i].key@ == tabs[i].key@);
}

proof fn lemma_show_wf(m: SessionModel, i: int, now: u64)
    requires
        m.wf_but_active(),
        0 <= i < m.tabs.len(),
    ensures
        m.show_at(i, now).wf(),
        key_order(m.show_at(i, now).tabs) == key_order(m.tabs),
{
    let r = m.show_at(i, now);
    assert forall|j: int| 0 <= j < r.tabs.len() implies r.tabs[j].key@ == m.tabs[j].key@
        && r.tabs[j].source == m.tabs[j].source && r.tabs[j].is_playing == m.tabs[j].is_playing by {}
    assert(has_key(r.tabs, m.tabs[i].key@)) by {
        assert(r.tabs[i].key@ == m.tabs[i].key@);
    }
    if m.playing is Some {
        let p = choose|j: int| 0 <= j < m.tabs.len() && m.tabs[j].key@ == m.playing->0;
        assert(r.tabs[p].key@ == m.playing->0);
    }
    assert(key_order(r.tabs) =~= key_order(m.tabs));
}

pub proof fn lemma_close_wf(m: SessionModel, i: int, now: u64)
    requires
        m.wf(),
        0 <= i < m.tabs.len(),
    ensures
        m.close_at(i, now).wf(),
{
    let closed = m.tabs[i];
    let rest = SessionModel {
        tabs: m.tabs.remove(i),
        active: m.active,
        playing: if m.playing == Some(closed.key@) { None } else { m.playing },
        used: m.used,
    };
    m.tabs.remove_ensures(i);
    assert forall|j: int| 0 <= j < rest.tabs.len() implies #[trigger] rest.tabs[j] == m.tabs[
        if j < i { j } else { j + 1 }] by {}
    assert forall|j: int| 0 <= j < rest.tabs.len() implies rest.used.contains(
        (#[trigger] rest.tabs[j]).key@,
    ) by {
        let j2 = if j < i { j } else { j + 1 };
        assert(rest.tabs[j] == m.tabs[j2]);
    }
    assert(keys_unique(rest.tabs)) by {
        assert forall|a: int, b: int|
            0 <= a < rest.tabs.len() && 0 <= b < rest.tabs.len() && a != b
            implies rest.tabs[a].key@ != rest.tabs[b].key@ by {
            let a2 = if a < i { a } else { a + 1 };
            let b2 = if b < i { b } else { b + 1 };
            assert(rest.tabs[a] == m.tabs[a2]);
            assert(rest.tabs[b] == m.tabs[b2]);
        }
    }
    assert(instances_within_limit(rest.tabs)) by {
        assert forall|a: int, b: int|
            0 <= a < rest.tabs.len() && 0 <= b < rest.tabs.len() && a != b
                && rest.tabs[a].source == rest.tabs[b].source
            implies rest.tabs[a].source.spec_multi_instance() by {
            let a2 = if a < i { a } else { a + 1 };
            let b2 = if b < i { b } else { b + 1 };
            assert(rest.tabs[a] == m.tabs[a2]);
            assert(rest.tabs[b] == m.tabs[b2]);
        }
    }
    assert forall|j: int| 0 <= j < rest.tabs.len() implies ((#[trigger] rest.tabs[j]).is_playing
        <==> rest.playing == Some(rest.tabs[j].key@)) by {
        let j2 = if j < i { j } else { j + 1 };
        assert(rest.tabs[j] == m.tabs[j2]);
    }
    if rest.playing is Some {
        let p = choose|j: int| 0 <= j < m.tabs.len() && m.tabs[j].key@ == m.playing->0;
        assert(p != i);
        let p2 = if p < i { p } else { p - 1 };
        assert(rest.tabs[p2] == m.tabs[p]);
    }
    assert(rest.wf_but_active());
    if m.active == Some(closed.key@) {
        if rest.tabs.len() > 0 {
            lemma_successor_in_range(rest.tabs, i, closed.source);
            lemma_show_wf(rest, successor(rest.tabs, i, closed.source), now);
        } else {
            assert(SessionModel { active: None, ..rest }.wf());
        }
    } else {
        assert forall|j: int| 0 <= j < rest.tabs.len() implies ((#[trigger] rest.tabs[j]).status
            == TabStatus::Active <==> rest.active == Some(rest.tabs[j].key@)) by {
            let j2 = if j < i { j } else { j + 1 };
            assert(rest.tabs[j] == m.tabs[j2]);
        }
        if rest.active is Some {
            let p = choose|j: int| 0 <= j < m.tabs.len() && m.tabs[j].key@ == m.active->0;
            assert(p != i);
            let p2 = if p < i { p } else { p - 1 };
            assert(rest.tabs[p2] == m.tabs[p]);
        }
        assert(rest.wf());
    }
}

/// The keys, in order, of the tabs before position `n`, other than `i`, that
/// have a view.
pub open spec fn other_open_keys(tabs: Seq<TabState>, i: int, n: int) -> Seq<TabKey>
    decreases n,
{
    if n <= 0 {
        Seq::empty()
    } else {
        let prev = other_open_keys(tabs, i, n - 1);
        if n - 1 != i && tabs[n - 1].status != TabStatus::Unloaded {
            prev.push(tabs[n - 1].key)
        } else {
            prev
        }
    }
}

/// A tab the idle sweep reclaims: neither active nor playing, with a view,
/// and untouched for at least `threshold` milliseconds at time `now`.
pub open spec fn is_idle(m: SessionModel, t: TabState, now: u64, threshold: u64) -> bool {
    &&& m.active != Some(t.key@)
    &&& m.playing != Some(t.key@)
    &&& t.status != TabStatus::Unloaded
    &&& now - t.last_interaction >= threshold
}

/// The keys, in order, of the idle tabs before position `n`.
pub open spec fn idle_keys(m: SessionModel, now: u64, threshold: u64, n: int) -> Seq<TabKey>
    decreases n,
{
    if n <= 0 {
        Seq::empty()
    } else {
        let prev = idle_keys(m, now, threshold, n - 1);
        if is_idle(m, m.tabs[n - 1], now, threshold) {
            prev.push(m.tabs[n - 1].key)
        } else {
            prev
        }
    }
}

/// The record of the tab at `i` after a title event: `title` cleaned of the
/// source's name becomes its display name where the source allows several
/// tabs and the result is not empty.
pub open spec fn titled(old_tab: TabState, new_tab: TabState, title: Seq<char>, now: u64) -> bool {
    let clean = spec_clean_page_title(title, old_tab.source.spec_name());
    &&& new_tab == TabState {
        display_name: new_tab.display_name,
        last_interaction: now,
        ..old_tab
    }
    &&& new_tab.display_name@ == if old_tab.source.spec_multi_instance() && clean.len() > 0 {
        clean
    } else {
        old_tab.display_name@
    }
}

/// The URL a new tab asks for: the one given, else the source's default.
pub open spec fn requested_url(url: Option<String>, source: MediaSource) -> Seq<char> {
    match url {
        Some(u) => u@,
        None => source.spec_default_url(),
    }
}

/// The record of a new tab before it is first shown: no view yet, not playing,
/// named after its source.
pub open spec fn is_new_record(t: TabState, source: MediaSource, now: u64) -> bool {
    &&& t.source == source
    &&& t.status == TabStatus::Unloaded
    &&& !t.is_playing
    &&& t.display_name@ == source.spec_name()
    &&& t.last_interaction == now
}

proof fn lemma_create_wf(m: SessionModel, t: TabState, now: u64)
    requires
        m.wf(),
        can_create(m.tabs, t.source),
        !has_key(m.tabs, t.key@),
        !t.is_playing,
    ensures
        m.create(t, now).wf(),
{
    let p = SessionModel { tabs: m.tabs.push(t), used: m.used.push(t.key@), ..m };
    assert forall|j: int| 0 <= j < p.tabs.len() implies p.used.contains((#[trigger] p.tabs[j]).key@) by {
        if j < m.tabs.len() {
            let w = choose|w: int| 0 <= w < m.used.len() && m.used[w] == m.tabs[j].key@;
            assert(p.used[w] == m.used[w]);
        } else {
            assert(p.used[m.used.len() as int] == t.key@);
        }
    }
    let n = m.tabs.len() as int;
    assert(forall|j: int| 0 <= j < n ==> p.tabs[j] == m.tabs[j]);
    assert(p.tabs[n] == t);
    assert(keys_unique(p.tabs)) by {
        assert forall|a: int, b: int|
            0 <= a < p.tabs.len() && 0 <= b < p.tabs.len() && a != b
            implies p.tabs[a].key@ != p.tabs[b].key@ by {
            if a < n && b < n {
            } else if a == n {
                assert(p.tabs[b] == m.tabs[b]);
            } else {
                assert(p.tabs[a] == m.tabs[a]);
            }
        }
    }
    assert(instances_within_limit(p.tabs)) by {
        assert forall|a: int, b: int|
            0 <= a < p.tabs.len() && 0 <= b < p.tabs.len() && a != b
                && p.tabs[a].source == p.tabs[b].source
            implies p.tabs[a].source.spec_multi_instance() by {
            if a == n {
                assert(p.tabs[b] == m.tabs[b]);
            } else if b == n {
                assert(p.tabs[a] == m.tabs[a]);
            }
        }
    }
    if m.playing is Some {
        let q = choose|j: int| 0 <= j < m.tabs.len() && m.tabs[j].key@ == m.playing->0;
        assert(p.tabs[q] == m.tabs[q]);
    }
    assert forall|j: int| 0 <= j < p.tabs.len() implies ((#[trigger] p.tabs[j]).is_playing
        <==> p.playing == Some(p.tabs[j].key@)) by {
        if j == n {
            if m.playing is Some {
                let q = choose|k: int| 0 <= k < m.tabs.len() && m.tabs[k].key@ == m.playing->0;
                assert(m.tabs[q].key@ == m.playing->0);
            }
        }
    }
    assert(p.wf_but_active());
    lemma_show_wf(p, n, now);
}

/// Two tables with the same keys and sources, position by position.
proof fn lemma_same_keys(a: Seq<TabState>, b: Seq<TabState>)
    requires
        a.len() == b.len(),
        forall|j: int| 0 <= j < a.len() ==> a[j].key@ == b[j].key@ && a[j].source == b[j].source,
    ensures
        keys_unique(a) ==> keys_unique(b),
        instances_within_limit(a) ==> instances_within_limit(b),
        forall|k: Seq<char>| has_key(a, k) ==> #[trigger] has_key(b, k),
{
    assert forall|k: Seq<char>| has_key(a, k) implies #[trigger] has_key(b, k) by {
        let j = choose|j: int| 0 <= j < a.len() && a[j].key@ == k;
        assert(b[j].key@ == k);
    }
}

/// What restoring a session did: the view actions to perform, and for each
/// saved tab the key minted for it, or `None` where it could not be created.
#[derive(Debug)]
pub struct RestoreOutcome {
    pub actions: Vec<ViewAction>,
    pub restored: Vec<Option<TabKey>>,
}

/// The saved tab at `p` is the first one whose key is the saved active key.
pub open spec fn is_saved_active(session: &SavedSession, p: int) -> bool {
    &&& session.active_tab is Some
    &&& session.tabs@[p].key@ == session.active_tab->0@
    &&& forall|j: int| 0 <= j < p ==> session.tabs@[j].key@ != session.tabs@[p].key@
}

/// The keys of the restored slots, in order.
pub open spec fn restored_keys(r: Seq<Option<TabKey>>) -> Seq<Seq<char>>
    decreases r.len(),
{
    if r.len() == 0 {
        Seq::empty()
    } else {
        let prev = restored_keys(r.drop_last());
        match r.last() {
            Some(k) => prev.push(k@),
            None => prev,
        }
    }
}

/// The table holds `k`, and its record has the saved source and the saved
/// URL as parsed.
pub open spec fn restored_record(tabs: Seq<TabState>, saved: SavedTab, k: Seq<char>) -> bool {
    &&& has_key(tabs, k)
    &&& tabs[index_of(tabs, k)].source == saved.source_id
    &&& parsed_url(saved.url@) == Some(tabs[index_of(tabs, k)].url@)
}

/// Why a saved tab may have been skipped: its source allows one tab, its URL
/// does not parse, or a key already used could have been hit by a draw for
/// its source.
pub open spec fn skipped(used: Seq<Seq<char>>, saved: SavedTab) -> bool {
    ||| !saved.source_id.spec_multi_instance()
    ||| parsed_url(saved.url@) is None
    ||| has_tab_key_of(used, saved.source_id)
}

/// Restoring the saved tab at `i` cannot fail: its URL parses, its source has
/// room, no key used so far could collide with a draw for it, and no earlier
/// saved tab has its source.
pub open spec fn restore_owed(m: SessionModel, session: &SavedSession, i: int) -> bool {
    let saved = session.tabs@[i];
    &&& parsed_url(saved.url@) is Some
    &&& can_create(m.tabs, saved.source_id)
    &&& !has_tab_key_of(m.used, saved.source_id)
    &&& forall|q: int| 0 <= q < i ==> session.tabs@[q].source_id != saved.source_id
}

/// A table whose first `a.len()` records keep the keys, sources and URLs of `a`.
proof fn lemma_prefix_kept(a: Seq<TabState>, b: Seq<TabState>)
    requires
        a.len() <= b.len(),
        keys_unique(b),
        forall|j: int|
            0 <= j < a.len() ==> b[j].key@ == a[j].key@ && b[j].source == a[j].source && b[j].url
                == a[j].url,
    ensures
        forall|k: Seq<char>| has_key(a, k) ==> #[trigger] has_key(b, k) && index_of(b, k) == index_of(a, k),
        forall|saved: SavedTab, k: Seq<char>|
            restored_record(a, saved, k) ==> #[trigger] restored_record(b, saved, k),
{
    assert forall|k: Seq<char>| has_key(a, k) implies #[trigger] has_key(b, k) && index_of(b, k) == index_of(a, k) by {
        let j = choose|j: int| 0 <= j < a.len() && a[j].key@ == k;
        assert(b[j].key@ == k);
        lemma_index_of(b, j);
        let i = index_of(a, k);
        assert(b[i].key@ == k);
    }
}

/// Keys added after those of `a` keep every reason to skip a saved tab.
proof fn lemma_used_grows(a: Seq<Seq<char>>, b: Seq<Seq<char>>)
    requires
        a.len() <= b.len(),
        forall|j: int| 0 <= j < a.len() ==> b[j] == a[j],
    ensures
        forall|saved: SavedTab| skipped(a, saved) ==> #[trigger] skipped(b, saved),
{
    assert forall|saved: SavedTab| skipped(a, saved) implies #[trigger] skipped(b, saved) by {
        if has_tab_key_of(a, saved.source_id) {
            let j = choose|j: int| 0 <= j < a.len() && is_tab_key_of(a[j], saved.source_id);
            assert(is_tab_key_of(b[j], saved.source_id));
        }
    }
}

/// Each restored key comes from a slot that holds it.
proof fn lemma_restored_key_origin(r: Seq<Option<TabKey>>, j: int)
    requires
        0 <= j < restored_keys(r).len(),
    ensures
        exists|q: int| 0 <= q < r.len() && r[q] is Some && r[q]->0@ == restored_keys(r)[j],
    decreases r.len(),
{
    let prev = restored_keys(r.drop_last());
    if r.last() is Some && j == prev.len() {
        assert(r[r.len() - 1] is Some && r[r.len() - 1]->0@ == restored_keys(r)[j]);
    } else {
        lemma_restored_key_origin(r.drop_last(), j);
        let q = choose|q: int|
            0 <= q < r.drop_last().len() && r.drop_last()[q] is Some && r.drop_last()[q]->0@ == prev[j];
        assert(r[q] == r.drop_last()[q]);
    }
}

/// What observers of the table see: the active key and the tabs in order.
#[derive(Debug)]
pub struct BackendState {
    pub active_tab: Option<TabKey>,
    pub tabs: Vec<TabState>,
}

fn copy_key(k: &Option<TabKey>) -> (r: Option<TabKey>)
    ensures
        r == *k,
{
    match k {
        Some(s) => Some(s.clone()),
        None => None,
    }
}

/// The tab table with its active and playing keys.
pub struct TabsState {
    tabs: Vec<TabState>,
    active_tab_key: Option<TabKey>,
    playing_tab_key: Option<TabKey>,
    minted: Vec<TabKey>,
}

impl View for TabsState {
    type V = SessionModel;

    closed spec fn view(&self) -> SessionModel {
        SessionModel {
            tabs: self.tabs@,
            active: opt_key(self.active_tab_key),
            playing: opt_key(self.playing_tab_key),
            used: self.minted@.map_values(|k: TabKey| k@),
        }
    }
}

impl TabsState {
    pub open spec fn wf(&self) -> bool {
        self@.wf()
    }

    /// An empty table.
    pub fn new() -> (r: TabsState)
        ensures
            r.wf(),
            r@.tabs.len() == 0,
            r@.active is None,
            r@.playing is None,
            r@.used.len() == 0,
    {
        let r = TabsState { tabs: Vec::new(), active_tab_key: None, playing_tab_key: None, minted: Vec::new() };
        proof {
            assert(r@.used =~= Seq::<Seq<char>>::empty());
        }
        r
    }

    /// The number of open tabs.
    pub fn len(&self) -> (r: usize)
        ensures
            r == self@.tabs.len(),
    {
        self.tabs.len()
    }

    /// The position of `key` in the presentation order.
    pub fn position(&self, key: &str) -> (r: Option<usize>)
        requires
            self.wf(),
        ensures
            match r {
                Some(i) => i < self@.tabs.len() && self@.tabs[i as int].key@ == key@,
                None => !has_key(self@.tabs, key@),
            },
    {
        let wanted = key.to_owned();
        let mut i: usize = 0;
        while i < self.tabs.len()
            invariant
                i <= self.tabs@.len(),
                wanted@ == key@,
                forall|j: int| 0 <= j < i ==> self.tabs@[j].key@ != key@,
            decreases self.tabs@.len() - i,
        {
            if self.tabs[i].key == wanted {
                return Some(i);
            }
            i = i + 1;
        }
        None
    }

    /// Makes the tab of `key` the visible one; an unloaded tab has its view
    /// loaded again from its stored URL.
    pub fn show_tab(&mut self, key: &str, now: u64) -> (r: Result<Vec<ViewAction>, TabError>)
        requires
            old(self).wf(),
        ensures
            final(self).wf(),
            match r {
                Ok(actions) => {
                    let i = index_of(old(self)@.tabs, key@);
                    &&& has_key(old(self)@.tabs, key@)
                    &&& final(self)@ == old(self)@.show_at(i, now)
                    &&& actions@ == show_actions(old(self)@.tabs, i)
                },
                Err(e) => {
                    &&& !has_key(old(self)@.tabs, key@)
                    &&& final(self)@ == old(self)@
                    &&& e matches TabError::NotFound(k) && k@ == key@
                },
            },
    {
        match self.position(key) {
            Some(i) => {
                proof {
                    lemma_index_of(self@.tabs, i as int);
                    lemma_show_wf(self@, i as int, now);
                }
                Ok(self.show_index(i, now))
            },
            None => Err(TabError::NotFound(key.to_owned())),
        }
    }

    /// Closes the tab of `key`, if there is one. Where it was the active tab,
    /// a successor is shown: the nearest tab of the same source before it,
    /// else the first after it, else the tab that takes its place.
    pub fn close_tab(&mut self, key: &str, now: u64) -> (actions: Vec<ViewAction>)
        requires
            old(self).wf(),
        ensures
            final(self).wf(),
            has_key(old(self)@.tabs, key@) ==> {
                let i = index_of(old(self)@.tabs, key@);
                &&& final(self)@ == old(self)@.close_at(i, now)
                &&& actions@ == old(self)@.close_actions(i)
            },
            !has_key(old(self)@.tabs, key@) ==> final(self)@ == old(self)@ && actions@.len() == 0,
    {
        match self.position(key) {
            None => Vec::new(),
            Some(i) => {
                let ghost m = self@;
                proof {
                    lemma_index_of(self@.tabs, i as int);
                    lemma_close_wf(self@, i as int, now);
                }
                let closed = self.tabs.remove(i);
                let mut actions: Vec<ViewAction> = Vec::new();
                if match &self.playing_tab_key {
                    Some(k) => *k == closed.key,
                    None => false,
                } {
                    self.playing_tab_key = None;
                }
                let was_active = match &self.active_tab_key {
                    Some(k) => *k == closed.key,
                    None => false,
                };
                if was_active {
                    if self.tabs.len() == 0 {
                        self.active_tab_key = None;
                        actions.push(ViewAction::Close(closed.key));
                    } else {
                        let next = successor_index(&self.tabs, i, closed.source);
                        proof {
                            m.tabs.remove_ensures(i as int);
                            assert(keys_unique(self@.tabs));
                        }
                        let shown_actions = self.show_index(next, now);
                        actions.push(ViewAction::Close(closed.key));
                        let mut shown_actions = shown_actions;
                        actions.append(&mut shown_actions);
                    }
                } else {
                    actions.push(ViewAction::Close(closed.key));
                }
                proof {
                    assert(self@ == m.close_at(i as int, now));
                    assert(actions@ =~= m.close_actions(i as int));
                }
                actions
            },
        }
    }

    /// Whether a new tab of `source` keeps the instance limit.
    pub fn can_create_tab(&self, source: MediaSource) -> (r: bool)
        ensures
            r == can_create(self@.tabs, source),
    {
        if source.multi_instance() {
            return true;
        }
        let mut i: usize = 0;
        while i < self.tabs.len()
            invariant
                i <= self.tabs@.len(),
                !source.spec_multi_instance(),
                forall|j: int| 0 <= j < i ==> self.tabs@[j].source != source,
            decreases self.tabs@.len() - i,
        {
            if self.tabs[i].source == source {
                return false;
            }
            i = i + 1;
        }
        true
    }

    /// Opens a tab of `source` at `url`, or at the source's default URL, under
    /// a freshly minted key, and shows it.
    pub fn create_tab(&mut self, source: MediaSource, url: Option<String>, now: u64)
        -> (r: Result<(TabKey, Vec<ViewAction>), TabError>)
        requires
            old(self).wf(),
        ensures
            final(self).wf(),
            !can_create(old(self)@.tabs, source) ==> r == Err::<(TabKey, Vec<ViewAction>), TabError>(
                TabError::InstanceLimitExceeded(source)),
            can_create(old(self)@.tabs, source) && parsed_url(requested_url(url, source)) is None
                ==> (r matches Err(TabError::InvalidUrl(u)) && u@ == requested_url(url, source)),
            can_create(old(self)@.tabs, source) && parsed_url(requested_url(url, source)) is Some
                && !has_tab_key_of(old(self)@.used, source) ==> r is Ok,
            r matches Err(TabError::InstanceLimitExceeded(_)) ==> !can_create(old(self)@.tabs, source),
            r matches Err(TabError::InvalidUrl(_)) ==> can_create(old(self)@.tabs, source)
                && parsed_url(requested_url(url, source)) is None,
            r matches Err(TabError::DuplicateKey(k)) ==> can_create(old(self)@.tabs, source)
                && parsed_url(requested_url(url, source)) is Some && old(self)@.used.contains(k@)
                && is_tab_key_of(k@, source),
            !(r matches Err(TabError::NotFound(_))),
            match r {
                Ok((key, actions)) => {
                    let n = old(self)@.tabs.len() as int;
                    let t = TabState { status: TabStatus::Unloaded, ..final(self)@.tabs[n] };
                    &&& can_create(old(self)@.tabs, source)
                    &&& parsed_url(requested_url(url, source)) == Some(t.url@)
                    &&& is_tab_key_of(key@, source)
                    &&& !has_key(old(self)@.tabs, key@)
                    &&& !old(self)@.used.contains(key@)
                    &&& final(self)@.tabs.len() == n + 1
                    &&& t.key@ == key@
                    &&& is_new_record(t, source, now)
                    &&& final(self)@ == old(self)@.create(t, now)
                    &&& actions@ == show_actions(old(self)@.tabs.push(t), n)
                },
                Err(_) => final(self)@ == old(self)@,
            },
    {
        if !self.can_create_tab(source) {
            return Err(TabError::InstanceLimitExceeded(source));
        }
        let requested = match url {
            Some(u) => u,
            None => source.default_url().to_owned(),
        };
        let parsed = match parse_url(requested.as_str()) {
            Ok(u) => u,
            Err(_) => {
                return Err(TabError::InvalidUrl(requested));
            },
        };
        let mut attempt: usize = 0;
        let mut key = source.next_tab_key();
        while attempt < KEY_ATTEMPTS && self.was_minted(&key)
            invariant
                self.wf(),
                is_tab_key_of(key@, source),
            decreases KEY_ATTEMPTS - attempt,
        {
            key = source.next_tab_key();
            attempt = attempt + 1;
        }
        let minted = key.clone();
        proof {
            if self@.used.contains(key@) {
                let j = choose|j: int| 0 <= j < self@.used.len() && self@.used[j] == key@;
                assert(is_tab_key_of(self@.used[j], source));
            }
        }
        match self.create_tab_with_key(source, parsed, key, now) {
            Ok(actions) => Ok((minted, actions)),
            Err(e) => Err(e),
        }
    }

    /// Whether `key` was ever added to the table.
    fn was_minted(&self, key: &TabKey) -> (r: bool)
        ensures
            r == self@.used.contains(key@),
    {
        let mut i: usize = 0;
        while i < self.minted.len()
            invariant
                i <= self.minted@.len(),
                forall|j: int| 0 <= j < i ==> self.minted@[j]@ != key@,
            decreases self.minted@.len() - i,
        {
            if self.minted[i] == *key {
                proof {
                    assert(self@.used[i as int] == key@);
                }
                return true;
            }
            i = i + 1;
        }
        proof {
            if self@.used.contains(key@) {
                let j = choose|j: int| 0 <= j < self@.used.len() && self@.used[j] == key@;
                assert(self@.used[j] == self.minted@[j]@);
            }
        }
        false
    }

    /// Adds a tab of `source` at `url` under `key`, already drawn, and shows it.
    pub fn create_tab_with_key(&mut self, source: MediaSource, url: String, key: TabKey, now: u64)
        -> (r: Result<Vec<ViewAction>, TabError>)
        requires
            old(self).wf(),
        ensures
            final(self).wf(),
            match r {
                Ok(actions) => {
                    let n = old(self)@.tabs.len() as int;
                    let t = TabState { status: TabStatus::Unloaded, ..final(self)@.tabs[n] };
                    &&& can_create(old(self)@.tabs, source)
                    &&& !has_key(old(self)@.tabs, key@)
                    &&& !old(self)@.used.contains(key@)
                    &&& final(self)@.tabs.len() == n + 1
                    &&& t.key == key
                    &&& t.url == url
                    &&& is_new_record(t, source, now)
                    &&& final(self)@ == old(self)@.create(t, now)
                    &&& actions@ == show_actions(old(self)@.tabs.push(t), n)
                },
                Err(e) => {
                    &&& final(self)@ == old(self)@
                    &&& !can_create(old(self)@.tabs, source) ==> e == TabError::InstanceLimitExceeded(source)
                    &&& can_create(old(self)@.tabs, source) ==> old(self)@.used.contains(key@)
                        && e == TabError::DuplicateKey(key)
                },
            },
    {
        if !self.can_create_tab(source) {
            return Err(TabError::InstanceLimitExceeded(source));
        }
        if self.was_minted(&key) {
            return Err(TabError::DuplicateKey(key));
        }
        proof {
            if has_key(self@.tabs, key@) {
                let j = choose|j: int| 0 <= j < self@.tabs.len() && self@.tabs[j].key@ == key@;
                assert(self@.used.contains(self@.tabs[j].key@));
            }
        }
        let recorded = key.clone();
        let t = TabState {
            key,
            source,
            url,
            status: TabStatus::Unloaded,
            is_playing: false,
            display_name: source.name().to_owned(),
            last_interaction: now,
        };
        let ghost m = self@;
        let n = self.tabs.len();
        self.tabs.push(t);
        self.minted.push(recorded);
        proof {
            assert(self@.used =~= m.used.push(t.key@));
            lemma_create_wf(m, t, now);
        }
        let actions = self.show_index(n, now);
        Ok(actions)
    }

    /// Applies a playback notification of the tab `event.label`. When it plays,
    /// every other tab stops playing and the keys of the other tabs with a
    /// view are returned, for the host to pause their media. A label that
    /// names no tab changes nothing.
    pub fn apply_playback(&mut self, event: &PlaybackEvent, now: u64) -> (to_pause: Vec<TabKey>)
        requires
            old(self).wf(),
        ensures
            final(self).wf(),
            has_key(old(self)@.tabs, event.label@) ==> {
                let i = index_of(old(self)@.tabs, event.label@);
                if event.playing {
                    &&& final(self)@ == old(self)@.play_at(i, now)
                    &&& to_pause@ == other_open_keys(old(self)@.tabs, i, old(self)@.tabs.len() as int)
                } else {
                    &&& final(self)@ == old(self)@.pause_at(i, now)
                    &&& to_pause@.len() == 0
                }
            },
            !has_key(old(self)@.tabs, event.label@) ==> final(self)@ == old(self)@ && to_pause@.len() == 0,
    {
        let i = match self.position(event.label.as_str()) {
            Some(i) => i,
            None => {
                return Vec::new();
            },
        };
        proof {
            lemma_index_of(self@.tabs, i as int);
        }
        let ghost m = self@;
        let mut to_pause: Vec<TabKey> = Vec::new();
        if event.playing {
            let mut j: usize = 0;
            while j < self.tabs.len()
                invariant
                    i < m.tabs.len(),
                    self.tabs@.len() == m.tabs.len(),
                    j <= m.tabs.len(),
                    forall|k: int| 0 <= k < j && k != i ==> self.tabs@[k] == (TabState {
                        is_playing: false,
                        ..m.tabs[k]
                    }),
                    forall|k: int| j <= k < m.tabs.len() || k == i ==> self.tabs@[k] == m.tabs[k],
                    to_pause@ == other_open_keys(m.tabs, i as int, j as int),
                    self.active_tab_key == old(self).active_tab_key,
                    self.playing_tab_key == old(self).playing_tab_key,
                    self.minted == old(self).minted,
                decreases m.tabs.len() - j,
            {
                if j != i {
                    if self.tabs[j].status != TabStatus::Unloaded {
                        to_pause.push(self.tabs[j].key.clone());
                    }
                    self.tabs[j].is_playing = false;
                }
                j = j + 1;
            }
            self.tabs[i].is_playing = true;
            self.tabs[i].last_interaction = now;
            self.playing_tab_key = Some(self.tabs[i].key.clone());
            proof {
                assert(self@.tabs =~= m.play_at(i as int, now).tabs);
                lemma_same_keys(m.tabs, self@.tabs);
                assert(self@.active_wf()) by {
                    if m.active is Some {
                        assert(has_key(self@.tabs, m.active->0));
                    }
                }
                assert(has_key(self@.tabs, self@.tabs[i as int].key@));
                assert(to_pause@ =~= other_open_keys(m.tabs, i as int, m.tabs.len() as int));
            }
        } else {
            if match &self.playing_tab_key {
                Some(k) => *k == self.tabs[i].key,
                None => false,
            } {
                self.playing_tab_key = None;
            }
            self.tabs[i].is_playing = false;
            self.tabs[i].last_interaction = now;
            proof {
                assert(self@.tabs =~= m.pause_at(i as int, now).tabs);
                lemma_same_keys(m.tabs, self@.tabs);
                if m.active is Some {
                    assert(has_key(self@.tabs, m.active->0));
                }
                if self@.playing is Some {
                    assert(has_key(self@.tabs, m.playing->0));
                }
            }
        }
        to_pause
    }

    /// Applies a title notification of the tab `event.label`: for a source that
    /// allows several tabs, the cleaned title becomes the display name unless
    /// it is empty. A label that names no tab changes nothing.
    pub fn apply_title(&mut self, event: &TitleChangedEvent, now: u64)
        requires
            old(self).wf(),
        ensures
            final(self).wf(),
            has_key(old(self)@.tabs, event.label@) ==> {
                let i = index_of(old(self)@.tabs, event.label@);
                &&& final(self)@.tabs.len() == old(self)@.tabs.len()
                &&& titled(old(self)@.tabs[i], final(self)@.tabs[i], event.title@, now)
                &&& final(self)@ == SessionModel {
                    tabs: old(self)@.tabs.update(i, final(self)@.tabs[i]),
                    ..old(self)@
                }
            },
            !has_key(old(self)@.tabs, event.label@) ==> final(self)@ == old(self)@,
    {
        let i = match self.position(event.label.as_str()) {
            Some(i) => i,
            None => {
                return;
            },
        };
        proof {
            lemma_index_of(self@.tabs, i as int);
        }
        let ghost m = self@;
        let source = self.tabs[i].source;
        if source.multi_instance() {
            let clean = clean_page_title(event.title.as_str(), source.name());
            if !clean.as_str().is_empty() {
                self.tabs[i].display_name = clean;
            }
        }
        self.tabs[i].last_interaction = now;
        proof {
            assert(self@.tabs =~= m.tabs.update(i as int, self@.tabs[i as int]));
            lemma_same_keys(m.tabs, self@.tabs);
            if m.active is Some {
                assert(has_key(self@.tabs, m.active->0));
            }
            if m.playing is Some {
                assert(has_key(self@.tabs, m.playing->0));
            }
        }
    }

    /// The idle sweep: every tab that is neither active nor playing, has a
    /// view, and was last touched `threshold` milliseconds or more before
    /// `now` is unloaded. Returns their keys, for the host to close their
    /// views and hand back each view's last URL.
    pub fn sweep_idle(&mut self, now: u64, threshold: u64) -> (unloaded: Vec<TabKey>)
        requires
            old(self).wf(),
        ensures
            final(self).wf(),
            final(self)@ == old(self)@.sweep(now, threshold),
            unloaded@ == idle_keys(old(self)@, now, threshold, old(self)@.tabs.len() as int),
    {
        let ghost m = self@;
        let mut unloaded: Vec<TabKey> = Vec::new();
        let mut j: usize = 0;
        while j < self.tabs.len()
            invariant
                self.tabs@.len() == m.tabs.len(),
                j <= m.tabs.len(),
                forall|k: int| 0 <= k < j ==> self.tabs@[k] == (if is_idle(m, m.tabs[k], now, threshold) {
                    TabState { status: TabStatus::Unloaded, ..m.tabs[k] }
                } else {
                    m.tabs[k]
                }),
                forall|k: int| j <= k < m.tabs.len() ==> self.tabs@[k] == m.tabs[k],
                unloaded@ == idle_keys(m, now, threshold, j as int),
                self.active_tab_key == old(self).active_tab_key,
                self.playing_tab_key == old(self).playing_tab_key,
                self.minted == old(self).minted,
                m == old(self)@,
            decreases m.tabs.len() - j,
        {
            let is_active = match &self.active_tab_key {
                Some(k) => *k == self.tabs[j].key,
                None => false,
            };
            let is_playing = match &self.playing_tab_key {
                Some(k) => *k == self.tabs[j].key,
                None => false,
            };
            let last = self.tabs[j].last_interaction;
            if !is_active && !is_playing && self.tabs[j].status != TabStatus::Unloaded && now >= last
                && now - last >= threshold {
                unloaded.push(self.tabs[j].key.clone());
                self.tabs[j].unload_tab();
            }
            j = j + 1;
        }
        proof {
            assert(self@.tabs =~= m.sweep(now, threshold).tabs);
            lemma_same_keys(m.tabs, self@.tabs);
            if m.active is Some {
                assert(has_key(self@.tabs, m.active->0));
            }
            if m.playing is Some {
                assert(has_key(self@.tabs, m.playing->0));
            }
        }
        unloaded
    }

    /// Stores the last URL of the tab `key`, as its view reported it when it
    /// was closed.
    pub fn record_url(&mut self, key: &str, url: String) -> (r: Result<(), TabError>)
        requires
            old(self).wf(),
        ensures
            final(self).wf(),
            has_key(old(self)@.tabs, key@) ==> {
                let i = index_of(old(self)@.tabs, key@);
                &&& r is Ok
                &&& final(self)@ == SessionModel {
                    tabs: old(self)@.tabs.update(i, TabState { url: url, ..old(self)@.tabs[i] }),
                    ..old(self)@
                }
            },
            !has_key(old(self)@.tabs, key@) ==> final(self)@ == old(self)@
                && (r matches Err(TabError::NotFound(k)) && k@ == key@),
    {
        let i = match self.position(key) {
            Some(i) => i,
            None => {
                return Err(TabError::NotFound(key.to_owned()));
            },
        };
        proof {
            lemma_index_of(self@.tabs, i as int);
        }
        let ghost m = self@;
        self.tabs[i].url = url;
        proof {
            assert(self@.tabs =~= m.tabs.update(i as int, TabState { url: url, ..m.tabs[i as int] }));
            lemma_same_keys(m.tabs, self@.tabs);
            if m.active is Some {
                assert(has_key(self@.tabs, m.active->0));
            }
            if m.playing is Some {
                assert(has_key(self@.tabs, m.playing->0));
            }
        }
        Ok(())
    }

    /// The key of the active tab.
    pub fn active_key(&self) -> (r: Option<TabKey>)
        ensures
            opt_key(r) == self@.active,
    {
        copy_key(&self.active_tab_key)
    }

    /// The key of the playing tab.
    pub fn playing_key(&self) -> (r: Option<TabKey>)
        ensures
            opt_key(r) == self@.playing,
    {
        copy_key(&self.playing_tab_key)
    }

    /// The record of the tab `key`.
    pub fn tab(&self, key: &str) -> (r: Option<&TabState>)
        requires
            self.wf(),
        ensures
            match r {
                Some(t) => has_key(self@.tabs, key@) && *t == self@.tabs[index_of(self@.tabs, key@)],
                None => !has_key(self@.tabs, key@),
            },
    {
        match self.position(key) {
            Some(i) => {
                proof {
                    lemma_index_of(self@.tabs, i as int);
                }
                Some(&self.tabs[i])
            },
            None => None,
        }
    }

    /// The tab that media keys act on: the playing one, else the active one.
    pub fn media_target(&self) -> (r: Option<TabKey>)
        ensures
            opt_key(r) == self@.media_target(),
    {
        match &self.playing_tab_key {
            Some(k) => Some(k.clone()),
            None => copy_key(&self.active_tab_key),
        }
    }

    /// The tab that a skip key acts on, with the selector of its source's
    /// skip-forward (`next`) or skip-back control.
    pub fn skip_target(&self, next: bool) -> (r: Option<(TabKey, &'static str)>)
        requires
            self.wf(),
        ensures
            match self@.media_target() {
                Some(k) => {
                    let source = self@.tabs[index_of(self@.tabs, k)].source;
                    r matches Some((key, selector)) && key@ == k && selector@ == if next {
                        source.spec_next_selector()
                    } else {
                        source.spec_previous_selector()
                    }
                },
                None => r is None,
            },
    {
        let key = match self.media_target() {
            Some(k) => k,
            None => {
                return None;
            },
        };
        match self.position(key.as_str()) {
            Some(i) => {
                proof {
                    lemma_index_of(self@.tabs, i as int);
                }
                let source = self.tabs[i].source;
                let selector = if next {
                    source.next_selector()
                } else {
                    source.previous_selector()
                };
                Some((key, selector))
            },
            None => None,
        }
    }

    /// The active tab's key and the frame its view takes in a window of the
    /// given metrics.
    pub fn relayout(&self, m: WindowMetrics) -> (r: Option<(TabKey, Frame)>)
        requires
            self.wf(),
        ensures
            match self@.active {
                Some(k) => {
                    let t = self@.tabs[index_of(self@.tabs, k)];
                    r matches Some((key, f)) && key@ == k && f == spec_view_frame(
                        t.source.spec_multi_instance(),
                        m,
                    )
                },
                None => r is None,
            },
    {
        let key = match self.active_key() {
            Some(k) => k,
            None => {
                return None;
            },
        };
        match self.position(key.as_str()) {
            Some(i) => {
                proof {
                    lemma_index_of(self@.tabs, i as int);
                }
                let frame = self.tabs[i].frame(m);
                Some((key, frame))
            },
            None => None,
        }
    }

    /// Copies of the tab records in presentation order.
    pub fn get_ordered_tabs(&self) -> (r: Vec<TabState>)
        ensures
            r@ == self@.tabs,
    {
        let mut r: Vec<TabState> = Vec::new();
        let mut i: usize = 0;
        while i < self.tabs.len()
            invariant
                i <= self.tabs@.len(),
                r@ == self.tabs@.subrange(0, i as int),
            decreases self.tabs@.len() - i,
        {
            r.push(self.tabs[i].duplicate());
            proof {
                assert(self.tabs@.subrange(0, i + 1) =~= self.tabs@.subrange(0, i as int).push(
                    self.tabs@[i as int],
                ));
            }
            i = i + 1;
        }
        proof {
            assert(self.tabs@.subrange(0, self.tabs@.len() as int) =~= self.tabs@);
        }
        r
    }

    /// The snapshot published to observers after each change.
    pub fn state(&self) -> (r: BackendState)
        ensures
            opt_key(r.active_tab) == self@.active,
            r.tabs@ == self@.tabs,
    {
        BackendState { active_tab: copy_key(&self.active_tab_key), tabs: self.get_ordered_tabs() }
    }

    /// The session to persist: key, source and URL of each tab in order, and
    /// the active key.
    pub fn saved_session(&self) -> (r: SavedSession)
        ensures
            opt_key(r.active_tab) == self@.active,
            r.tabs@.len() == self@.tabs.len(),
            forall|i: int|
                0 <= i < r.tabs@.len() ==> {
                    &&& (#[trigger] r.tabs@[i]).key == self@.tabs[i].key
                    &&& r.tabs@[i].source_id == self@.tabs[i].source
                    &&& r.tabs@[i].url == self@.tabs[i].url
                },
    {
        let mut tabs: Vec<SavedTab> = Vec::new();
        let mut i: usize = 0;
        while i < self.tabs.len()
            invariant
                i <= self.tabs@.len(),
                tabs@.len() == i,
                forall|j: int|
                    0 <= j < i ==> {
                        &&& (#[trigger] tabs@[j]).key == self.tabs@[j].key
                        &&& tabs@[j].source_id == self.tabs@[j].source
                        &&& tabs@[j].url == self.tabs@[j].url
                    },
            decreases self.tabs@.len() - i,
        {
            tabs.push(
                SavedTab {
                    key: self.tabs[i].key.clone(),
                    source_id: self.tabs[i].source,
                    url: self.tabs[i].url.clone(),
                },
            );
            i = i + 1;
        }
        SavedSession { tabs, active_tab: copy_key(&self.active_tab_key) }
    }

    /// Reopens a saved session: a tab is created for each saved one in order
    /// (those that cannot be created are skipped), then the tab created for
    /// the saved active one, found by its position since keys are minted
    /// anew, is shown. Returns the view actions and, for each saved tab, the
    /// key minted for it.
    pub fn restore_session(&mut self, session: &SavedSession, now: u64) -> (r: RestoreOutcome)
        requires
            old(self).wf(),
        ensures
            final(self).wf(),
            key_order(final(self)@.tabs) == key_order(old(self)@.tabs) + restored_keys(r.restored@),
            forall|j: int|
                0 <= j < old(self)@.tabs.len() ==> (#[trigger] final(self)@.tabs[j]).source
                    == old(self)@.tabs[j].source && final(self)@.tabs[j].url == old(self)@.tabs[j].url,
            r.restored@.len() == session.tabs@.len(),
            forall|i: int|
                0 <= i < r.restored@.len() ==> match #[trigger] r.restored@[i] {
                    Some(k) => {
                        &&& restored_record(final(self)@.tabs, session.tabs@[i], k@)
                        &&& !has_key(old(self)@.tabs, k@)
                        &&& is_tab_key_of(k@, session.tabs@[i].source_id)
                    },
                    None => skipped(final(self)@.used, session.tabs@[i]),
                },
            final(self)@.used == old(self)@.used + restored_keys(r.restored@),
            forall|i: int|
                0 <= i < session.tabs@.len() && #[trigger] restore_owed(old(self)@, session, i)
                    ==> r.restored@[i] is Some,
            forall|p: int|
                0 <= p < session.tabs@.len() && is_saved_active(session, p) && (#[trigger] r.restored@[p])
                    is Some ==> final(self)@.active == Some(r.restored@[p]->0@),
    {
        let target = active_index(session);
        let ghost m0 = self@;
        let mut actions: Vec<ViewAction> = Vec::new();
        let mut restored: Vec<Option<TabKey>> = Vec::new();
        let mut i: usize = 0;
        proof {
            assert(key_order(self@.tabs) =~= key_order(m0.tabs) + restored_keys(restored@));
            assert(self@.used =~= m0.used + restored_keys(restored@));
        }
        while i < session.tabs.len()
            invariant
                self.wf(),
                m0 == old(self)@,
                i <= session.tabs@.len(),
                restored@.len() == i,
                key_order(self@.tabs) == key_order(m0.tabs) + restored_keys(restored@),
                self@.used == m0.used + restored_keys(restored@),
                m0.tabs.len() <= self@.tabs.len(),
                forall|j: int|
                    0 <= j < m0.tabs.len() ==> (#[trigger] self@.tabs[j]).source == m0.tabs[j].source
                        && self@.tabs[j].url == m0.tabs[j].url,
                forall|j: int|
                    m0.tabs.len() <= j < self@.tabs.len() ==> is_tab_key_of(
                        (#[trigger] self@.tabs[j]).key@,
                        self@.tabs[j].source,
                    ) && exists|q: int| 0 <= q < i && session.tabs@[q].source_id == self@.tabs[j].source,
                forall|q: int|
                    0 <= q < i ==> match #[trigger] restored@[q] {
                        Some(k) => {
                            &&& restored_record(self@.tabs, session.tabs@[q], k@)
                            &&& !has_key(m0.tabs, k@)
                            &&& is_tab_key_of(k@, session.tabs@[q].source_id)
                        },
                        None => skipped(self@.used, session.tabs@[q]),
                    },
                forall|q: int| 0 <= q < i && #[trigger] restore_owed(m0, session, q) ==> restored@[q] is Some,
            decreases session.tabs@.len() - i,
        {
            let saved = &session.tabs[i];
            let ghost before = self@;
            let ghost old_restored = restored@;
            proof {
                if restore_owed(m0, session, i as int) {
                    let src = saved.source_id;
                    assert forall|j: int| 0 <= j < before.used.len() implies !is_tab_key_of(
                        before.used[j],
                        src,
                    ) by {
                        if j < m0.used.len() {
                            assert(before.used[j] == m0.used[j]);
                        } else {
                            let rk = restored_keys(old_restored);
                            assert(before.used[j] == rk[j - m0.used.len()]);
                            lemma_restored_key_origin(old_restored, j - m0.used.len());
                            let q = choose|q: int|
                                0 <= q < old_restored.len() && old_restored[q] is Some && old_restored[q]->0@
                                    == rk[j - m0.used.len()];
                            assert(old_restored[q] == restored@[q]);
                            if is_tab_key_of(before.used[j], src) {
                                lemma_tab_key_source(before.used[j], src, session.tabs@[q].source_id);
                            }
                        }
                    }
                    if !src.spec_multi_instance() {
                        assert forall|j: int| 0 <= j < before.tabs.len() implies before.tabs[j].source != src by {
                            if j >= m0.tabs.len() {
                                let q = choose|q: int| 0 <= q < i && session.tabs@[q].source_id == before.tabs[j].source;
                            }
                        }
                    }
                }
            }
            match self.create_tab(saved.source_id, Some(saved.url.clone()), now) {
                Ok((key, created)) => {
                    proof {
                        let n = before.tabs.len() as int;
                        let t = TabState { status: TabStatus::Unloaded, ..self@.tabs[n] };
                        assert forall|j: int| 0 <= j < n implies self@.tabs[j].key@ == before.tabs[j].key@
                            && self@.tabs[j].source == before.tabs[j].source && self@.tabs[j].url
                            == before.tabs[j].url by {
                            assert(before.tabs.push(t)[j] == before.tabs[j]);
                        }
                        lemma_prefix_kept(before.tabs, self@.tabs);
                        lemma_used_grows(before.used, self@.used);
                        if has_key(m0.tabs, key@) {
                            let j = choose|j: int| 0 <= j < m0.tabs.len() && m0.tabs[j].key@ == key@;
                            assert(key_order(before.tabs)[j] == key_order(m0.tabs)[j]);
                            assert(before.tabs[j].key@ == key@);
                        }
                        lemma_index_of(self@.tabs, n);
                        assert(restored_record(self@.tabs, session.tabs@[i as int], key@));
                        assert(key_order(self@.tabs) =~= key_order(before.tabs).push(key@));
                    }
                    let mut created = created;
                    actions.append(&mut created);
                    restored.push(Some(key));
                    proof {
                        assert(restored@.drop_last() =~= old_restored);
                        assert(key_order(self@.tabs) =~= key_order(m0.tabs) + restored_keys(restored@));
                        assert(self@.used =~= m0.used + restored_keys(restored@));
                        assert forall|j: int|
                            m0.tabs.len() <= j < self@.tabs.len() implies is_tab_key_of(
                                (#[trigger] self@.tabs[j]).key@,
                                self@.tabs[j].source,
                            ) && exists|q: int|
                                0 <= q < i + 1 && session.tabs@[q].source_id == self@.tabs[j].source by {
                            if j == before.tabs.len() {
                                assert(session.tabs@[i as int].source_id == self@.tabs[j].source);
                            } else {
                                let q = choose|q: int| 0 <= q < i && session.tabs@[q].source_id == before.tabs[j].source;
                                assert(session.tabs@[q].source_id == self@.tabs[j].source);
                            }
                        }
                    }
                },
                Err(e) => {
                    proof {
                        if let TabError::DuplicateKey(k) = e {
                            let j = choose|j: int| 0 <= j < self@.used.len() && self@.used[j] == k@;
                            assert(is_tab_key_of(self@.used[j], saved.source_id));
                        }
                    }
                    restored.push(None);
                    proof {
                        assert(restored@.drop_last() =~= old_restored);
                    }
                },
            }
            proof {
                assert forall|q: int| 0 <= q < i + 1 implies match #[trigger] restored@[q] {
                    Some(k) => {
                        &&& restored_record(self@.tabs, session.tabs@[q], k@)
                        &&& !has_key(m0.tabs, k@)
                        &&& is_tab_key_of(k@, session.tabs@[q].source_id)
                    },
                    None => skipped(self@.used, session.tabs@[q]),
                } by {
                    if q < i {
                        assert(restored@[q] == old_restored[q]);
                    }
                }
                assert forall|q: int| 0 <= q < i + 1 && #[trigger] restore_owed(m0, session, q)
                    implies restored@[q] is Some by {
                    if q < i {
                        assert(restored@[q] == old_restored[q]);
                    }
                }
            }
            i = i + 1;
        }
        if let Some(p) = target {
            if let Some(key) = &restored[p] {
                let ghost before = self@;
                proof {
                    assert(restored_record(self@.tabs, session.tabs@[p as int], key@));
                }
                if let Ok(shown) = self.show_tab(key.as_str(), now) {
                    let mut shown = shown;
                    actions.append(&mut shown);
                    proof {
                        lemma_index_of(before.tabs, index_of(before.tabs, key@));
                        lemma_show_wf(before, index_of(before.tabs, key@), now);
                        lemma_prefix_kept(before.tabs, self@.tabs);
                    }
                }
            }
        }
        proof {
            assert forall|p: int|
                0 <= p < session.tabs@.len() && is_saved_active(session, p) && (#[trigger] restored@[p])
                    is Some implies self@.active == Some(restored@[p]->0@) by {
                assert(target == Some(p as usize));
            }
        }
        RestoreOutcome { actions, restored }
    }

    /// Shows the tab at position `i`: every other tab goes to the background
    /// and the target becomes the active one.
    fn show_index(&mut self, i: usize, now: u64) -> (actions: Vec<ViewAction>)
        requires
            i < old(self)@.tabs.len(),
            keys_unique(old(self)@.tabs),
        ensures
            final(self)@ == old(self)@.show_at(i as int, now),
            actions@ == show_actions(old(self)@.tabs, i as int),
    {
        let ghost old_tabs = self.tabs@;
        let mut actions: Vec<ViewAction> = Vec::new();
        let mut j: usize = 0;
        while j < self.tabs.len()
            invariant
                i < old_tabs.len(),
                self.tabs@.len() == old_tabs.len(),
                j <= old_tabs.len(),
                forall|k: int| 0 <= k < j && k != i ==> self.tabs@[k] == (TabState {
                    status: hidden_status(old_tabs[k].status),
                    ..old_tabs[k]
                }),
                forall|k: int| j <= k < old_tabs.len() || k == i ==> self.tabs@[k] == old_tabs[k],
                actions@ == hide_actions(old_tabs, i as int, j as int),
                self.active_tab_key == old(self).active_tab_key,
                self.playing_tab_key == old(self).playing_tab_key,
                self.minted == old(self).minted,
            decreases old_tabs.len() - j,
        {
            if j != i {
                if self.tabs[j].status != TabStatus::Unloaded {
                    actions.push(ViewAction::Hide(self.tabs[j].key.clone()));
                }
                self.tabs[j].to_background();
            }
            j = j + 1;
        }
        let needs_load = self.tabs[i].show(now);
        if needs_load {
            actions.push(
                ViewAction::Load {
                    key: self.tabs[i].key.clone(),
                    url: self.tabs[i].url.clone(),
                    source: self.tabs[i].source,
                },
            );
        }
        actions.push(ViewAction::Show(self.tabs[i].key.clone()));
        self.active_tab_key = Some(self.tabs[i].key.clone());
        assert(self.tabs@ =~= shown(old_tabs, i as int, now));
        assert(actions@ =~= show_actions(old_tabs, i as int));
        actions
    }
}

} // verus!
