//! Properties of every table the operations can produce. `TabsState::new`
//! establishes `wf` and every operation preserves it, so each property below
//! holds in every reachable state.

use vstd::prelude::*;
use crate::catalog::MediaSource;
use crate::tab::{TabState, TabStatus};
use crate::tabs_state::{
    lemma_close_wf, has_key, hide_actions, index_of, is_idle, key_order, key_table, keys_unique, show_actions, SessionModel,
    TabsState, ViewAction,
};

verus! {

/// The presentation order lists every key of the table exactly once.
pub proof fn lemma_order_is_permutation(s: &TabsState)
    requires
        s.wf(),
    ensures
        key_order(s@.tabs).no_duplicates(),
        key_order(s@.tabs).to_set() == key_table(s@.tabs).dom(),
{
    lemma_order_is_permutation_model(s@);
}

proof fn lemma_order_is_permutation_model(m: SessionModel)
    requires
        m.wf(),
    ensures
        key_order(m.tabs).no_duplicates(),
        key_order(m.tabs).to_set() == key_table(m.tabs).dom(),
{
    let tabs = m.tabs;
    let order = key_order(tabs);
    assert forall|k: Seq<char>| order.to_set().contains(k) <==> key_table(tabs).dom().contains(k) by {
        if order.contains(k) {
            let i = choose|i: int| 0 <= i < order.len() && order[i] == k;
            assert(tabs[i].key@ == k);
        }
        if has_key(tabs, k) {
            let i = choose|i: int| 0 <= i < tabs.len() && tabs[i].key@ == k;
            assert(order[i] == k);
        }
    }
    assert(order.to_set() =~= key_table(tabs).dom());
}

/// At most one tab is active, and the active key names an active tab.
pub proof fn lemma_single_active(s: &TabsState)
    requires
        s.wf(),
    ensures
        forall|i: int, j: int|
            0 <= i < s@.tabs.len() && 0 <= j < s@.tabs.len() && s@.tabs[i].status == TabStatus::Active
                && s@.tabs[j].status == TabStatus::Active ==> i == j,
        s@.active matches Some(k) ==> has_key(s@.tabs, k) && s@.tabs[index_of(s@.tabs, k)].status
            == TabStatus::Active,
{
    if s@.active is Some {
        let k = s@.active->0;
        let i = choose|i: int| 0 <= i < s@.tabs.len() && s@.tabs[i].key@ == k;
        assert(s@.tabs[i].key@ == k);
    }
}

/// At most one tab plays, and the playing key names a playing tab.
pub proof fn lemma_single_playing(s: &TabsState)
    requires
        s.wf(),
    ensures
        forall|i: int, j: int|
            0 <= i < s@.tabs.len() && 0 <= j < s@.tabs.len() && s@.tabs[i].is_playing
                && s@.tabs[j].is_playing ==> i == j,
        s@.playing matches Some(k) ==> has_key(s@.tabs, k) && s@.tabs[index_of(s@.tabs, k)].is_playing,
{
    if s@.playing is Some {
        let k = s@.playing->0;
        let i = choose|i: int| 0 <= i < s@.tabs.len() && s@.tabs[i].key@ == k;
        assert(s@.tabs[i].key@ == k);
    }
}

/// A source that allows a single tab has at most one.
pub proof fn lemma_instance_limit(s: &TabsState, source: MediaSource)
    requires
        s.wf(),
        !source.spec_multi_instance(),
    ensures
        forall|i: int, j: int|
            0 <= i < s@.tabs.len() && 0 <= j < s@.tabs.len() && s@.tabs[i].source == source
                && s@.tabs[j].source == source ==> i == j,
{
}

/// Closing a tab removes its key, so closing it again changes nothing.
pub proof fn lemma_close_removes_key(m: SessionModel, i: int, now: u64)
    requires
        m.wf(),
        0 <= i < m.tabs.len(),
    ensures
        !has_key(m.close_at(i, now).tabs, m.tabs[i].key@),
        m.close_at(i, now).tabs.len() == m.tabs.len() - 1,
{
    let rest = m.tabs.remove(i);
    let key = m.tabs[i].key@;
    m.tabs.remove_ensures(i);
    assert forall|j: int| 0 <= j < rest.len() implies rest[j].key@ != key by {
        let j2 = if j < i { j } else { j + 1 };
        assert(rest[j] == m.tabs[j2]);
    }
    let r = m.close_at(i, now);
    assert forall|j: int| 0 <= j < r.tabs.len() implies r.tabs[j].key@ != key by {
        assert(r.tabs[j].key@ == rest[j].key@);
    }
}

/// No transition forgets a key that the table has held, and creating a tab
/// records its key; since `create_tab` only accepts a key that was never
/// held, no key is used twice.
pub proof fn lemma_used_keys_kept(m: SessionModel, t: TabState, i: int, now: u64, threshold: u64)
    requires
        m.wf(),
        0 <= i < m.tabs.len(),
    ensures
        m.show_at(i, now).used == m.used,
        m.close_at(i, now).used == m.used,
        m.play_at(i, now).used == m.used,
        m.pause_at(i, now).used == m.used,
        m.sweep(now, threshold).used == m.used,
        m.create(t, now).used == m.used.push(t.key@),
{
}

/// The keys other than `k`.
pub open spec fn other_than(k: Seq<char>) -> spec_fn(Seq<char>) -> bool {
    |x: Seq<char>| x != k
}

proof fn lemma_filter_keeps_all(s: Seq<Seq<char>>, k: Seq<char>)
    requires
        forall|j: int| 0 <= j < s.len() ==> s[j] != k,
    ensures
        s.filter(other_than(k)) == s,
    decreases s.len(),
{
    reveal(Seq::filter);
    if s.len() > 0 {
        lemma_filter_keeps_all(s.drop_last(), k);
        assert(s.drop_last().push(s.last()) =~= s);
    }
}

/// Closing a tab removes its key from the order and keeps the others in
/// their order; the order still lists each key of the table once.
pub proof fn lemma_close_filters_order(m: SessionModel, i: int, now: u64)
    requires
        m.wf(),
        0 <= i < m.tabs.len(),
    ensures
        key_order(m.close_at(i, now).tabs) == key_order(m.tabs).filter(other_than(m.tabs[i].key@)),
        key_order(m.close_at(i, now).tabs).no_duplicates(),
        key_order(m.close_at(i, now).tabs).to_set() == key_table(m.close_at(i, now).tabs).dom(),
{
    let order = key_order(m.tabs);
    let k = m.tabs[i].key@;
    let a = order.subrange(0, i);
    let b = order.subrange(i + 1, order.len() as int);
    lemma_close_keeps_order(m, i, now);
    assert(order =~= a + seq![k] + b);
    assert forall|j: int| 0 <= j < a.len() implies a[j] != k by {
        assert(a[j] == m.tabs[j].key@);
    }
    assert forall|j: int| 0 <= j < b.len() implies b[j] != k by {
        assert(b[j] == m.tabs[j + i + 1].key@);
    }
    lemma_filter_keeps_all(a, k);
    lemma_filter_keeps_all(b, k);
    Seq::filter_distributes_over_add(a + seq![k], b, other_than(k));
    Seq::filter_distributes_over_add(a, seq![k], other_than(k));
    reveal(Seq::filter);
    assert(seq![k].drop_last() =~= Seq::<Seq<char>>::empty());
    assert(!(other_than(k))(k));
    assert(Seq::<Seq<char>>::empty().filter(other_than(k)) =~= Seq::<Seq<char>>::empty());
    assert(seq![k].last() == k);
    assert(seq![k].filter(other_than(k)) =~= Seq::<Seq<char>>::empty());
    assert(order.remove(i) =~= a + b);
    lemma_close_wf(m, i, now);
    lemma_order_is_permutation_model(m.close_at(i, now));
}

/// Closing the tab at `i` leaves the other keys in their order.
pub proof fn lemma_close_keeps_order(m: SessionModel, i: int, now: u64)
    requires
        m.wf(),
        0 <= i < m.tabs.len(),
    ensures
        key_order(m.close_at(i, now).tabs) == key_order(m.tabs).remove(i),
{
    let rest = m.tabs.remove(i);
    m.tabs.remove_ensures(i);
    let r = m.close_at(i, now);
    assert(r.tabs.len() == rest.len());
    assert forall|j: int| 0 <= j < r.tabs.len() implies r.tabs[j].key@ == rest[j].key@ by {}
    assert(key_order(r.tabs) =~= key_order(m.tabs).remove(i));
}

/// A background tab that neither plays nor is active, and has been untouched
/// for the threshold, is unloaded by the sweep: it keeps its place, key,
/// source, URL and name; showing it again loads its view at that URL.
pub proof fn lemma_sweep_unloads_idle(m: SessionModel, i: int, now: u64, threshold: u64)
    requires
        m.wf(),
        0 <= i < m.tabs.len(),
        m.tabs[i].status == TabStatus::Background,
        !m.tabs[i].is_playing,
        now - m.tabs[i].last_interaction >= threshold,
    ensures
        m.sweep(now, threshold).tabs[i] == (TabState { status: TabStatus::Unloaded, ..m.tabs[i] }),
        key_order(m.sweep(now, threshold).tabs) == key_order(m.tabs),
        show_actions(m.sweep(now, threshold).tabs, i) == hide_actions(
            m.sweep(now, threshold).tabs,
            i,
            m.tabs.len() as int,
        ) + seq![
            ViewAction::Load { key: m.tabs[i].key, url: m.tabs[i].url, source: m.tabs[i].source },
            ViewAction::Show(m.tabs[i].key),
        ],
{
    let s = m.sweep(now, threshold);
    assert(is_idle(m, m.tabs[i], now, threshold));
    assert(key_order(s.tabs) =~= key_order(m.tabs));
    assert(show_actions(s.tabs, i) =~= hide_actions(s.tabs, i, m.tabs.len() as int) + seq![
        ViewAction::Load { key: m.tabs[i].key, url: m.tabs[i].url, source: m.tabs[i].source },
        ViewAction::Show(m.tabs[i].key),
    ]);
}

/// After the tab at `i` is shown, it is the active tab, so `relayout` gives
/// its view the frame of its source.
pub proof fn lemma_shown_tab_is_laid_out(m: SessionModel, i: int, now: u64)
    requires
        keys_unique(m.tabs),
        0 <= i < m.tabs.len(),
    ensures
        m.show_at(i, now).active == Some(m.tabs[i].key@),
        has_key(m.show_at(i, now).tabs, m.tabs[i].key@),
        m.show_at(i, now).tabs[index_of(m.show_at(i, now).tabs, m.tabs[i].key@)].source == m.tabs[i].source,
{
    let s = m.show_at(i, now);
    assert(s.tabs[i].key@ == m.tabs[i].key@);
    let j = index_of(s.tabs, m.tabs[i].key@);
    assert(s.tabs[j].key@ == m.tabs[j].key@);
}

} // verus!
