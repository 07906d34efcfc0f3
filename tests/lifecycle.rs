use medya::catalog::MediaSource;
use medya::session::SavedSession;
use medya::playback::PlaybackEvent;
use medya::tab::{TabState, TabStatus};
use medya::tabs_state::{TabError, TabsState, ViewAction, IDLE_THRESHOLD_MS};

fn event(label: &str, playing: bool) -> PlaybackEvent {
    PlaybackEvent { label: label.to_string(), playing, title: None, artist: None, artwork_url: None }
}

fn open(state: &mut TabsState, source: MediaSource, now: u64) -> String {
    let (key, _) = state.create_tab(source, None, now).expect("tab is created");
    key
}

fn statuses(state: &TabsState) -> Vec<TabStatus> {
    state.get_ordered_tabs().iter().map(|t| t.status).collect()
}

fn keys(state: &TabsState) -> Vec<String> {
    state.get_ordered_tabs().iter().map(|t| t.key.clone()).collect()
}

fn check_invariants(state: &TabsState) {
    let tabs: Vec<TabState> = state.get_ordered_tabs();
    for i in 0..tabs.len() {
        for j in 0..tabs.len() {
            if i != j {
                assert_ne!(tabs[i].key, tabs[j].key);
                if tabs[i].source == tabs[j].source {
                    assert!(tabs[i].source.multi_instance());
                }
            }
        }
    }
    let active: Vec<&TabState> = tabs.iter().filter(|t| t.status == TabStatus::Active).collect();
    assert!(active.len() <= 1);
    match state.active_key() {
        Some(k) => assert_eq!(active[0].key, k),
        None => assert!(active.is_empty()),
    }
    let playing: Vec<&TabState> = tabs.iter().filter(|t| t.is_playing).collect();
    assert!(playing.len() <= 1);
    match state.playing_key() {
        Some(k) => assert_eq!(playing[0].key, k),
        None => assert!(playing.is_empty()),
    }
}

#[test]
fn two_tabs_of_a_multi_instance_source() {
    let mut state = TabsState::new();
    let a = open(&mut state, MediaSource::YouTube, 1);
    let b = open(&mut state, MediaSource::YouTube, 2);
    assert_ne!(a, b);
    let tabs = state.get_ordered_tabs();
    assert_eq!(tabs.len(), 2);
    assert_eq!(tabs[0].source, MediaSource::YouTube);
    assert_eq!(tabs[1].source, MediaSource::YouTube);
    assert_eq!(state.active_key(), Some(b.clone()));
    assert_eq!(statuses(&state), vec![TabStatus::Background, TabStatus::Active]);
    check_invariants(&state);
}

#[test]
fn second_tab_of_a_single_instance_source_is_refused() {
    let mut state = TabsState::new();
    open(&mut state, MediaSource::AppleMusic, 1);
    let r = state.create_tab(MediaSource::AppleMusic, None, 2);
    assert!(matches!(r, Err(TabError::InstanceLimitExceeded(MediaSource::AppleMusic))));
    assert_eq!(state.len(), 1);
    check_invariants(&state);
}

#[test]
fn closing_the_active_tab_falls_back_to_the_tab_in_its_place() {
    let mut state = TabsState::new();
    let a = open(&mut state, MediaSource::AppleMusic, 1);
    let b = open(&mut state, MediaSource::YouTube, 2);
    let c = open(&mut state, MediaSource::SoundCloud, 3);
    state.show_tab(&b, 4).expect("tab exists");
    assert_eq!(state.active_key(), Some(b.clone()));
    let actions = state.close_tab(&b, 5);
    assert_eq!(keys(&state), vec![a.clone(), c.clone()]);
    assert_eq!(state.active_key(), Some(c.clone()));
    assert_eq!(statuses(&state), vec![TabStatus::Background, TabStatus::Active]);
    assert!(matches!(&actions[0], ViewAction::Close(k) if *k == b));
    assert!(matches!(actions.last(), Some(ViewAction::Show(k)) if *k == c));
    check_invariants(&state);
}

#[test]
fn closing_the_active_tab_prefers_an_earlier_tab_of_its_source() {
    let mut state = TabsState::new();
    let y1 = open(&mut state, MediaSource::YouTube, 1);
    let _s = open(&mut state, MediaSource::SoundCloud, 2);
    let y2 = open(&mut state, MediaSource::YouTube, 3);
    let _a = open(&mut state, MediaSource::AppleMusic, 4);
    let y3 = open(&mut state, MediaSource::YouTube, 5);
    state.show_tab(&y2, 6).unwrap();
    state.close_tab(&y2, 7);
    assert_eq!(state.active_key(), Some(y1));
    state.show_tab(&y3, 8).unwrap();
    state.close_tab(&y3, 9);
    assert_eq!(state.len(), 3);
    check_invariants(&state);
}

#[test]
fn closing_the_active_tab_takes_a_later_tab_of_its_source() {
    let mut state = TabsState::new();
    let _a = open(&mut state, MediaSource::AppleMusic, 1);
    let y1 = open(&mut state, MediaSource::YouTube, 2);
    let _s = open(&mut state, MediaSource::SoundCloud, 3);
    let y2 = open(&mut state, MediaSource::YouTube, 4);
    state.show_tab(&y1, 5).unwrap();
    state.close_tab(&y1, 6);
    assert_eq!(state.active_key(), Some(y2));
    check_invariants(&state);
}

#[test]
fn closing_the_last_tab_in_order_falls_back_to_the_new_last() {
    let mut state = TabsState::new();
    let a = open(&mut state, MediaSource::AppleMusic, 1);
    let s = open(&mut state, MediaSource::SoundCloud, 2);
    state.close_tab(&s, 3);
    assert_eq!(state.active_key(), Some(a));
    check_invariants(&state);
}

#[test]
fn closing_the_only_tab_clears_the_active_key() {
    let mut state = TabsState::new();
    let a = open(&mut state, MediaSource::SoundCloud, 1);
    let actions = state.close_tab(&a, 2);
    assert_eq!(state.len(), 0);
    assert_eq!(state.active_key(), None);
    assert_eq!(actions.len(), 1);
    check_invariants(&state);
}

#[test]
fn closing_an_absent_key_changes_nothing() {
    let mut state = TabsState::new();
    let a = open(&mut state, MediaSource::YouTube, 1);
    let before = keys(&state);
    let actions = state.close_tab("no-such-tab", 2);
    assert!(actions.is_empty());
    assert_eq!(keys(&state), before);
    assert_eq!(state.active_key(), Some(a.clone()));
    state.close_tab(&a, 3);
    let actions = state.close_tab(&a, 4);
    assert!(actions.is_empty());
    assert_eq!(state.len(), 0);
}

#[test]
fn closing_a_background_tab_keeps_the_active_one() {
    let mut state = TabsState::new();
    let a = open(&mut state, MediaSource::AppleMusic, 1);
    let b = open(&mut state, MediaSource::SoundCloud, 2);
    let actions = state.close_tab(&a, 3);
    assert_eq!(actions.len(), 1);
    assert_eq!(state.active_key(), Some(b));
    check_invariants(&state);
}

#[test]
fn closing_the_playing_tab_clears_the_playing_key() {
    let mut state = TabsState::new();
    let a = open(&mut state, MediaSource::AppleMusic, 1);
    let _b = open(&mut state, MediaSource::SoundCloud, 2);
    state.apply_playback(&event(&a, true), 3);
    assert_eq!(state.playing_key(), Some(a.clone()));
    state.close_tab(&a, 4);
    assert_eq!(state.playing_key(), None);
    check_invariants(&state);
}

#[test]
fn showing_an_absent_key_is_not_found() {
    let mut state = TabsState::new();
    open(&mut state, MediaSource::YouTube, 1);
    let r = state.show_tab("missing", 2);
    assert!(matches!(r, Err(TabError::NotFound(k)) if k == "missing"));
    check_invariants(&state);
}

#[test]
fn showing_a_tab_hides_the_others() {
    let mut state = TabsState::new();
    let a = open(&mut state, MediaSource::AppleMusic, 1);
    let b = open(&mut state, MediaSource::SoundCloud, 2);
    let actions = state.show_tab(&a, 10).unwrap();
    assert_eq!(actions.len(), 2);
    assert!(matches!(&actions[0], ViewAction::Hide(k) if *k == b));
    assert!(matches!(&actions[1], ViewAction::Show(k) if *k == a));
    assert_eq!(state.tab(&a).unwrap().last_interaction, 10);
    assert_eq!(statuses(&state), vec![TabStatus::Active, TabStatus::Background]);
    check_invariants(&state);
}

#[test]
fn a_new_tab_is_loaded_and_shown() {
    let mut state = TabsState::new();
    let (key, actions) = state.create_tab(MediaSource::SoundCloud, None, 7).unwrap();
    assert_eq!(actions.len(), 2);
    match &actions[0] {
        ViewAction::Load { key: k, url, source } => {
            assert_eq!(*k, key);
            assert_eq!(url, "https://soundcloud.com/");
            assert_eq!(*source, MediaSource::SoundCloud);
        }
        other => panic!("unexpected action {:?}", other),
    }
    assert!(matches!(&actions[1], ViewAction::Show(k) if *k == key));
    let tab = state.tab(&key).unwrap();
    assert_eq!(tab.display_name, "SoundCloud");
    assert_eq!(tab.status, TabStatus::Active);
    assert!(!tab.is_playing);
    assert_eq!(tab.last_interaction, 7);
}

#[test]
fn a_given_url_is_parsed_and_normalised() {
    let mut state = TabsState::new();
    let (key, _) = state
        .create_tab(MediaSource::YouTube, Some("HTTPS://WWW.YouTube.com/watch?v=abc".to_string()), 1)
        .unwrap();
    assert_eq!(state.tab(&key).unwrap().url, "https://www.youtube.com/watch?v=abc");
}

#[test]
fn an_invalid_url_is_refused() {
    let mut state = TabsState::new();
    let r = state.create_tab(MediaSource::YouTube, Some("not a url".to_string()), 1);
    assert!(matches!(r, Err(TabError::InvalidUrl(u)) if u == "not a url"));
    assert_eq!(state.len(), 0);
}

#[test]
fn a_drawn_key_already_in_use_is_refused() {
    let mut state = TabsState::new();
    state
        .create_tab_with_key(MediaSource::YouTube, "https://www.youtube.com/".to_string(), "k".to_string(), 1)
        .unwrap();
    let r = state.create_tab_with_key(MediaSource::YouTube, "https://www.youtube.com/".to_string(), "k".to_string(), 2);
    assert!(matches!(r, Err(TabError::DuplicateKey(k)) if k == "k"));
    assert_eq!(state.len(), 1);
}

#[test]
fn the_key_of_a_closed_tab_is_not_used_again() {
    let mut state = TabsState::new();
    let url = "https://www.youtube.com/".to_string();
    state.create_tab_with_key(MediaSource::YouTube, url.clone(), "k".to_string(), 1).unwrap();
    state.close_tab("k", 2);
    assert_eq!(state.len(), 0);
    let r = state.create_tab_with_key(MediaSource::YouTube, url, "k".to_string(), 3);
    assert!(matches!(r, Err(TabError::DuplicateKey(k)) if k == "k"));
    assert_eq!(state.len(), 0);
}

#[test]
fn minted_keys_carry_the_source_id_and_six_alphanumerics() {
    let key = MediaSource::SoundCloud.next_tab_key();
    assert!(key.starts_with("SoundCloud-"));
    let suffix = &key["SoundCloud-".len()..];
    assert_eq!(suffix.len(), 6);
    assert!(suffix.chars().all(|c| c.is_ascii_alphanumeric()));
}

#[test]
fn an_idle_background_tab_is_unloaded_and_reloaded_at_its_url() {
    let mut state = TabsState::new();
    let minute: u64 = 60_000;
    let a = open(&mut state, MediaSource::SoundCloud, 0);
    let b = open(&mut state, MediaSource::AppleMusic, minute);
    let now = 16 * minute;
    let unloaded = state.sweep_idle(now, IDLE_THRESHOLD_MS);
    assert_eq!(unloaded, vec![a.clone()]);
    state.record_url(&a, "https://soundcloud.com/discover".to_string()).unwrap();
    assert_eq!(state.tab(&a).unwrap().status, TabStatus::Unloaded);
    assert_eq!(state.tab(&b).unwrap().status, TabStatus::Active);
    let actions = state.show_tab(&a, now + 1).unwrap();
    assert!(actions.iter().any(|x| matches!(x,
        ViewAction::Load { key, url, .. } if *key == a && url == "https://soundcloud.com/discover")));
    assert_eq!(state.tab(&a).unwrap().status, TabStatus::Active);
    check_invariants(&state);
}

#[test]
fn the_sweep_spares_active_playing_and_recent_tabs() {
    let mut state = TabsState::new();
    let minute: u64 = 60_000;
    let y1 = open(&mut state, MediaSource::YouTube, 0);
    let y2 = open(&mut state, MediaSource::YouTube, 0);
    let y3 = open(&mut state, MediaSource::YouTube, 10 * minute);
    let a = open(&mut state, MediaSource::AppleMusic, 0);
    state.apply_playback(&event(&y1, true), 0);
    let unloaded = state.sweep_idle(20 * minute, IDLE_THRESHOLD_MS);
    assert_eq!(unloaded, vec![y2.clone()]);
    assert_eq!(state.tab(&y1).unwrap().status, TabStatus::Background);
    assert_eq!(state.tab(&y3).unwrap().status, TabStatus::Background);
    assert_eq!(state.tab(&a).unwrap().status, TabStatus::Active);
    assert!(state.sweep_idle(20 * minute, IDLE_THRESHOLD_MS).is_empty());
    let unloaded = state.sweep_idle(10 * minute + IDLE_THRESHOLD_MS, IDLE_THRESHOLD_MS);
    assert_eq!(unloaded, vec![y3]);
    check_invariants(&state);
}

#[test]
fn recording_a_url_of_an_absent_tab_is_not_found() {
    let mut state = TabsState::new();
    let r = state.record_url("missing", "https://example.com/".to_string());
    assert!(matches!(r, Err(TabError::NotFound(_))));
}

#[test]
fn the_session_lists_tabs_in_order_with_the_active_key() {
    let mut state = TabsState::new();
    let a = open(&mut state, MediaSource::AppleMusic, 1);
    let y = open(&mut state, MediaSource::YouTube, 2);
    state.show_tab(&a, 3).unwrap();
    let saved = state.saved_session();
    assert_eq!(saved.active_tab, Some(a.clone()));
    assert_eq!(saved.tabs.len(), 2);
    assert_eq!(saved.tabs[0].key, a);
    assert_eq!(saved.tabs[0].source_id, MediaSource::AppleMusic);
    assert_eq!(saved.tabs[0].url, "https://music.apple.com/");
    assert_eq!(saved.tabs[1].key, y);
    assert_eq!(saved.tabs[1].source_id, MediaSource::YouTube);
}

#[test]
fn restoring_a_session_activates_the_tab_at_the_saved_position() {
    let mut before = TabsState::new();
    let _y1 = open(&mut before, MediaSource::YouTube, 1);
    let y2 = open(&mut before, MediaSource::YouTube, 2);
    let _s = open(&mut before, MediaSource::SoundCloud, 3);
    before.record_url(&y2, "https://www.youtube.com/watch?v=xyz".to_string()).unwrap();
    before.show_tab(&y2, 4).unwrap();
    let saved: SavedSession = before.saved_session();

    let mut after = TabsState::new();
    let outcome = after.restore_session(&saved, 10);
    let tabs = after.get_ordered_tabs();
    assert_eq!(tabs.len(), 3);
    assert_eq!(outcome.restored.len(), 3);
    for (i, key) in outcome.restored.iter().enumerate() {
        assert_eq!(key.as_ref(), Some(&tabs[i].key));
    }
    assert!(matches!(outcome.actions.last(), Some(ViewAction::Show(k)) if *k == tabs[1].key));
    assert_eq!(tabs[1].url, "https://www.youtube.com/watch?v=xyz");
    assert_eq!(after.active_key(), Some(tabs[1].key.clone()));
    assert_ne!(tabs[1].key, y2);
    check_invariants(&after);
}

#[test]
fn restoring_skips_tabs_that_cannot_be_created() {
    let mut before = TabsState::new();
    open(&mut before, MediaSource::AppleMusic, 1);
    let mut saved = before.saved_session();
    let first = saved.tabs.remove(0);
    saved.tabs.push(medya::session::SavedTab { key: "x".to_string(), source_id: first.source_id, url: first.url.clone() });
    saved.tabs.push(first);
    let mut after = TabsState::new();
    let outcome = after.restore_session(&saved, 2);
    assert_eq!(after.len(), 1);
    assert!(outcome.restored[0].is_some());
    assert!(outcome.restored[1].is_none());
    assert_eq!(after.active_key(), outcome.restored[0].clone());
    check_invariants(&after);
}

#[test]
fn the_published_state_mirrors_the_table() {
    let mut state = TabsState::new();
    let a = open(&mut state, MediaSource::YouTube, 1);
    let snapshot = state.state();
    assert_eq!(snapshot.active_tab, Some(a.clone()));
    assert_eq!(snapshot.tabs.len(), 1);
    assert_eq!(snapshot.tabs[0].key, a);
}
