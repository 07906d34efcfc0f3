use medya::catalog::MediaSource;
use medya::playback::{PlaybackEvent, TitleChangedEvent};
use medya::tab::TabStatus;
use medya::tabs_state::TabsState;
use medya::title::clean_page_title;

fn title_event(label: &str, title: &str) -> TitleChangedEvent {
    TitleChangedEvent { label: label.to_string(), title: title.to_string() }
}

fn event(label: &str, playing: bool) -> PlaybackEvent {
    PlaybackEvent { label: label.to_string(), playing, title: None, artist: None, artwork_url: None }
}

fn open(state: &mut TabsState, source: MediaSource, now: u64) -> String {
    state.create_tab(source, None, now).expect("tab is created").0
}

fn playing_count(state: &TabsState) -> usize {
    state.get_ordered_tabs().iter().filter(|t| t.is_playing).count()
}

#[test]
fn a_second_playing_tab_takes_over_from_the_first() {
    let mut state = TabsState::new();
    let a = open(&mut state, MediaSource::AppleMusic, 1);
    let b = open(&mut state, MediaSource::SoundCloud, 2);
    let pause = state.apply_playback(&event(&a, true), 3);
    assert_eq!(pause, vec![b.clone()]);
    assert_eq!(state.playing_key(), Some(a.clone()));
    assert_eq!(playing_count(&state), 1);
    let pause = state.apply_playback(&event(&b, true), 4);
    assert_eq!(pause, vec![a.clone()]);
    assert!(!state.tab(&a).unwrap().is_playing);
    assert!(state.tab(&b).unwrap().is_playing);
    assert_eq!(state.playing_key(), Some(b.clone()));
    assert_eq!(playing_count(&state), 1);
    assert_eq!(state.tab(&b).unwrap().last_interaction, 4);
}

#[test]
fn pausing_the_playing_tab_clears_the_playing_key() {
    let mut state = TabsState::new();
    let a = open(&mut state, MediaSource::AppleMusic, 1);
    let b = open(&mut state, MediaSource::SoundCloud, 2);
    state.apply_playback(&event(&a, true), 3);
    let pause = state.apply_playback(&event(&b, false), 4);
    assert!(pause.is_empty());
    assert_eq!(state.playing_key(), Some(a.clone()));
    state.apply_playback(&event(&a, false), 5);
    assert_eq!(state.playing_key(), None);
    assert_eq!(playing_count(&state), 0);
}

#[test]
fn a_playback_event_of_an_unknown_tab_changes_nothing() {
    let mut state = TabsState::new();
    let a = open(&mut state, MediaSource::AppleMusic, 1);
    state.apply_playback(&event(&a, true), 2);
    let pause = state.apply_playback(&event("unknown", true), 3);
    assert!(pause.is_empty());
    assert_eq!(state.playing_key(), Some(a));
}

#[test]
fn unloaded_tabs_are_not_asked_to_pause() {
    let mut state = TabsState::new();
    let y1 = open(&mut state, MediaSource::YouTube, 0);
    let y2 = open(&mut state, MediaSource::YouTube, 0);
    let y3 = open(&mut state, MediaSource::YouTube, 0);
    state.sweep_idle(1_000_000, 900_000);
    assert_eq!(state.tab(&y1).unwrap().status, TabStatus::Unloaded);
    let pause = state.apply_playback(&event(&y3, true), 1_000_001);
    assert!(pause.is_empty());
    assert_eq!(state.tab(&y2).unwrap().status, TabStatus::Unloaded);
}

#[test]
fn a_title_event_names_a_multi_instance_tab() {
    let mut state = TabsState::new();
    let y = open(&mut state, MediaSource::YouTube, 1);
    state.apply_title(&title_event(&y, "Song — YouTube"), 5);
    let tab = state.tab(&y).unwrap();
    assert_eq!(tab.display_name, "Song");
    assert_eq!(tab.last_interaction, 5);
}

#[test]
fn a_title_event_leaves_a_single_instance_tab_with_its_catalog_name() {
    let mut state = TabsState::new();
    let s = open(&mut state, MediaSource::SoundCloud, 1);
    state.apply_title(&title_event(&s, "Song — SoundCloud"), 5);
    assert_eq!(state.tab(&s).unwrap().display_name, "SoundCloud");
}

#[test]
fn an_empty_cleaned_title_keeps_the_display_name() {
    let mut state = TabsState::new();
    let y = open(&mut state, MediaSource::YouTube, 1);
    state.apply_title(&title_event(&y, "   - YouTube"), 2);
    assert_eq!(state.tab(&y).unwrap().display_name, "YouTube");
    state.apply_title(&title_event(&y, "Clip | YouTube"), 3);
    assert_eq!(state.tab(&y).unwrap().display_name, "Clip");
}

#[test]
fn cleaning_strips_each_separator_form() {
    assert_eq!(clean_page_title("Song - YouTube", "YouTube"), "Song");
    assert_eq!(clean_page_title("Song | SoundCloud", "SoundCloud"), "Song");
    assert_eq!(clean_page_title("Song — YouTube", "YouTube"), "Song");
    assert_eq!(clean_page_title("  Song  ", "YouTube"), "Song");
    assert_eq!(clean_page_title("Song", "YouTube"), "Song");
    assert_eq!(clean_page_title("Song - YouTube extra", "YouTube"), "Song - YouTube extra");
}

#[test]
fn cleaning_removes_the_suffix_once() {
    assert_eq!(clean_page_title("Song - YouTube - YouTube", "YouTube"), "Song - YouTube");
    assert_eq!(clean_page_title("A | YouTube - YouTube", "YouTube"), "A | YouTube");
}

#[test]
fn media_keys_act_on_the_playing_tab_else_the_active_one() {
    let mut state = TabsState::new();
    assert_eq!(state.media_target(), None);
    assert!(state.skip_target(true).is_none());
    let a = open(&mut state, MediaSource::AppleMusic, 1);
    let y = open(&mut state, MediaSource::YouTube, 2);
    assert_eq!(state.media_target(), Some(y.clone()));
    let (key, selector) = state.skip_target(true).unwrap();
    assert_eq!(key, y);
    assert_eq!(selector, "button.ytp-next-button, a.ytp-next-button, .ytp-next-button");
    state.apply_playback(&event(&a, true), 3);
    assert_eq!(state.media_target(), Some(a.clone()));
    let (key, selector) = state.skip_target(false).unwrap();
    assert_eq!(key, a);
    assert_eq!(selector, "button[aria-label=\"Previous\"], .web-chrome-playback-controls__previous");
}
