use medya::catalog::{get_sources, MediaSource};
use medya::layout::{view_frame, Frame, WindowMetrics};
use medya::session::{active_index, SavedSession, SavedTab};
use medya::tabs_state::TabsState;

#[test]
fn the_catalog_lists_three_sources() {
    let sources = get_sources();
    assert_eq!(sources.len(), 3);
    assert_eq!(sources[0].id, MediaSource::AppleMusic);
    assert_eq!(sources[0].name, "Apple Music");
    assert!(!sources[0].multi_instance);
    assert_eq!(sources[1].id, MediaSource::YouTube);
    assert_eq!(sources[1].default_url, "https://www.youtube.com");
    assert!(sources[1].multi_instance);
    assert_eq!(sources[2].id, MediaSource::SoundCloud);
    assert_eq!(sources[2].icon_url, "https://a-v2.sndcdn.com/assets/images/sc-icons/favicon-2cadd14bdb.ico");
}

#[test]
fn source_ids_and_origins() {
    assert_eq!(MediaSource::AppleMusic.source_id(), "AppleMusic");
    assert_eq!(MediaSource::YouTube.source_id(), "YouTube");
    assert_eq!(MediaSource::SoundCloud.source_id(), "SoundCloud");
    assert_eq!(MediaSource::YouTube.allowed_origins().len(), 7);
    assert_eq!(MediaSource::SoundCloud.allowed_origins()[0], "https://soundcloud.com");
    assert_eq!(MediaSource::SoundCloud.next_selector(), "button.skipControl__next, button[aria-label=\"Next\"]");
}

#[test]
fn a_multi_instance_view_sits_below_the_tab_strip() {
    let m = WindowMetrics { width: 1400, height: 1000, title_bar: 28, devtools: 0 };
    assert_eq!(view_frame(true, m), Frame { x: 76, y: 84, width: 1324, height: 916 });
}

#[test]
fn a_single_instance_view_sits_below_the_title_bar() {
    let m = WindowMetrics { width: 1400, height: 1000, title_bar: 28, devtools: 400 };
    assert_eq!(view_frame(false, m), Frame { x: 76, y: 28, width: 1324, height: 572 });
}

#[test]
fn a_small_window_gives_a_negative_size() {
    let m = WindowMetrics { width: 50, height: 40, title_bar: 0, devtools: 0 };
    assert_eq!(view_frame(true, m), Frame { x: 76, y: 56, width: -26, height: -16 });
}

#[test]
fn relayout_frames_the_active_tab() {
    let mut state = TabsState::new();
    let m = WindowMetrics { width: 800, height: 600, title_bar: 0, devtools: 0 };
    assert!(state.relayout(m).is_none());
    let (y, _) = state.create_tab(MediaSource::YouTube, None, 1).unwrap();
    let (key, frame) = state.relayout(m).unwrap();
    assert_eq!(key, y);
    assert_eq!(frame, Frame { x: 76, y: 56, width: 724, height: 544 });
    let (a, _) = state.create_tab(MediaSource::AppleMusic, None, 2).unwrap();
    let (key, frame) = state.relayout(m).unwrap();
    assert_eq!(key, a);
    assert_eq!(frame, Frame { x: 76, y: 0, width: 724, height: 600 });
}

#[test]
fn the_active_index_is_the_position_of_the_saved_key() {
    let tab = |k: &str| SavedTab { key: k.to_string(), source_id: MediaSource::YouTube, url: "https://www.youtube.com/".to_string() };
    let session = SavedSession { tabs: vec![tab("a"), tab("b"), tab("c")], active_tab: Some("c".to_string()) };
    assert_eq!(active_index(&session), Some(2));
    let session = SavedSession { tabs: vec![tab("a")], active_tab: Some("z".to_string()) };
    assert_eq!(active_index(&session), None);
    let session = SavedSession { tabs: vec![tab("a")], active_tab: None };
    assert_eq!(active_index(&session), None);
}
