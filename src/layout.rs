//! Geometry of the active tab's view inside the main window.

use vstd::prelude::*;

verus! {

/// Width of the source sidebar on the left of the window, in logical units.
pub const MEDIA_SOURCE_BAR_WIDTH: u32 = 76;

/// Height of the tab strip shown above sources that allow several tabs.
pub const TAB_BAR_HEIGHT: u32 = 56;

/// The window's content area, in logical (scale-normalised) units.
#[derive(Debug, Clone, Copy, PartialEq, Eq, Structural)]
pub struct WindowMetrics {
    pub width: u32,
    pub height: u32,
    /// Height of the platform's title bar drawn over the content (0 where
    /// the platform draws none).
    pub title_bar: u32,
    /// Space kept free below the view for developer tools.
    pub devtools: u32,
}

/// Position and size of a view, in logical units.
#[derive(Debug, Clone, Copy, PartialEq, Eq, Structural)]
pub struct Frame {
    pub x: i64,
    pub y: i64,
    pub width: i64,
    pub height: i64,
}

/// The frame of the active view: below the tab strip for sources with
/// several tabs, directly below the title bar for the others.
pub open spec fn spec_view_frame(multi_instance: bool, m: WindowMetrics) -> Frame {
    if multi_instance {
        Frame {
            x: MEDIA_SOURCE_BAR_WIDTH as i64,
            y: (TAB_BAR_HEIGHT + m.title_bar) as i64,
            width: (m.width - MEDIA_SOURCE_BAR_WIDTH) as i64,
            height: (m.height - TAB_BAR_HEIGHT - m.title_bar - m.devtools) as i64,
        }
    } else {
        Frame {
            x: MEDIA_SOURCE_BAR_WIDTH as i64,
            y: m.title_bar as i64,
            width: (m.width - MEDIA_SOURCE_BAR_WIDTH) as i64,
            height: (m.height - m.title_bar - m.devtools) as i64,
        }
    }
}

pub fn view_frame(multi_instance: bool, m: WindowMetrics) -> (r: Frame)
    ensures
        r == spec_view_frame(multi_instance, m),
        r.x == MEDIA_SOURCE_BAR_WIDTH,
        r.width == m.width - MEDIA_SOURCE_BAR_WIDTH,
        multi_instance ==> r.y == TAB_BAR_HEIGHT + m.title_bar
            && r.height == m.height - TAB_BAR_HEIGHT - m.title_bar - m.devtools,
        !multi_instance ==> r.y == m.title_bar && r.height == m.height - m.title_bar - m.devtools,
{
    let w = m.width as i64;
    let h = m.height as i64;
    let t = m.title_bar as i64;
    let d = m.devtools as i64;
    let s = MEDIA_SOURCE_BAR_WIDTH as i64;
    let b = TAB_BAR_HEIGHT as i64;
    if multi_instance {
        Frame { x: s, y: b + t, width: w - s, height: h - b - t - d }
    } else {
        Frame { x: s, y: t, width: w - s, height: h - t - d }
    }
}

} // verus!
