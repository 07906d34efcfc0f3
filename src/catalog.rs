//! The fixed catalog of streaming-media providers.

use vstd::prelude::*;
use crate::trusted::{is_ascii_alphanumeric, random_alphanumeric};

verus! {

/// One of the supported streaming-media providers.
#[derive(Debug, Clone, Copy, PartialEq, Eq, Hash, PartialOrd, Ord, Structural)]
pub enum MediaSource {
    AppleMusic,
    YouTube,
    SoundCloud,
}

/// What the shell shows of a source in its sidebar.
#[derive(Debug, Clone, Copy, PartialEq, Eq)]
pub struct MediaDefinition {
    pub id: MediaSource,
    pub name: &'static str,
    pub icon_url: &'static str,
    pub default_url: &'static str,
    pub multi_instance: bool,
}

impl MediaSource {
    /// Whether the source permits more than one open tab at a time.
    pub open spec fn spec_multi_instance(self) -> bool {
        self is YouTube
    }

    pub open spec fn spec_source_id(self) -> Seq<char> {
        match self {
            MediaSource::AppleMusic => "AppleMusic"@,
            MediaSource::YouTube => "YouTube"@,
            MediaSource::SoundCloud => "SoundCloud"@,
        }
    }

    pub open spec fn spec_name(self) -> Seq<char> {
        match self {
            MediaSource::AppleMusic => "Apple Music"@,
            MediaSource::YouTube => "YouTube"@,
            MediaSource::SoundCloud => "SoundCloud"@,
        }
    }

    pub open spec fn spec_default_url(self) -> Seq<char> {
        match self {
            MediaSource::AppleMusic => "https://music.apple.com"@,
            MediaSource::YouTube => "https://www.youtube.com"@,
            MediaSource::SoundCloud => "https://soundcloud.com"@,
        }
    }

    pub open spec fn spec_icon_url(self) -> Seq<char> {
        match self {
            MediaSource::AppleMusic => "https://music.apple.com/assets/favicon/favicon-180.png"@,
            MediaSource::YouTube => "https://www.youtube.com/img/favicon_144.png"@,
            MediaSource::SoundCloud => "https://a-v2.sndcdn.com/assets/images/sc-icons/favicon-2cadd14bdb.ico"@,
        }
    }

    pub open spec fn spec_allowed_origins(self) -> Seq<Seq<char>> {
        match self {
            MediaSource::AppleMusic => seq![
                "https://music.apple.com"@,
                "https://appleid.apple.com"@,
                "https://idmsa.apple.com"@,
            ],
            MediaSource::YouTube => seq![
                "https://www.youtube.com"@,
                "https://youtube.com"@,
                "https://accounts.google.com"@,
                "https://accounts.youtube.com"@,
                "https://consent.youtube.com"@,
                "https://consent.google.com"@,
                "https://myaccount.google.com"@,
            ],
            MediaSource::SoundCloud => seq![
                "https://soundcloud.com"@,
                "https://secure.soundcloud.com"@,
                "https://api-v2.soundcloud.com"@,
                "https://accounts.google.com"@,
            ],
        }
    }

    pub open spec fn spec_next_selector(self) -> Seq<char> {
        match self {
            MediaSource::AppleMusic => "button[aria-label=\"Next\"], .web-chrome-playback-controls__next"@,
            MediaSource::YouTube => "button.ytp-next-button, a.ytp-next-button, .ytp-next-button"@,
            MediaSource::SoundCloud => "button.skipControl__next, button[aria-label=\"Next\"]"@,
        }
    }

    pub open spec fn spec_previous_selector(self) -> Seq<char> {
        match self {
            MediaSource::AppleMusic => "button[aria-label=\"Previous\"], .web-chrome-playback-controls__previous"@,
            MediaSource::YouTube => "button.ytp-prev-button, a.ytp-prev-button, .ytp-prev-button"@,
            MediaSource::SoundCloud => "button.skipControl__previous, button[aria-label=\"Previous\"]"@,
        }
    }

    /// Every source, in catalog order.
    pub fn all() -> (r: Vec<MediaSource>)
        ensures
            r@ == seq![MediaSource::AppleMusic, MediaSource::YouTube, MediaSource::SoundCloud],
    {
        vec![MediaSource::AppleMusic, MediaSource::YouTube, MediaSource::SoundCloud]
    }

    /// The identifier under which the source is serialised.
    pub fn source_id(self) -> (r: &'static str)
        ensures
            r@ == self.spec_source_id(),
    {
        match self {
            MediaSource::AppleMusic => "AppleMusic",
            MediaSource::YouTube => "YouTube",
            MediaSource::SoundCloud => "SoundCloud",
        }
    }

    pub fn name(self) -> (r: &'static str)
        ensures
            r@ == self.spec_name(),
    {
        match self {
            MediaSource::AppleMusic => "Apple Music",
            MediaSource::YouTube => "YouTube",
            MediaSource::SoundCloud => "SoundCloud",
        }
    }

    pub fn icon_url(self) -> (r: &'static str)
        ensures
            r@ == self.spec_icon_url(),
    {
        match self {
            MediaSource::AppleMusic => "https://music.apple.com/assets/favicon/favicon-180.png",
            MediaSource::YouTube => "https://www.youtube.com/img/favicon_144.png",
            MediaSource::SoundCloud => "https://a-v2.sndcdn.com/assets/images/sc-icons/favicon-2cadd14bdb.ico",
        }
    }

    pub fn default_url(self) -> (r: &'static str)
        ensures
            r@ == self.spec_default_url(),
    {
        match self {
            MediaSource::AppleMusic => "https://music.apple.com",
            MediaSource::YouTube => "https://www.youtube.com",
            MediaSource::SoundCloud => "https://soundcloud.com",
        }
    }

    pub fn multi_instance(self) -> (r: bool)
        ensures
            r == self.spec_multi_instance(),
    {
        match self {
            MediaSource::YouTube => true,
            _ => false,
        }
    }

    /// The origins that pages of this source may navigate to.
    pub fn allowed_origins(self) -> (r: Vec<&'static str>)
        ensures
            r@.len() == self.spec_allowed_origins().len(),
            forall|i: int| 0 <= i < r@.len() ==> (#[trigger] r@[i])@ == self.spec_allowed_origins()[i],
    {
        let r = match self {
            MediaSource::AppleMusic => vec![
                "https://music.apple.com",
                "https://appleid.apple.com",
                "https://idmsa.apple.com",
            ],
            MediaSource::YouTube => vec![
                "https://www.youtube.com",
                "https://youtube.com",
                "https://accounts.google.com",
                "https://accounts.youtube.com",
                "https://consent.youtube.com",
                "https://consent.google.com",
                "https://myaccount.google.com",
            ],
            MediaSource::SoundCloud => vec![
                "https://soundcloud.com",
                "https://secure.soundcloud.com",
                "https://api-v2.soundcloud.com",
                "https://accounts.google.com",
            ],
        };
        r
    }

    /// CSS selector of the page's skip-forward control.
    pub fn next_selector(self) -> (r: &'static str)
        ensures
            r@ == self.spec_next_selector(),
    {
        match self {
            MediaSource::AppleMusic => "button[aria-label=\"Next\"], .web-chrome-playback-controls__next",
            MediaSource::YouTube => "button.ytp-next-button, a.ytp-next-button, .ytp-next-button",
            MediaSource::SoundCloud => "button.skipControl__next, button[aria-label=\"Next\"]",
        }
    }

    /// CSS selector of the page's skip-back control.
    pub fn previous_selector(self) -> (r: &'static str)
        ensures
            r@ == self.spec_previous_selector(),
    {
        match self {
            MediaSource::AppleMusic => "button[aria-label=\"Previous\"], .web-chrome-playback-controls__previous",
            MediaSource::YouTube => "button.ytp-prev-button, a.ytp-prev-button, .ytp-prev-button",
            MediaSource::SoundCloud => "button.skipControl__previous, button[aria-label=\"Previous\"]",
        }
    }

    pub fn definition(&self) -> (r: MediaDefinition)
        ensures
            r.id == *self,
            r.name@ == self.spec_name(),
            r.icon_url@ == self.spec_icon_url(),
            r.default_url@ == self.spec_default_url(),
            r.multi_instance == self.spec_multi_instance(),
    {
        MediaDefinition {
            id: *self,
            name: self.name(),
            icon_url: self.icon_url(),
            default_url: self.default_url(),
            multi_instance: self.multi_instance(),
        }
    }
}

/// A tab key of `source`: its identifier, a dash, and six ASCII letters or
/// digits.
pub open spec fn is_tab_key_of(k: Seq<char>, source: MediaSource) -> bool {
    let id = source.spec_source_id();
    &&& k.len() == id.len() + 7
    &&& k.subrange(0, id.len() as int) == id
    &&& k[id.len() as int] == '-'
    &&& forall|i: int| id.len() < i < k.len() ==> is_ascii_alphanumeric(#[trigger] k[i])
}

/// A tab key belongs to one source only.
pub proof fn lemma_tab_key_source(k: Seq<char>, a: MediaSource, b: MediaSource)
    requires
        is_tab_key_of(k, a),
        is_tab_key_of(k, b),
    ensures
        a == b,
{
    reveal_strlit("AppleMusic");
    reveal_strlit("YouTube");
    reveal_strlit("SoundCloud");
    let ia = a.spec_source_id();
    let ib = b.spec_source_id();
    if a != b {
        if ia.len() == ib.len() {
            assert(k.subrange(0, ia.len() as int)[0] == ia[0]);
            assert(k.subrange(0, ib.len() as int)[0] == ib[0]);
        }
    }
}

impl MediaSource {
    /// Mints a tab key for this source with a random six-character suffix.
    pub fn next_tab_key(self) -> (r: String)
        ensures
            is_tab_key_of(r@, self),
    {
        let mut key = self.source_id().to_owned();
        key.append("-");
        let suffix = random_alphanumeric(6);
        key.append(suffix.as_str());
        proof {
            reveal_strlit("-");
            let id = self.spec_source_id();
            assert(key@.subrange(0, id.len() as int) =~= id);
            assert forall|i: int| id.len() < i < key@.len() implies is_ascii_alphanumeric(
                #[trigger] key@[i]) by {
                assert(key@[i] == suffix@[i - id.len() - 1]);
            }
        }
        key
    }
}

/// The read-only catalog query: one definition per source, in catalog order.
pub fn get_sources() -> (r: Vec<MediaDefinition>)
    ensures
        r@.len() == 3,
        r@[0].id == MediaSource::AppleMusic,
        r@[1].id == MediaSource::YouTube,
        r@[2].id == MediaSource::SoundCloud,
        forall|i: int|
            0 <= i < r@.len() ==> {
                &&& (#[trigger] r@[i]).name@ == r@[i].id.spec_name()
                &&& r@[i].icon_url@ == r@[i].id.spec_icon_url()
                &&& r@[i].default_url@ == r@[i].id.spec_default_url()
                &&& r@[i].multi_instance == r@[i].id.spec_multi_instance()
            },
{
    let sources = MediaSource::all();
    let mut r: Vec<MediaDefinition> = Vec::new();
    for i in 0..sources.len()
        invariant
            sources@ == seq![MediaSource::AppleMusic, MediaSource::YouTube, MediaSource::SoundCloud],
            r@.len() == i,
            forall|j: int| 0 <= j < i ==> (#[trigger] r@[j]).id == sources@[j],
            forall|j: int|
                0 <= j < i ==> {
                    &&& (#[trigger] r@[j]).name@ == r@[j].id.spec_name()
                    &&& r@[j].icon_url@ == r@[j].id.spec_icon_url()
                    &&& r@[j].default_url@ == r@[j].id.spec_default_url()
                    &&& r@[j].multi_instance == r@[j].id.spec_multi_instance()
                },
    {
        r.push(sources[i].definition());
    }
    r
}

} // verus!
