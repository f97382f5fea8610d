//! Plain data models shared by the library, the database layer and the UI.

use vstd::prelude::*;

verus! {

/// Aggregated album view.
#[derive(Debug, Clone)]
pub struct Album {
    pub id: i64,
    pub title: String,
    pub artist: String,
    pub year: Option<i64>,
    pub art_hash: Option<String>,
    pub track_count: i64,
    pub duration_ms: i64,
}

/// Aggregated artist view.
#[derive(Debug, Clone)]
pub struct Artist {
    pub id: i64,
    pub name: String,
    pub art_hash: Option<String>,
    pub track_count: i64,
    pub album_count: i64,
}

/// A stored playlist.
#[derive(Debug, Clone)]
pub struct Playlist {
    pub id: i64,
    pub name: String,
    /// "static" | "smart"
    pub kind: String,
    /// JSON-encoded smart playlist rules for smart playlists.
    pub rules: Option<String>,
    pub pinned: bool,
    pub track_count: i64,
    pub created_at: i64,
    pub updated_at: i64,
}

/// What happens when the end of the queue (or of a track) is reached.
#[derive(Debug, Clone, Copy, PartialEq, Eq, Structural)]
pub enum RepeatMode {
    Off,
    All,
    One,
}

impl Default for RepeatMode {
    fn default() -> (r: Self)
        ensures
            r == RepeatMode::Off,
    {
        RepeatMode::Off
    }
}

/// One condition of a smart playlist.
#[derive(Debug, Clone)]
pub struct SmartRule {
    /// Whitelisted field name: genre, artist, album, year, playCount,
    /// favorite, durationMs, bitrate, composer.
    pub field: String,
    /// Whitelisted operator: eq, ne, contains, gt, gte, lt, lte.
    pub op: String,
    pub value: String,
}

/// A smart playlist's rule set.
#[derive(Debug, Clone)]
pub struct SmartRules {
    /// true = all rules must match (AND), false = any rule (OR).
    pub match_all: bool,
    pub rules: Vec<SmartRule>,
}

impl Default for SmartRules {
    fn default() -> (r: Self)
        ensures
            !r.match_all,
            r.rules@.len() == 0,
    {
        SmartRules { match_all: false, rules: Vec::new() }
    }
}

/// Structured filters combined with a full-text search.
#[derive(Debug, Clone)]
pub struct SearchFilters {
    pub genre: Option<String>,
    pub composer: Option<String>,
    pub format: Option<String>,
    pub folder: Option<String>,
    pub year_min: Option<i64>,
    pub year_max: Option<i64>,
    pub bitrate_min: Option<i64>,
    pub duration_min_ms: Option<i64>,
    pub duration_max_ms: Option<i64>,
}

impl Default for SearchFilters {
    fn default() -> (r: Self)
        ensures
            r.genre is None,
            r.composer is None,
            r.format is None,
            r.folder is None,
            r.year_min is None,
            r.year_max is None,
            r.bitrate_min is None,
            r.duration_min_ms is None,
            r.duration_max_ms is None,
    {
        SearchFilters {
            genre: None,
            composer: None,
            format: None,
            folder: None,
            year_min: None,
            year_max: None,
            bitrate_min: None,
            duration_min_ms: None,
            duration_max_ms: None,
        }
    }
}

/// Sort keys offered by the track list.
#[derive(Debug, Clone, Copy, PartialEq, Eq, Structural)]
pub enum SortField {
    Title,
    Artist,
    Album,
    Year,
    Duration,
    DateAdded,
    PlayCount,
}

impl Default for SortField {
    fn default() -> (r: Self)
        ensures
            r == SortField::Title,
    {
        SortField::Title
    }
}

/// The column that a sort key orders by.
pub open spec fn spec_sort_column(f: SortField) -> Seq<char> {
    match f {
        SortField::Title => "title"@,
        SortField::Artist => "artist"@,
        SortField::Album => "album"@,
        SortField::Year => "year"@,
        SortField::Duration => "duration_ms"@,
        SortField::DateAdded => "date_added"@,
        SortField::PlayCount => "play_count"@,
    }
}

impl SortField {
    /// Column name whitelist: user input never becomes a column name.
    pub fn column(&self) -> (r: &'static str)
        ensures
            r@ == spec_sort_column(*self),
    {
        match self {
            SortField::Title => "title",
            SortField::Artist => "artist",
            SortField::Album => "album",
            SortField::Year => "year",
            SortField::Duration => "duration_ms",
            SortField::DateAdded => "date_added",
            SortField::PlayCount => "play_count",
        }
    }
}

/// Emitted to the UI while a library scan is in progress.
#[derive(Debug, Clone)]
pub struct ScanProgress {
    pub phase: String,
    pub current: u64,
    pub total: u64,
}

/// Aggregated numbers shown on the library dashboard.
#[derive(Debug, Clone)]
pub struct LibraryStats {
    pub tracks: i64,
    pub albums: i64,
    pub artists: i64,
    pub playlists: i64,
    pub total_duration_ms: i64,
}

/// A folder registered as a library root.
#[derive(Debug, Clone)]
pub struct Folder {
    pub path: String,
    pub mtime: i64,
    pub enabled: bool,
}

impl Folder {
    /// A new, enabled library root that has never been scanned.
    pub fn new(path: String) -> (f: Self)
        ensures
            f.path@ == path@,
            f.mtime == 0,
            f.enabled,
    {
        Folder { path, mtime: 0, enabled: true }
    }
}

} // verus!
