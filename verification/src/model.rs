use vstd::prelude::*;

verus! {

/// The kind of a wallpaper file.
#[derive(Debug, Clone, Copy, PartialEq, Eq, Structural)]
pub enum MediaType {
    Image,
    Video,
}

/// One wallpaper candidate: its path, its kind, and whether the user keeps it in rotation.
#[derive(Debug, Clone)]
pub struct MediaItem {
    pub path: String,
    pub media_type: MediaType,
    pub included: bool,
}

impl MediaItem {
    /// A copy of this item, field for field.
    pub fn duplicate(&self) -> (r: MediaItem)
        ensures
            r == *self,
    {
        MediaItem { path: self.path.clone(), media_type: self.media_type, included: self.included }
    }
}

/// The daemon's settings, as stored in its configuration file.
#[derive(Debug, Clone)]
pub struct Config {
    /// The directory whose images and videos are rotated.
    pub wallpaper_dir: Option<String>,
    /// Seconds between two wallpaper changes (a value of 0 counts as 1).
    pub interval_seconds: u64,
    /// The media found in the directory, each with its include toggle.
    pub media: Vec<MediaItem>,
    /// Whether the rotation order is shuffled rather than by path.
    pub random: bool,
}

impl Default for Config {
    /// No directory, a five-minute interval, no media, shuffled order.
    fn default() -> (r: Config)
        ensures
            r.wallpaper_dir is None,
            r.interval_seconds == 300,
            r.media@.len() == 0,
            r.random,
    {
        Config { wallpaper_dir: None, interval_seconds: 300, media: Vec::new(), random: true }
    }
}

/// The views of a sequence of texts.
pub open spec fn texts(v: Seq<String>) -> Seq<Seq<char>> {
    v.map_values(|s: String| s@)
}

} // verus!
