//! The data model: one [`Entry`] per tagged audio file, grouped into one
//! [`Info`] per listed path.

use vstd::prelude::*;

verus! {

/// The type of a listed path.
#[derive(Debug, PartialEq, Eq, Structural)]
pub enum PathType {
    /// A file path.
    File,
    /// A directory path.
    Directory,
}

/// The track metadata for a file: an optional track number and an optional
/// total number of tracks. The track counts as empty when the number is
/// absent, regardless of the total.
#[derive(Debug, PartialEq, Eq, Clone, Copy, Structural)]
pub struct Track {
    /// The track number.
    pub number: Option<u32>,
    /// The total number of tracks.
    pub total: Option<u32>,
}

/// True when the track field renders as empty: a track with no number is
/// empty regardless of its total.
pub fn is_track_empty(track: &Track) -> (r: bool)
    ensures
        r == (track.number is None),
{
    track.number.is_none()
}

/// A result from a list operation: one tagged audio file's extracted view.
#[derive(Debug, PartialEq, Eq)]
pub struct Entry {
    /// The name of the file, as raw bytes: names need not be valid text and
    /// round-trip exactly.
    pub name: Vec<u8>,
    /// The size of the file in bytes.
    pub size: u64,
    /// The track title values.
    pub title: Vec<String>,
    /// The track title sort order (only used for sorting, if present).
    pub title_sort_order: Option<Vec<String>>,
    /// The artist values.
    pub artist: Vec<String>,
    /// The artist sort order (only used for sorting, if present).
    pub artist_sort_order: Option<Vec<String>>,
    /// The album values.
    pub album: Vec<String>,
    /// The album sort order (only used for sorting, if present).
    pub album_sort_order: Option<Vec<String>>,
    /// The year.
    pub year: Option<i32>,
    /// The track number and total.
    pub track: Track,
    /// The genre values.
    pub genre: Vec<String>,
}

/// The mathematical view of an [`Entry`]: every string becomes a sequence of
/// characters and the file name becomes a sequence of bytes.
pub struct EntryV {
    /// View of [`Entry::name`].
    pub name: Seq<u8>,
    /// View of [`Entry::size`].
    pub size: u64,
    /// View of [`Entry::title`].
    pub title: Seq<Seq<char>>,
    /// View of [`Entry::title_sort_order`].
    pub title_sort_order: Option<Seq<Seq<char>>>,
    /// View of [`Entry::artist`].
    pub artist: Seq<Seq<char>>,
    /// View of [`Entry::artist_sort_order`].
    pub artist_sort_order: Option<Seq<Seq<char>>>,
    /// View of [`Entry::album`].
    pub album: Seq<Seq<char>>,
    /// View of [`Entry::album_sort_order`].
    pub album_sort_order: Option<Seq<Seq<char>>>,
    /// View of [`Entry::year`].
    pub year: Option<i32>,
    /// View of [`Entry::track`].
    pub track: Track,
    /// View of [`Entry::genre`].
    pub genre: Seq<Seq<char>>,
}

impl DeepView for Entry {
    type V = EntryV;

    open spec fn deep_view(&self) -> EntryV {
        EntryV {
            name: self.name@,
            size: self.size,
            title: self.title.deep_view(),
            title_sort_order: self.title_sort_order.deep_view(),
            artist: self.artist.deep_view(),
            artist_sort_order: self.artist_sort_order.deep_view(),
            album: self.album.deep_view(),
            album_sort_order: self.album_sort_order.deep_view(),
            year: self.year,
            track: self.track,
            genre: self.genre.deep_view(),
        }
    }
}

/// A container for the results of a list operation along with the original
/// path and the path type.
#[derive(Debug, PartialEq, Eq)]
pub struct Info {
    /// The path that was listed.
    pub path: String,
    /// The type of the path.
    pub path_type: PathType,
    /// The results of the list operation, sorted per the active sort
    /// specification.
    pub entries: Vec<Entry>,
}

} // verus!
