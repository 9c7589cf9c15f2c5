//! Normalization of raw extracted tag data into [`Entry`] records.
//!
//! The tag extractor hands the library, per file, the raw value lists of
//! each semantic field, the numeric year and recording date, and the track
//! pair. Normalization drops empty strings from every value list, keeps a
//! sort-order override only when it is non-empty after that filtering, and
//! falls back from the year field to the recording date's year.

use vstd::prelude::*;

use crate::info::Entry;
use crate::info::EntryV;
use crate::info::Track;

verus! {

/// One file's raw extracted tag data, as the tag extractor reports it: each
/// field's value list when the tag carries the field at all.
pub struct TagData {
    /// The title values.
    pub title: Option<Vec<String>>,
    /// The title sort-order values.
    pub title_sort: Option<Vec<String>>,
    /// The artist values.
    pub artist: Option<Vec<String>>,
    /// The artist sort-order values.
    pub artist_sort: Option<Vec<String>>,
    /// The album values.
    pub album: Option<Vec<String>>,
    /// The album sort-order values.
    pub album_sort: Option<Vec<String>>,
    /// The genre values.
    pub genre: Option<Vec<String>>,
    /// The explicit year field.
    pub year: Option<i32>,
    /// The year component of the recording date field.
    pub recorded_year: Option<i32>,
    /// The track number.
    pub track_number: Option<u32>,
    /// The total number of tracks.
    pub track_total: Option<u32>,
}

/// The mathematical view of [`TagData`].
pub struct TagDataV {
    /// View of [`TagData::title`].
    pub title: Option<Seq<Seq<char>>>,
    /// View of [`TagData::title_sort`].
    pub title_sort: Option<Seq<Seq<char>>>,
    /// View of [`TagData::artist`].
    pub artist: Option<Seq<Seq<char>>>,
    /// View of [`TagData::artist_sort`].
    pub artist_sort: Option<Seq<Seq<char>>>,
    /// View of [`TagData::album`].
    pub album: Option<Seq<Seq<char>>>,
    /// View of [`TagData::album_sort`].
    pub album_sort: Option<Seq<Seq<char>>>,
    /// View of [`TagData::genre`].
    pub genre: Option<Seq<Seq<char>>>,
    /// View of [`TagData::year`].
    pub year: Option<i32>,
    /// View of [`TagData::recorded_year`].
    pub recorded_year: Option<i32>,
    /// View of [`TagData::track_number`].
    pub track_number: Option<u32>,
    /// View of [`TagData::track_total`].
    pub track_total: Option<u32>,
}

impl DeepView for TagData {
    type V = TagDataV;

    open spec fn deep_view(&self) -> TagDataV {
        TagDataV {
            title: self.title.deep_view(),
            title_sort: self.title_sort.deep_view(),
            artist: self.artist.deep_view(),
            artist_sort: self.artist_sort.deep_view(),
            album: self.album.deep_view(),
            album_sort: self.album_sort.deep_view(),
            genre: self.genre.deep_view(),
            year: self.year,
            recorded_year: self.recorded_year,
            track_number: self.track_number,
            track_total: self.track_total,
        }
    }
}

/// The value list with its empty strings dropped.
pub open spec fn keep_nonempty(v: Seq<Seq<char>>) -> Seq<Seq<char>> {
    v.filter(|s: Seq<char>| s.len() > 0)
}

/// A display field's normalized value list: the tag's values with empty
/// strings dropped, or no values at all when the tag lacks the field.
pub open spec fn norm_values(field: Option<Seq<Seq<char>>>) -> Seq<Seq<char>> {
    match field {
        Some(v) => keep_nonempty(v),
        None => Seq::empty(),
    }
}

/// A sort-order override's normalized form: present exactly when the tag
/// carries the field and it is non-empty after empty strings are dropped.
pub open spec fn norm_sort_order(field: Option<Seq<Seq<char>>>) -> Option<Seq<Seq<char>>> {
    match field {
        Some(v) => {
            let kept = keep_nonempty(v);
            if kept.len() > 0 {
                Some(kept)
            } else {
                None
            }
        },
        None => None,
    }
}

/// The normalized year: the explicit year field when present, else the year
/// of the recording date when present.
pub open spec fn norm_year(year: Option<i32>, recorded_year: Option<i32>) -> Option<i32> {
    if year is Some {
        year
    } else {
        recorded_year
    }
}

/// The entry that normalizing one file's tag data yields.
pub open spec fn normalized_entry(name: Seq<u8>, size: u64, tag: TagDataV) -> EntryV {
    EntryV {
        name: name,
        size: size,
        title: norm_values(tag.title),
        title_sort_order: norm_sort_order(tag.title_sort),
        artist: norm_values(tag.artist),
        artist_sort_order: norm_sort_order(tag.artist_sort),
        album: norm_values(tag.album),
        album_sort_order: norm_sort_order(tag.album_sort),
        year: norm_year(tag.year, tag.recorded_year),
        track: Track { number: tag.track_number, total: tag.track_total },
        genre: norm_values(tag.genre),
    }
}

/// Copies the value list without its empty strings.
fn filter_nonempty(v: &Vec<String>) -> (r: Vec<String>)
    ensures
        r.deep_view() == keep_nonempty(v.deep_view()),
{
    let ghost whole = v.deep_view();
    let mut out: Vec<String> = Vec::new();
    proof {
        reveal(Seq::filter);
        assert(out.deep_view() =~= keep_nonempty(whole.take(0)));
    }
    let mut i: usize = 0;
    while i < v.len()
        invariant
            i <= v.len(),
            whole == v.deep_view(),
            whole.len() == v.len(),
            out.deep_view() == keep_nonempty(whole.take(i as int)),
        decreases v.len() - i,
    {
        let ghost prev = out.deep_view();
        if !v[i].as_str().is_empty() {
            out.push(v[i].clone());
            proof {
                assert(out.deep_view() =~= prev.push(whole[i as int]));
            }
        }
        proof {
            reveal(Seq::filter);
            assert(whole.take(i + 1).drop_last() =~= whole.take(i as int));
            assert(whole.take(i + 1).last() == whole[i as int]);
        }
        i = i + 1;
    }
    proof {
        assert(whole.take(v.len() as int) =~= whole);
    }
    out
}

/// A display field's normalized value list.
fn norm_field(field: &Option<Vec<String>>) -> (r: Vec<String>)
    ensures
        r.deep_view() == norm_values(field.deep_view()),
{
    match field {
        Some(v) => filter_nonempty(v),
        None => {
            let r: Vec<String> = Vec::new();
            proof {
                assert(r.deep_view() =~= Seq::<Seq<char>>::empty());
            }
            r
        },
    }
}

/// A sort-order override's normalized form.
fn norm_sort_field(field: &Option<Vec<String>>) -> (r: Option<Vec<String>>)
    ensures
        r.deep_view() == norm_sort_order(field.deep_view()),
{
    match field {
        Some(v) => {
            let kept = filter_nonempty(v);
            if kept.len() > 0 {
                Some(kept)
            } else {
                None
            }
        },
        None => None,
    }
}

/// Builds the entry for one file from its name, its size and its raw tag
/// data.
pub fn make_entry(name: Vec<u8>, size: u64, tag: &TagData) -> (r: Entry)
    ensures
        r.deep_view() == normalized_entry(name@, size, tag.deep_view()),
{
    Entry {
        name: name,
        size: size,
        title: norm_field(&tag.title),
        title_sort_order: norm_sort_field(&tag.title_sort),
        artist: norm_field(&tag.artist),
        artist_sort_order: norm_sort_field(&tag.artist_sort),
        album: norm_field(&tag.album),
        album_sort_order: norm_sort_field(&tag.album_sort),
        year: match tag.year {
            Some(y) => Some(y),
            None => tag.recorded_year,
        },
        track: Track { number: tag.track_number, total: tag.track_total },
        genre: norm_field(&tag.genre),
    }
}

} // verus!
