//! List audio files carrying embedded metadata tags.
//!
//! The library is the traversal-and-aggregation engine behind a
//! directory-listing utility for tagged audio files: it classifies walked
//! paths, normalizes per-file tag data into [`Entry`] records, compares
//! entries under a multi-key, case-insensitive sort specification, and
//! groups the results into one [`Info`] per visited path. The caller owns
//! the filesystem and the tag extractor; the [`Walker`] owns every
//! decision.

mod cmp;
mod error;
mod info;
mod render;
mod sort;
mod tag;
mod text;
mod walk;

pub use cmp::SortBy;
pub use cmp::cmp_entry;
pub use cmp::cmp_vec_string;
pub use cmp::flip;
pub use cmp::lemma_compare_antisymmetric;
pub use cmp::lemma_compare_reflexive;
pub use cmp::lemma_compare_transitive;
pub use cmp::lemma_reverse_inverts;
pub use cmp::fold_strings;
pub use cmp::ord_of_bytes;
pub use cmp::ord_of_chars;
pub use cmp::ord_of_entries;
pub use cmp::ord_of_key;
pub use cmp::ord_of_keys;
pub use cmp::ord_of_opt_i32;
pub use cmp::ord_of_opt_u32;
pub use cmp::ord_of_string_field;
pub use cmp::ord_of_string_seqs;
pub use cmp::ord_of_track;
pub use cmp::ord_of_u64;
pub use cmp::sort_strings;
pub use error::LsError;
pub use info::Entry;
pub use info::EntryV;
pub use info::Info;
pub use info::PathType;
pub use info::Track;
pub use info::is_track_empty;
pub use render::capitalize_first_letter;
pub use render::display_option_i32;
pub use render::display_option_vec_string;
pub use render::display_track;
pub use render::display_vec_string;
pub use render::human_readable_size;
pub use render::human_size_text;
pub use render::ascii_upper_char;
pub use render::capitalized;
pub use render::dec_digits;
pub use render::dec_int;
pub use render::joined;
pub use render::opt_i32_text;
pub use render::opt_strings_text;
pub use render::pow1024;
pub use render::size_exponent;
pub use render::size_suffix;
pub use render::track_text;
pub use sort::entry_le;
pub use sort::insort;
pub use sort::lemma_entry_le_total_transitive;
pub use sort::lemma_sort_by_spec_ensures;
pub use sort::lemma_sort_by_spec_sorted_id;
pub use sort::lemma_sort_entries_sorted_id;
pub use sort::sort_by_spec;
pub use sort::sort_entries;
pub use sort::sort_entries_spec;
pub use tag::TagData;
pub use tag::TagDataV;
pub use tag::keep_nonempty;
pub use tag::make_entry;
pub use tag::norm_sort_order;
pub use tag::norm_values;
pub use tag::norm_year;
pub use tag::normalized_entry;
pub use text::lower_of;
pub use text::utf8_lossy_of;
pub use walk::Child;
pub use walk::ChildV;
pub use walk::FileOutcome;
pub use walk::ListOptions;
pub use walk::PendingPath;
pub use walk::Reading;
pub use walk::ReadingV;
pub use walk::SlotV;
pub use walk::Walker;
pub use walk::dir_entries;
pub use walk::fault_text;
pub use walk::file_slots;
pub use walk::first_fault;
pub use walk::joined_display;
pub use walk::joined_raw;
pub use walk::name_le;
pub use walk::pending_after_dir;
pub use walk::slot_le;
pub use walk::subdir_names;
pub use walk::tagged_entries;
pub use walk::sorted_slots;
pub use walk::sorted_subdirs;
