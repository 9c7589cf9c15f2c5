use std::cmp::Ordering;

use lsmp3::Child;
use lsmp3::Entry;
use lsmp3::FileOutcome;
use lsmp3::ListOptions;
use lsmp3::LsError;
use lsmp3::PathType;
use lsmp3::Reading;
use lsmp3::SortBy;
use lsmp3::TagData;
use lsmp3::Track;
use lsmp3::Walker;
use lsmp3::cmp_entry;
use lsmp3::cmp_vec_string;
use lsmp3::make_entry;
use lsmp3::sort_entries;

fn empty_tag() -> TagData {
    TagData {
        title: None,
        title_sort: None,
        artist: None,
        artist_sort: None,
        album: None,
        album_sort: None,
        genre: None,
        year: None,
        recorded_year: None,
        track_number: None,
        track_total: None,
    }
}

fn entry(name: &str) -> Entry {
    Entry {
        name: name.as_bytes().to_vec(),
        size: 0,
        title: vec![],
        title_sort_order: None,
        artist: vec![],
        artist_sort_order: None,
        album: vec![],
        album_sort_order: None,
        year: None,
        track: Track { number: None, total: None },
        genre: vec![],
    }
}

fn options(sort_by: Vec<SortBy>, reverse: bool, recursive: bool) -> ListOptions {
    ListOptions { sort_by, reverse, recursive }
}

#[test]
fn test_compare_reflexive_equal() {
    let keys = [SortBy::Album, SortBy::Title, SortBy::FileName];
    let mut a = entry("a.mp3");
    a.title = vec!["Song".to_string()];
    a.album = vec!["Album".to_string()];
    assert_eq!(cmp_entry(&a, &a, &keys), Ordering::Equal);
}

#[test]
fn test_compare_antisymmetric() {
    let keys = [SortBy::Title, SortBy::FileName];
    let mut a = entry("a.mp3");
    a.title = vec!["Alpha".to_string()];
    let mut b = entry("b.mp3");
    b.title = vec!["beta".to_string()];
    assert_eq!(cmp_entry(&a, &b, &keys), Ordering::Less);
    assert_eq!(cmp_entry(&b, &a, &keys), Ordering::Greater);
}

#[test]
fn test_compare_transitive() {
    let keys = [SortBy::Year];
    let mut a = entry("a.mp3");
    a.year = Some(1999);
    let mut b = entry("b.mp3");
    b.year = Some(2002);
    let mut c = entry("c.mp3");
    c.year = Some(2020);
    assert_eq!(cmp_entry(&a, &b, &keys), Ordering::Less);
    assert_eq!(cmp_entry(&b, &c, &keys), Ordering::Less);
    assert_eq!(cmp_entry(&a, &c, &keys), Ordering::Less);
}

#[test]
fn test_compare_empty_keys_equal() {
    let a = entry("a.mp3");
    let b = entry("b.mp3");
    assert_eq!(cmp_entry(&a, &b, &[]), Ordering::Equal);
}

#[test]
fn test_sort_sorted_is_noop() {
    let keys = [SortBy::FileName];
    let input = vec![entry("a.mp3"), entry("b.mp3"), entry("c.mp3")];
    let expected = vec![entry("a.mp3"), entry("b.mp3"), entry("c.mp3")];
    let once = sort_entries(input, &keys, false);
    assert_eq!(once, expected);
    let twice = sort_entries(once, &keys, false);
    assert_eq!(twice, expected);
}

#[test]
fn test_sort_is_stable_on_ties() {
    let keys = [SortBy::Title];
    let mut first = entry("z_first.mp3");
    first.title = vec!["Same".to_string()];
    let mut second = entry("a_second.mp3");
    second.title = vec!["same".to_string()];
    // The titles tie case-insensitively: the input order is kept.
    let sorted = sort_entries(vec![first, second], &keys, false);
    assert_eq!(sorted[0].name, b"z_first.mp3".to_vec());
    assert_eq!(sorted[1].name, b"a_second.mp3".to_vec());
}

#[test]
fn test_compare_case_insensitive() {
    let keys = [SortBy::Artist];
    let mut a = entry("a.mp3");
    a.artist = vec!["adele".to_string()];
    let mut b = entry("b.mp3");
    b.artist = vec!["ADELE".to_string()];
    assert_eq!(cmp_entry(&a, &b, &keys), Ordering::Equal);
}

#[test]
fn test_compare_file_name_is_case_sensitive() {
    let keys = [SortBy::FileName];
    // By raw bytes, every uppercase letter precedes every lowercase one.
    let a = entry("B.mp3");
    let b = entry("a.mp3");
    assert_eq!(cmp_entry(&a, &b, &keys), Ordering::Less);
}

#[test]
fn test_sort_order_override_precedence() {
    let keys = [SortBy::Title];
    let mut with_override = entry("a.mp3");
    with_override.title = vec!["B".to_string()];
    with_override.title_sort_order = Some(vec!["A".to_string()]);
    let mut plain = entry("b.mp3");
    plain.title = vec!["A".to_string()];
    // The override is what compares: "A" against "A", not "B" against "A".
    assert_eq!(cmp_entry(&with_override, &plain, &keys), Ordering::Equal);
    // A stable sort therefore keeps the overridden entry first.
    let sorted = sort_entries(vec![with_override, plain], &keys, false);
    assert_eq!(sorted[0].name, b"a.mp3".to_vec());
    assert_eq!(sorted[1].name, b"b.mp3".to_vec());
    // Against an equal display title, the override alone decides.
    let mut with_override = entry("a.mp3");
    with_override.title = vec!["B".to_string()];
    with_override.title_sort_order = Some(vec!["A".to_string()]);
    let mut plain = entry("b.mp3");
    plain.title = vec!["B".to_string()];
    assert_eq!(cmp_entry(&with_override, &plain, &keys), Ordering::Less);
}

#[test]
fn test_cmp_vec_string_override_and_case() {
    let a = vec!["The Beatles".to_string()];
    let b = vec!["beatles, the".to_string()];
    let a_sort = Some(vec!["Beatles, The".to_string()]);
    assert_eq!(cmp_vec_string(&a, &b, &a_sort, &None), Ordering::Equal);
    assert_eq!(cmp_vec_string(&a, &b, &None, &None), Ordering::Greater);
}

fn tagged(size: u64, title: &str) -> Reading {
    let mut tag = empty_tag();
    tag.title = Some(vec![title.to_string()]);
    Reading::Tagged { size, tag }
}

#[test]
fn test_walk_dir_not_recursive() {
    let mut w = Walker::new(
        vec!["music".to_string()],
        ".".to_string(),
        options(vec![SortBy::FileName], false, false),
    );
    assert!(!w.done());
    assert_eq!(w.current().display, "music");
    w.visit_dir(vec![
        Child::File { name: b"song.mp3".to_vec(), reading: tagged(8080, "Song") },
        Child::Subdir { name: b"deeper".to_vec() },
    ])
    .unwrap();
    assert!(w.done());
    let infos = w.finish();
    assert_eq!(infos.len(), 1);
    assert_eq!(infos[0].path, "music");
    assert_eq!(infos[0].path_type, PathType::Directory);
    assert_eq!(infos[0].entries.len(), 1);
    assert_eq!(infos[0].entries[0].name, b"song.mp3".to_vec());
    assert_eq!(infos[0].entries[0].size, 8080);
    assert_eq!(infos[0].entries[0].title, vec!["Song".to_string()]);
}

#[test]
fn test_walk_dir_recursive() {
    let mut w = Walker::new(
        vec!["music".to_string()],
        ".".to_string(),
        options(vec![SortBy::FileName], false, true),
    );
    w.visit_dir(vec![
        Child::File { name: b"song.mp3".to_vec(), reading: tagged(8080, "Song") },
        Child::Subdir { name: b"deeper".to_vec() },
    ])
    .unwrap();
    assert!(!w.done());
    assert_eq!(w.current().display, "music/deeper");
    w.visit_dir(vec![Child::File {
        name: b"other.mp3".to_vec(),
        reading: tagged(4, "Other"),
    }])
    .unwrap();
    assert!(w.done());
    let infos = w.finish();
    assert_eq!(infos.len(), 2);
    assert_eq!(infos[0].path, "music");
    assert_eq!(infos[0].entries.len(), 1);
    assert_eq!(infos[0].entries[0].name, b"song.mp3".to_vec());
    assert_eq!(infos[1].path, "music/deeper");
    assert_eq!(infos[1].entries.len(), 1);
    assert_eq!(infos[1].entries[0].name, b"other.mp3".to_vec());
}

#[test]
fn test_walk_subdirs_visited_in_name_order_depth_first() {
    let mut w = Walker::new(
        vec!["top".to_string()],
        ".".to_string(),
        options(vec![SortBy::FileName], false, true),
    );
    w.visit_dir(vec![
        Child::Subdir { name: b"zeta".to_vec() },
        Child::Subdir { name: b"alpha".to_vec() },
    ])
    .unwrap();
    assert_eq!(w.current().display, "top/alpha");
    w.visit_dir(vec![Child::Subdir { name: b"inner".to_vec() }]).unwrap();
    // Depth-first: alpha's own subdirectory comes before zeta.
    assert_eq!(w.current().display, "top/alpha/inner");
    w.visit_dir(vec![]).unwrap();
    assert_eq!(w.current().display, "top/zeta");
    w.visit_dir(vec![]).unwrap();
    assert!(w.done());
    let infos = w.finish();
    let paths: Vec<&str> = infos.iter().map(|i| i.path.as_str()).collect();
    assert_eq!(paths, vec!["top", "top/alpha", "top/alpha/inner", "top/zeta"]);
}

#[test]
fn test_explicit_file_without_tag_fails() {
    let mut w = Walker::new(
        vec!["no_id3.mp3".to_string()],
        ".".to_string(),
        options(vec![SortBy::FileName], false, false),
    );
    let err = w
        .visit_file(
            b"no_id3.mp3".to_vec(),
            FileOutcome::TagFault { message: "no tag".to_string() },
        )
        .unwrap_err();
    assert_eq!(
        err,
        LsError::TagReadFault { path: "no_id3.mp3".to_string(), message: "no tag".to_string() }
    );
}

#[test]
fn test_discovered_file_without_tag_is_skipped() {
    let mut w = Walker::new(
        vec!["music".to_string()],
        ".".to_string(),
        options(vec![SortBy::FileName], false, false),
    );
    w.visit_dir(vec![Child::File { name: b"no_id3.mp3".to_vec(), reading: Reading::NotAudio }])
        .unwrap();
    let infos = w.finish();
    assert_eq!(infos.len(), 1);
    assert_eq!(infos[0].entries.len(), 0);
}

#[test]
fn test_explicit_file_tagged() {
    let mut w = Walker::new(
        vec!["song.mp3".to_string()],
        ".".to_string(),
        options(vec![SortBy::FileName], false, false),
    );
    let mut tag = empty_tag();
    tag.title = Some(vec!["Best Song Ever".to_string()]);
    tag.artist = Some(vec!["Someone".to_string()]);
    tag.year = Some(2002);
    tag.track_number = Some(3);
    w.visit_file(b"song.mp3".to_vec(), FileOutcome::Tagged { size: 23017, tag }).unwrap();
    let infos = w.finish();
    assert_eq!(infos.len(), 1);
    assert_eq!(infos[0].path, "song.mp3");
    assert_eq!(infos[0].path_type, PathType::File);
    assert_eq!(
        infos[0].entries,
        vec![Entry {
            name: b"song.mp3".to_vec(),
            size: 23017,
            title: vec!["Best Song Ever".to_string()],
            title_sort_order: None,
            artist: vec!["Someone".to_string()],
            artist_sort_order: None,
            album: vec![],
            album_sort_order: None,
            year: Some(2002),
            track: Track { number: Some(3), total: None },
            genre: vec![],
        }]
    );
}

#[test]
fn test_walk_invalid_path() {
    let w = Walker::new(
        vec!["missing".to_string()],
        ".".to_string(),
        options(vec![SortBy::FileName], false, false),
    );
    let err = w.visit_invalid();
    assert_eq!(err, LsError::InvalidPath { path: "missing".to_string() });
    assert_eq!(err.message(), "cannot access missing: no such file or directory");
}

#[test]
fn test_walk_dir_enumeration_fault() {
    let w = Walker::new(
        vec!["locked".to_string()],
        ".".to_string(),
        options(vec![SortBy::FileName], false, false),
    );
    let err = w.visit_dir_fault("permission denied".to_string());
    assert_eq!(
        err,
        LsError::ReadFault {
            path: "locked".to_string(),
            message: "permission denied".to_string(),
        }
    );
    assert_eq!(
        err.message(),
        "attempting to read locked resulted in an error: permission denied"
    );
}

#[test]
fn test_walk_child_fault_aborts_with_first_in_name_order() {
    let mut w = Walker::new(
        vec!["music".to_string()],
        ".".to_string(),
        options(vec![SortBy::FileName], false, false),
    );
    let err = w
        .visit_dir(vec![
            Child::File {
                name: b"late.mp3".to_vec(),
                reading: Reading::Fault { message: "boom".to_string() },
            },
            Child::File { name: b"good.mp3".to_vec(), reading: tagged(4, "Good") },
            Child::File {
                name: b"early.mp3".to_vec(),
                reading: Reading::Fault { message: "crash".to_string() },
            },
        ])
        .unwrap_err();
    assert_eq!(
        err,
        LsError::ReadFault { path: "music/early.mp3".to_string(), message: "crash".to_string() }
    );
}

#[test]
fn test_explicit_file_stat_fault() {
    let mut w = Walker::new(
        vec!["gone.mp3".to_string()],
        ".".to_string(),
        options(vec![SortBy::FileName], false, false),
    );
    let err = w
        .visit_file(
            b"gone.mp3".to_vec(),
            FileOutcome::StatFault { message: "not found".to_string() },
        )
        .unwrap_err();
    assert_eq!(
        err,
        LsError::ReadFault { path: "gone.mp3".to_string(), message: "not found".to_string() }
    );
}

#[test]
fn test_walk_empty_paths_use_default() {
    let w = Walker::new(
        vec![],
        ".".to_string(),
        options(vec![SortBy::FileName], false, false),
    );
    assert!(!w.done());
    assert_eq!(w.current().display, ".");
}

#[test]
fn test_walk_multiple_paths_in_order() {
    let mut w = Walker::new(
        vec!["b".to_string(), "a".to_string()],
        ".".to_string(),
        options(vec![SortBy::FileName], false, false),
    );
    // Input order is preserved: no cross-path sorting.
    assert_eq!(w.current().display, "b");
    w.visit_dir(vec![]).unwrap();
    assert_eq!(w.current().display, "a");
    w.visit_dir(vec![]).unwrap();
    let infos = w.finish();
    assert_eq!(infos.len(), 2);
    assert_eq!(infos[0].path, "b");
    assert_eq!(infos[1].path, "a");
}

#[test]
fn test_walk_non_utf8_child_name_displays_lossily() {
    let mut w = Walker::new(
        vec!["d".to_string()],
        ".".to_string(),
        options(vec![SortBy::FileName], false, true),
    );
    w.visit_dir(vec![Child::Subdir { name: vec![0xff, 0xfe] }]).unwrap();
    assert_eq!(w.current().display, "d/\u{fffd}\u{fffd}");
    assert_eq!(w.current().raw, vec![b'd', b'/', 0xff, 0xfe]);
}

#[test]
fn test_reverse_yields_exact_reverse() {
    let keys = [SortBy::FileName];
    let a = entry("fileA.mp3");
    let b = entry("fileB.mp3");
    let ascending = sort_entries(vec![entry("fileA.mp3"), entry("fileB.mp3")], &keys, false);
    assert_eq!(ascending, vec![entry("fileA.mp3"), entry("fileB.mp3")]);
    let reversed = sort_entries(vec![a, b], &keys, true);
    assert_eq!(reversed, vec![entry("fileB.mp3"), entry("fileA.mp3")]);
}

#[test]
fn test_sort_by_multiple_keys() {
    let keys = [SortBy::Album, SortBy::Title, SortBy::FileName];
    let mut one = entry("one.mp3");
    one.album = vec!["Zebra".to_string()];
    one.title = vec!["A".to_string()];
    let mut two = entry("two.mp3");
    two.album = vec!["apple".to_string()];
    two.title = vec!["B".to_string()];
    let mut three = entry("three.mp3");
    three.album = vec!["Apple".to_string()];
    three.title = vec!["a".to_string()];
    let sorted = sort_entries(vec![one, two, three], &keys, false);
    // Albums compare case-insensitively: apple before Zebra; within the
    // equal albums the titles decide: a before B.
    assert_eq!(sorted[0].name, b"three.mp3".to_vec());
    assert_eq!(sorted[1].name, b"two.mp3".to_vec());
    assert_eq!(sorted[2].name, b"one.mp3".to_vec());
}

#[test]
fn test_track_ordering_absent_first() {
    let keys = [SortBy::Track];
    let mut none = entry("none.mp3");
    none.track = Track { number: None, total: Some(9) };
    let mut one = entry("one.mp3");
    one.track = Track { number: Some(1), total: None };
    let mut one_of_two = entry("one_of_two.mp3");
    one_of_two.track = Track { number: Some(1), total: Some(2) };
    assert_eq!(cmp_entry(&none, &one, &keys), Ordering::Less);
    assert_eq!(cmp_entry(&one, &one_of_two, &keys), Ordering::Less);
    assert_eq!(cmp_entry(&one_of_two, &one_of_two, &keys), Ordering::Equal);
}

#[test]
fn test_make_entry_filters_and_falls_back() {
    let mut tag = empty_tag();
    tag.title = Some(vec!["".to_string(), "Kept".to_string(), "".to_string()]);
    tag.title_sort = Some(vec!["".to_string()]);
    tag.artist_sort = Some(vec!["One, Some".to_string()]);
    tag.recorded_year = Some(1987);
    tag.track_total = Some(12);
    let e = make_entry(b"x.mp3".to_vec(), 4, &tag);
    assert_eq!(e.title, vec!["Kept".to_string()]);
    // A sort order that is empty after filtering is absent, not empty.
    assert_eq!(e.title_sort_order, None);
    assert_eq!(e.artist, Vec::<String>::new());
    assert_eq!(e.artist_sort_order, Some(vec!["One, Some".to_string()]));
    // No explicit year: the recording date's year is used.
    assert_eq!(e.year, Some(1987));
    assert_eq!(e.track, Track { number: None, total: Some(12) });
}

#[test]
fn test_walk_dir_entries_sorted_by_spec() {
    let mut w = Walker::new(
        vec!["music".to_string()],
        ".".to_string(),
        options(vec![SortBy::Title], false, false),
    );
    w.visit_dir(vec![
        Child::File { name: b"1.mp3".to_vec(), reading: tagged(1, "zebra") },
        Child::File { name: b"2.mp3".to_vec(), reading: tagged(2, "Apple") },
        Child::File { name: b"3.mp3".to_vec(), reading: tagged(3, "mango") },
    ])
    .unwrap();
    let infos = w.finish();
    let titles: Vec<&str> = infos[0].entries.iter().map(|e| e.title[0].as_str()).collect();
    assert_eq!(titles, vec!["Apple", "mango", "zebra"]);
}

#[test]
fn test_compare_by_size_and_genre() {
    let mut small = entry("small.mp3");
    small.size = 4;
    small.genre = vec!["Pop".to_string()];
    let mut large = entry("large.mp3");
    large.size = 8080;
    large.genre = vec!["pop".to_string()];
    assert_eq!(cmp_entry(&small, &large, &[SortBy::FileSize]), Ordering::Less);
    assert_eq!(cmp_entry(&small, &large, &[SortBy::Genre]), Ordering::Equal);
    // A shorter value list sorts before a longer one that extends it.
    large.genre = vec!["pop".to_string(), "rock".to_string()];
    assert_eq!(cmp_entry(&small, &large, &[SortBy::Genre]), Ordering::Less);
}

#[test]
fn test_make_entry_prefers_explicit_year() {
    let mut tag = empty_tag();
    tag.year = Some(2002);
    tag.recorded_year = Some(1987);
    let e = make_entry(b"x.mp3".to_vec(), 4, &tag);
    assert_eq!(e.year, Some(2002));
}
