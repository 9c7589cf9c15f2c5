use lsmp3::Track;
use lsmp3::capitalize_first_letter;
use lsmp3::display_option_i32;
use lsmp3::display_option_vec_string;
use lsmp3::display_track;
use lsmp3::display_vec_string;
use lsmp3::human_readable_size;
use lsmp3::is_track_empty;

#[test]
fn test_human_readable_size_examples() {
    assert_eq!(human_readable_size(&8080), "7.9 kiB");
    assert_eq!(human_readable_size(&4), "4 B");
}

#[test]
fn test_human_readable_size_units() {
    assert_eq!(human_readable_size(&0), "0 B");
    assert_eq!(human_readable_size(&10), "10 B");
    assert_eq!(human_readable_size(&1023), "1023 B");
    assert_eq!(human_readable_size(&1024), "1.0 kiB");
    assert_eq!(human_readable_size(&23017), "23 kiB");
    assert_eq!(human_readable_size(&1048576), "1.0 MiB");
    assert_eq!(human_readable_size(&(5 * 1024 * 1024 * 1024)), "5.0 GiB");
    assert_eq!(human_readable_size(&(1024 * 1024 * 1024 * 1024)), "1.0 TiB");
    assert_eq!(human_readable_size(&u64::MAX), "16 EiB");
}

#[test]
fn test_display_option_i32() {
    assert_eq!(display_option_i32(&Some(2020)), "2020");
    assert_eq!(display_option_i32(&Some(-5)), "-5");
    assert_eq!(display_option_i32(&None), "");
}

#[test]
fn test_display_vec_string() {
    assert_eq!(display_vec_string(&[]), "");
    assert_eq!(display_vec_string(&["Two".to_string()]), "Two");
    assert_eq!(
        display_vec_string(&["Two".to_string(), "titles".to_string()]),
        "Two/titles"
    );
}

#[test]
fn test_display_option_vec_string() {
    assert_eq!(display_option_vec_string(&None), "");
    assert_eq!(
        display_option_vec_string(&Some(vec!["Trip-Hop".to_string(), "Hip-Hop".to_string()])),
        "Trip-Hop/Hip-Hop"
    );
}

#[test]
fn test_display_track() {
    assert_eq!(display_track(&Track { number: Some(2), total: Some(3) }), "2/3");
    assert_eq!(display_track(&Track { number: Some(2), total: None }), "2");
    assert_eq!(display_track(&Track { number: None, total: Some(3) }), "");
}

#[test]
fn test_is_track_empty() {
    assert!(is_track_empty(&Track { number: None, total: Some(3) }));
    assert!(!is_track_empty(&Track { number: Some(1), total: None }));
}

#[test]
fn test_capitalize_first_letter() {
    assert_eq!(capitalize_first_letter("attempting to read"), "Attempting to read");
    assert_eq!(capitalize_first_letter("Already"), "Already");
    assert_eq!(capitalize_first_letter("7 things"), "7 things");
}
