use animbg::bitmap::{expand_path, get_expanded_path, parse_filename, sort_bitmaps};
use animbg::config::ConfigError;

fn strings(xs: &[&str]) -> Vec<String> {
    xs.iter().map(|s| s.to_string()).collect()
}

#[test]
fn stems_spell_their_numeric_key() {
    assert_eq!(parse_filename("frames/0-12.bmp"), 12);
    assert_eq!(parse_filename("0-7.bmp"), 7);
    assert_eq!(parse_filename("7.bmp"), 7);
    assert_eq!(parse_filename("a1b2c3.bmp"), 123);
    assert_eq!(parse_filename("0-0.bmp"), 0);
}

#[test]
fn stems_without_digits_take_the_sentinel_key() {
    assert_eq!(parse_filename("garbage.bmp"), usize::MAX);
    assert_eq!(parse_filename("no/digits/here.bmp"), usize::MAX);
}

#[test]
fn digits_in_the_directory_do_not_count() {
    // Only the file's own stem is read; the path and the extension are
    // not part of the key.
    assert_eq!(parse_filename("run42/frame.bmp"), usize::MAX);
    assert_eq!(parse_filename("run42/frame-3.bmp"), 3);
}

#[test]
fn overlong_numbers_take_the_sentinel_key() {
    assert_eq!(parse_filename("999999999999999999999999999999.bmp"), usize::MAX);
}

#[test]
fn bitmaps_sort_numerically_with_garbage_last() {
    let files = strings(&[
        "0-9.bmp",
        "garbage.bmp",
        "0-3.bmp",
        "0-a.bmp",
        "0-1.bmp",
        "0-7.bmp",
    ]);
    let sorted = sort_bitmaps(&files);
    // `0-a.bmp` spells just the digit zero, so it leads; `garbage.bmp`
    // has no digits and sorts last via the sentinel key.
    assert_eq!(
        sorted,
        strings(&["0-a.bmp", "0-1.bmp", "0-3.bmp", "0-7.bmp", "0-9.bmp", "garbage.bmp"])
    );
}

#[test]
fn only_bitmap_files_are_kept_and_case_is_ignored() {
    let files = strings(&["b.bmp", "readme.txt", "a.BMP", "noext", "x.bmp.bak", "c.BmP"]);
    let sorted = sort_bitmaps(&files);
    assert_eq!(sorted.len(), 3);
    assert!(sorted.contains(&"b.bmp".to_string()));
    assert!(sorted.contains(&"a.BMP".to_string()));
    assert!(sorted.contains(&"c.BmP".to_string()));
}

#[test]
fn a_hidden_file_without_an_extension_is_not_a_bitmap() {
    let files = strings(&[".bmp"]);
    assert_eq!(sort_bitmaps(&files).len(), 0);
}

#[test]
fn expansion_joins_the_home_directory() {
    let v = expand_path("~/pics", Some("/home/u")).unwrap();
    let s: String = v.into_iter().collect();
    assert_eq!(s, "/home/u/pics");
}

#[test]
fn expansion_leaves_plain_paths_alone() {
    let v = expand_path("/var/frames", None).unwrap();
    let s: String = v.into_iter().collect();
    assert_eq!(s, "/var/frames");
}

#[test]
fn expansion_without_a_home_directory_fails() {
    let e = expand_path("~/pics", None).unwrap_err();
    assert_eq!(e, ConfigError::NoHomeDirectory);
}

#[test]
fn expanded_paths_leave_the_tilde_behind() {
    match get_expanded_path("~/sub") {
        Ok(v) => {
            let s: String = v.into_iter().collect();
            assert!(!s.starts_with('~'));
            assert!(s.ends_with("/sub"));
        },
        Err(e) => assert_eq!(e, ConfigError::NoHomeDirectory),
    }
    let v = get_expanded_path("plain/dir").unwrap();
    let s: String = v.into_iter().collect();
    assert_eq!(s, "plain/dir");
}
