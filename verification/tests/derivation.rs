use merge_my_gpx::Action;
use merge_my_gpx::get_creator;
use merge_my_gpx::paths::{action_label, get_output_file_path, path_has_gpx_extension};

#[test]
fn file_mode_appends_label_to_stem() {
    let p = String::from("/x/track.gpx");
    let out = get_output_file_path(&p, false, &Action::Invert);
    assert_eq!(out, "/x/track-inverted.gpx");
}

#[test]
fn file_mode_keeps_the_original_extension() {
    let p = String::from("/routes/alps.GPX");
    let out = get_output_file_path(&p, false, &Action::Merge);
    assert_eq!(out, "/routes/alps-merged.GPX");
}

#[test]
fn file_mode_without_directory() {
    let p = String::from("track.gpx");
    let out = get_output_file_path(&p, false, &Action::Decimate(2));
    assert_eq!(out, "track-decimated-by-2.gpx");
}

#[test]
fn file_mode_keeps_dots_in_the_stem() {
    let p = String::from("/x/a.b.gpx");
    let out = get_output_file_path(&p, false, &Action::Invert);
    assert_eq!(out, "/x/a.b-inverted.gpx");
}

#[test]
fn directory_mode_merge() {
    let p = String::from("/x/");
    let out = get_output_file_path(&p, true, &Action::Merge);
    assert_eq!(out, "/x/merged.gpx");
}

#[test]
fn directory_mode_decimate_embeds_the_factor() {
    let p = String::from("/x/");
    let out = get_output_file_path(&p, true, &Action::Decimate(5));
    assert_eq!(out, "/x/decimated-by-5.gpx");
}

#[test]
fn directory_mode_without_trailing_separator() {
    let p = String::from("/x");
    let out = get_output_file_path(&p, true, &Action::Invert);
    assert_eq!(out, "/x/inverted.gpx");
}

#[test]
fn labels_name_each_action() {
    assert_eq!(action_label(&Action::Invert), "inverted");
    assert_eq!(action_label(&Action::Merge), "merged");
    assert_eq!(action_label(&Action::Decimate(42)), "decimated-by-42");
    assert_eq!(action_label(&Action::Decimate(7)), "decimated-by-7");
    assert_eq!(action_label(&Action::Decimate(65535)), "decimated-by-65535");
}

#[test]
fn creator_names_the_tool() {
    assert_eq!(get_creator(), "merge_my_gpx v0.1.0");
}

#[test]
fn extension_check_is_exact_and_case_sensitive() {
    assert!(path_has_gpx_extension("/a/b.gpx"));
    assert!(path_has_gpx_extension("b.gpx"));
    assert!(!path_has_gpx_extension("/a/b.GPX"));
    assert!(!path_has_gpx_extension("/a/b.txt"));
    assert!(!path_has_gpx_extension("/a/gpx"));
    assert!(!path_has_gpx_extension("/a/.gpx"));
    assert!(!path_has_gpx_extension("/a/b.gpx/"));
    assert!(!path_has_gpx_extension(""));
}
