use merge_my_gpx::scan::{list_matching_files, ScanEntry};

fn file(path: &str) -> ScanEntry {
    ScanEntry { path: path.to_string(), is_file: true }
}

fn dir(path: &str) -> ScanEntry {
    ScanEntry { path: path.to_string(), is_file: false }
}

#[test]
fn results_come_in_lexicographic_order() {
    let entries = vec![file("/x/c.gpx"), file("/x/a.gpx"), file("/x/b.gpx")];
    let r = list_matching_files(entries);
    assert_eq!(r, vec!["/x/a.gpx", "/x/b.gpx", "/x/c.gpx"]);
}

#[test]
fn only_matching_regular_files_are_kept() {
    let entries = vec![
        file("/x/b.gpx"),
        file("/x/notes.txt"),
        dir("/x/sub.gpx"),
        file("/x/a.gpx"),
        file("/x/upper.GPX"),
    ];
    let r = list_matching_files(entries);
    assert_eq!(r, vec!["/x/a.gpx", "/x/b.gpx"]);
}

#[test]
fn no_matches_give_an_empty_list_not_an_error() {
    let entries = vec![file("/x/notes.txt"), dir("/x/sub")];
    let r = list_matching_files(entries);
    assert!(r.is_empty());
}

#[test]
fn an_empty_directory_gives_an_empty_list() {
    let r = list_matching_files(Vec::new());
    assert!(r.is_empty());
}
