use merge_my_gpx::validate::{check_directory, check_files, PathStat, ToolError};

fn file(path: &str) -> PathStat {
    PathStat { path: path.to_string(), is_file: true, is_dir: false }
}

fn dir(path: &str) -> PathStat {
    PathStat { path: path.to_string(), is_file: false, is_dir: true }
}

fn missing(path: &str) -> PathStat {
    PathStat { path: path.to_string(), is_file: false, is_dir: false }
}

#[test]
fn accepts_distinct_gpx_files() {
    let stats = vec![file("/x/a.gpx"), file("/x/b.gpx")];
    assert!(check_files(&stats).is_ok());
}

#[test]
fn accepts_an_empty_list() {
    assert!(check_files(&Vec::new()).is_ok());
}

#[test]
fn rejects_duplicates() {
    let stats = vec![file("a.gpx"), file("a.gpx")];
    assert!(matches!(check_files(&stats), Err(ToolError::DuplicatePath)));
}

#[test]
fn rejects_a_missing_file() {
    let stats = vec![file("a.gpx"), missing("b.gpx"), file("c.txt")];
    match check_files(&stats) {
        Err(ToolError::NotAFile(p)) => assert_eq!(p, "b.gpx"),
        other => panic!("expected NotAFile, got {:?}", other),
    }
}

#[test]
fn rejects_a_wrong_extension() {
    let stats = vec![file("a.gpx"), file("b.txt")];
    match check_files(&stats) {
        Err(ToolError::WrongExtension(p)) => assert_eq!(p, "b.txt"),
        other => panic!("expected WrongExtension, got {:?}", other),
    }
}

#[test]
fn rejects_a_single_directory_distinctly() {
    let stats = vec![dir("/x")];
    assert!(matches!(check_files(&stats), Err(ToolError::DirectoryInsteadOfFileList)));
}

#[test]
fn a_directory_among_files_is_not_a_file() {
    let stats = vec![file("a.gpx"), dir("b.gpx")];
    match check_files(&stats) {
        Err(ToolError::NotAFile(p)) => assert_eq!(p, "b.gpx"),
        other => panic!("expected NotAFile, got {:?}", other),
    }
}

#[test]
fn directory_check_accepts_a_directory() {
    assert!(check_directory(&dir("/x")).is_ok());
}

#[test]
fn directory_check_rejects_a_file() {
    match check_directory(&file("/x/a.gpx")) {
        Err(ToolError::NotADirectory(p)) => assert_eq!(p, "/x/a.gpx"),
        other => panic!("expected NotADirectory, got {:?}", other),
    }
}

#[test]
fn messages_name_the_offending_path() {
    let e = ToolError::NotAFile("b.gpx".to_string());
    assert_eq!(e.message(), "'b.gpx' does not exist or is a directory");
    let e = ToolError::DuplicatePath;
    assert_eq!(e.message(), "There are duplicated files in the list");
    let e = ToolError::DirectoryInsteadOfFileList;
    assert_eq!(e.message(), "A list of files is expected but you have passed a single directory");
    let e = ToolError::InvalidFactor;
    assert_eq!(e.message(), "The decimation factor must be at least 1");
    let e = ToolError::NotADirectory("/x".to_string());
    assert_eq!(e.message(), "'/x' does not exist or is not a directory");
    let e = ToolError::WrongExtension("b.txt".to_string());
    assert_eq!(
        e.message(),
        "'b.txt' does not appear to be a GPX file (since its extension is not '.gpx')"
    );
    let e = ToolError::ParseError("bad xml".to_string());
    assert_eq!(e.message(), "Cannot parse GPX data: bad xml");
    let e = ToolError::IoError("denied".to_string());
    assert_eq!(e.message(), "Input/output error: denied");
}
