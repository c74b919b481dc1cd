//! Validation policy for sets of input paths.
//!
//! The engine never touches the filesystem itself: callers stat each path
//! and hand in a [`PathStat`] holding what the checks need.  Validation is
//! then a pure decision, stated exactly by the contracts below.

use vstd::prelude::*;
use vstd::string::StringExecFns;

use crate::paths::has_gpx_extension;
use crate::paths::path_has_gpx_extension;

verus! {

/// The structured failures the engine reports.  Variants that concern one
/// particular path carry that path.
#[derive(Debug)]
pub enum ToolError {
    NotADirectory(String),
    NotAFile(String),
    WrongExtension(String),
    DuplicatePath,
    DirectoryInsteadOfFileList,
    ParseError(String),
    IoError(String),
    InvalidFactor,
}

/// The human-readable message for each failure.
pub open spec fn spec_message(e: ToolError) -> Seq<char> {
    match e {
        ToolError::NotADirectory(p) => "'"@ + p@ + "' does not exist or is not a directory"@,
        ToolError::NotAFile(p) => "'"@ + p@ + "' does not exist or is a directory"@,
        ToolError::WrongExtension(p) => "'"@ + p@
            + "' does not appear to be a GPX file (since its extension is not '.gpx')"@,
        ToolError::DuplicatePath => "There are duplicated files in the list"@,
        ToolError::DirectoryInsteadOfFileList => "A list of files is expected but you have passed a single directory"@,
        ToolError::ParseError(m) => "Cannot parse GPX data: "@ + m@,
        ToolError::IoError(m) => "Input/output error: "@ + m@,
        ToolError::InvalidFactor => "The decimation factor must be at least 1"@,
    }
}

impl ToolError {
    /// Render the failure for a human reader.
    pub fn message(&self) -> (r: String)
        ensures
            r@ == spec_message(*self),
    {
        match self {
            ToolError::NotADirectory(p) => String::from_str("'")
                .concat(p.as_str())
                .concat("' does not exist or is not a directory"),
            ToolError::NotAFile(p) => String::from_str("'")
                .concat(p.as_str())
                .concat("' does not exist or is a directory"),
            ToolError::WrongExtension(p) => String::from_str("'")
                .concat(p.as_str())
                .concat("' does not appear to be a GPX file (since its extension is not '.gpx')"),
            ToolError::DuplicatePath => String::from_str("There are duplicated files in the list"),
            ToolError::DirectoryInsteadOfFileList => String::from_str(
                "A list of files is expected but you have passed a single directory",
            ),
            ToolError::ParseError(m) => String::from_str("Cannot parse GPX data: ").concat(
                m.as_str(),
            ),
            ToolError::IoError(m) => String::from_str("Input/output error: ").concat(m.as_str()),
            ToolError::InvalidFactor => String::from_str(
                "The decimation factor must be at least 1",
            ),
        }
    }
}

/// What the caller learned from statting one path.
pub struct PathStat {
    pub path: String,
    pub is_file: bool,
    pub is_dir: bool,
}

/// A single input passes the per-file checks when it is a regular file
/// with the expected extension.
pub open spec fn file_ok(s: PathStat) -> bool {
    s.is_file && has_gpx_extension(s.path@)
}

/// The input set is a single path that names a directory.
pub open spec fn dir_instead(stats: Seq<PathStat>) -> bool {
    stats.len() == 1 && stats[0].is_dir
}

/// Index of the first input failing the per-file checks, or `-1` when
/// every input passes them.
pub open spec fn first_bad(stats: Seq<PathStat>) -> int
    decreases stats.len(),
{
    if stats.len() == 0 {
        -1
    } else if !file_ok(stats[0]) {
        0
    } else {
        let r = first_bad(stats.drop_first());
        if r == -1 {
            -1
        } else {
            r + 1
        }
    }
}

/// Some path occurs twice in the input set.
pub open spec fn has_duplicate(stats: Seq<PathStat>) -> bool {
    exists|i: int, j: int| 0 <= i < j < stats.len() && stats[i].path@ == stats[j].path@
}

/// The whole input set is acceptable: it is not a lone directory, every
/// path is a regular file with the expected extension, and no path
/// repeats.
pub open spec fn files_valid(stats: Seq<PathStat>) -> bool {
    &&& !dir_instead(stats)
    &&& first_bad(stats) == -1
    &&& !has_duplicate(stats)
}

/// `first_bad` is `-1` exactly when every input passes the per-file
/// checks; otherwise it is the least failing index.
pub proof fn lemma_first_bad(stats: Seq<PathStat>)
    ensures
        -1 <= first_bad(stats) < stats.len(),
        first_bad(stats) == -1 <==> (forall|i: int|
            0 <= i < stats.len() ==> file_ok(#[trigger] stats[i])),
        first_bad(stats) >= 0 ==> {
            &&& first_bad(stats) < stats.len()
            &&& !file_ok(stats[first_bad(stats)])
            &&& forall|i: int| 0 <= i < first_bad(stats) ==> file_ok(#[trigger] stats[i])
        },
    decreases stats.len(),
{
    if stats.len() > 0 && file_ok(stats[0]) {
        let rest = stats.drop_first();
        lemma_first_bad(rest);
        assert(forall|i: int| 0 <= i < rest.len() ==> rest[i] == stats[i + 1]);
        if first_bad(rest) == -1 {
            assert forall|i: int| 0 <= i < stats.len() implies file_ok(#[trigger] stats[i]) by {
                if i > 0 {
                    assert(stats[i] == rest[i - 1]);
                }
            }
        } else {
            assert forall|i: int| 0 <= i < first_bad(stats) implies file_ok(
                #[trigger] stats[i],
            ) by {
                if i > 0 {
                    assert(stats[i] == rest[i - 1]);
                }
            }
        }
    }
}

/// Check that the paths denoted by `stats` are existing regular files
/// with the expected extension and that none repeats.  An empty list
/// passes.  A list holding exactly one directory is rejected with the
/// distinct [`ToolError::DirectoryInsteadOfFileList`] failure.
#[verifier::loop_isolation(false)]
pub fn check_files(stats: &Vec<PathStat>) -> (r: Result<(), ToolError>)
    ensures
        r is Ok <==> files_valid(stats@),
        dir_instead(stats@) ==> r == Err::<(), ToolError>(ToolError::DirectoryInsteadOfFileList),
        (!dir_instead(stats@) && first_bad(stats@) >= 0 && !stats@[first_bad(stats@)].is_file)
            ==> r == Err::<(), ToolError>(ToolError::NotAFile(stats@[first_bad(stats@)].path)),
        (!dir_instead(stats@) && first_bad(stats@) >= 0 && stats@[first_bad(stats@)].is_file)
            ==> r == Err::<(), ToolError>(
            ToolError::WrongExtension(stats@[first_bad(stats@)].path),
        ),
        (!dir_instead(stats@) && first_bad(stats@) == -1 && has_duplicate(stats@)) ==> r
            == Err::<(), ToolError>(ToolError::DuplicatePath),
{
    let n = stats.len();
    if n == 1 && stats[0].is_dir {
        return Err(ToolError::DirectoryInsteadOfFileList);
    }
    proof {
        lemma_first_bad(stats@);
    }
    let mut i: usize = 0;
    while i < n
        invariant
            forall|j: int| 0 <= j < i ==> file_ok(#[trigger] stats@[j]),
        decreases n - i,
    {
        if !stats[i].is_file {
            proof {
                assert(!file_ok(stats@[i as int]));
                assert(first_bad(stats@) == i as int);
            }
            return Err(ToolError::NotAFile(stats[i].path.clone()));
        }
        if !path_has_gpx_extension(stats[i].path.as_str()) {
            proof {
                assert(!file_ok(stats@[i as int]));
                assert(first_bad(stats@) == i as int);
            }
            return Err(ToolError::WrongExtension(stats[i].path.clone()));
        }
        i = i + 1;
    }
    assert(first_bad(stats@) == -1);
    let mut a: usize = 0;
    while a < n
        invariant
            forall|x: int, y: int|
                0 <= x < y < n && x < a ==> (#[trigger] stats@[x].path@) != (
                #[trigger] stats@[y].path@),
        decreases n - a,
    {
        let mut b: usize = a + 1;
        while b < n
            invariant
                a < b <= n,
                forall|x: int, y: int|
                    0 <= x < y < n && x < a ==> (#[trigger] stats@[x].path@) != (
                    #[trigger] stats@[y].path@),
                forall|y: int| a < y < b ==> stats@[a as int].path@ != (#[trigger] stats@[y].path@),
            decreases n - b,
        {
            if stats[a].path == stats[b].path {
                proof {
                    assert(stats@[a as int].path@ == stats@[b as int].path@);
                    assert(has_duplicate(stats@));
                }
                return Err(ToolError::DuplicatePath);
            }
            b = b + 1;
        }
        a = a + 1;
    }
    proof {
        assert(!has_duplicate(stats@));
    }
    Ok(())
}

/// Check that the path denoted by `stat` is an existing directory.
pub fn check_directory(stat: &PathStat) -> (r: Result<(), ToolError>)
    ensures
        r is Ok <==> stat.is_dir,
        !stat.is_dir ==> r == Err::<(), ToolError>(ToolError::NotADirectory(stat.path)),
{
    if stat.is_dir {
        Ok(())
    } else {
        Err(ToolError::NotADirectory(stat.path.clone()))
    }
}

} // verus!
