//! A plain-string model of file paths.
//!
//! Paths are strings whose components are separated by `'/'`.  The final
//! component is the file name; its extension is whatever follows the last
//! dot, provided that dot is not the leading character.  Output paths for
//! the engine's actions are derived purely from these strings.

use vstd::prelude::*;
use vstd::string::StrSliceExecFns;
use vstd::string::StringExecFns;

use crate::Action;

verus! {

/// Index of the last occurrence of `c` in `s`, or `-1` when `c` does not
/// occur at all.
pub open spec fn find_last(s: Seq<char>, c: char) -> int
    decreases s.len(),
{
    if s.len() == 0 {
        -1
    } else if s.last() == c {
        s.len() - 1
    } else {
        find_last(s.drop_last(), c)
    }
}

/// Find the index of the last occurrence of `c` in `s`.
pub fn find_last_char(s: &str, c: char) -> (r: Option<usize>)
    ensures
        match r {
            Some(i) => i < s@.len() && find_last(s@, c) == i as int,
            None => find_last(s@, c) == -1,
        },
{
    let len: usize = s.unicode_len();
    let mut i: usize = len;
    proof {
        assert(s@.take(len as int) =~= s@);
    }
    while i > 0
        invariant
            i <= len,
            len == s@.len(),
            find_last(s@, c) == find_last(s@.take(i as int), c),
        decreases i,
    {
        let ch = s.get_char(i - 1);
        if ch == c {
            proof {
                assert(s@.take(i as int).last() == c);
            }
            return Some(i - 1);
        }
        proof {
            assert(s@.take(i as int).drop_last() =~= s@.take(i as int - 1));
        }
        i = i - 1;
    }
    None
}

/// Index at which the file name (the final path component) begins.
pub open spec fn file_name_start(p: Seq<char>) -> int {
    find_last(p, '/') + 1
}

/// The final component of the path: everything after the last separator.
pub open spec fn spec_file_name(p: Seq<char>) -> Seq<char> {
    p.skip(file_name_start(p))
}

/// Whether the file name carries an extension: a dot that is neither
/// absent nor the leading character of the name.
pub open spec fn has_extension(p: Seq<char>) -> bool {
    find_last(spec_file_name(p), '.') > 0
}

/// The file name up to (excluding) the last dot.
pub open spec fn spec_stem(p: Seq<char>) -> Seq<char> {
    spec_file_name(p).take(find_last(spec_file_name(p), '.'))
}

/// The file name after the last dot.
pub open spec fn spec_extension(p: Seq<char>) -> Seq<char> {
    spec_file_name(p).skip(find_last(spec_file_name(p), '.') + 1)
}

/// Whether the path names a GPX file: its extension is exactly `gpx`,
/// case-sensitively.
pub open spec fn has_gpx_extension(p: Seq<char>) -> bool {
    has_extension(p) && spec_extension(p) == "gpx"@
}

/// `find_last` returns either `-1` or a valid index holding `c`, with no
/// later occurrence of `c`.
pub proof fn lemma_find_last(s: Seq<char>, c: char)
    ensures
        -1 <= find_last(s, c) < s.len(),
        find_last(s, c) >= 0 ==> s[find_last(s, c)] == c,
        forall|j: int| find_last(s, c) < j < s.len() ==> s[j] != c,
    decreases s.len(),
{
    if s.len() > 0 && s.last() != c {
        lemma_find_last(s.drop_last(), c);
        assert forall|j: int| find_last(s, c) < j < s.len() implies s[j] != c by {
            if j < s.len() - 1 {
                assert(s.drop_last()[j] == s[j]);
            }
        }
    }
}

/// Decide whether the path names a GPX file.
pub fn path_has_gpx_extension(path: &str) -> (r: bool)
    ensures
        r == has_gpx_extension(path@),
{
    let len: usize = path.unicode_len();
    let start: usize = match find_last_char(path, '/') {
        Some(i) => i + 1,
        None => 0,
    };
    let name = path.substring_char(start, len);
    proof {
        assert(name@ =~= spec_file_name(path@));
    }
    let nlen: usize = name.unicode_len();
    let k: usize = match find_last_char(name, '.') {
        Some(k) => {
            if k == 0 {
                return false;
            }
            k
        },
        None => {
            return false;
        },
    };
    proof {
        lemma_find_last(name@, '.');
    }
    if nlen - (k + 1) != 3 {
        proof {
            reveal_strlit("gpx");
            assert(spec_extension(path@).len() != 3);
        }
        return false;
    }
    let c1 = name.get_char(k + 1);
    let c2 = name.get_char(k + 2);
    let c3 = name.get_char(k + 3);
    let ok = c1 == 'g' && c2 == 'p' && c3 == 'x';
    proof {
        reveal_strlit("gpx");
        assert(spec_extension(path@).len() == 3);
        assert(spec_extension(path@)[0] == c1);
        assert(spec_extension(path@)[1] == c2);
        assert(spec_extension(path@)[2] == c3);
        if ok {
            assert(spec_extension(path@) =~= "gpx"@);
        } else {
            assert(spec_extension(path@) != "gpx"@) by {
                if spec_extension(path@) == "gpx"@ {
                    assert(c1 == 'g' && c2 == 'p' && c3 == 'x');
                }
            }
        }
    }
    ok
}

/// The character for a single decimal digit.
pub open spec fn digit_char(d: int) -> char {
    if d == 0 {
        '0'
    } else if d == 1 {
        '1'
    } else if d == 2 {
        '2'
    } else if d == 3 {
        '3'
    } else if d == 4 {
        '4'
    } else if d == 5 {
        '5'
    } else if d == 6 {
        '6'
    } else if d == 7 {
        '7'
    } else if d == 8 {
        '8'
    } else {
        '9'
    }
}

/// The decimal representation of `n`, most significant digit first.
pub open spec fn dec_digits(n: int) -> Seq<char>
    decreases n,
{
    if n < 10 {
        seq![digit_char(n)]
    } else {
        dec_digits(n / 10).push(digit_char(n % 10))
    }
}

/// The one-character string for a decimal digit.
fn digit_str(d: u16) -> (r: &'static str)
    requires
        d < 10,
    ensures
        r@ == seq![digit_char(d as int)],
{
    match d {
        0 => {
            proof {
                reveal_strlit("0");
                assert("0"@ =~= seq![digit_char(0)]);
            }
            "0"
        },
        1 => {
            proof {
                reveal_strlit("1");
                assert("1"@ =~= seq![digit_char(1)]);
            }
            "1"
        },
        2 => {
            proof {
                reveal_strlit("2");
                assert("2"@ =~= seq![digit_char(2)]);
            }
            "2"
        },
        3 => {
            proof {
                reveal_strlit("3");
                assert("3"@ =~= seq![digit_char(3)]);
            }
            "3"
        },
        4 => {
            proof {
                reveal_strlit("4");
                assert("4"@ =~= seq![digit_char(4)]);
            }
            "4"
        },
        5 => {
            proof {
                reveal_strlit("5");
                assert("5"@ =~= seq![digit_char(5)]);
            }
            "5"
        },
        6 => {
            proof {
                reveal_strlit("6");
                assert("6"@ =~= seq![digit_char(6)]);
            }
            "6"
        },
        7 => {
            proof {
                reveal_strlit("7");
                assert("7"@ =~= seq![digit_char(7)]);
            }
            "7"
        },
        8 => {
            proof {
                reveal_strlit("8");
                assert("8"@ =~= seq![digit_char(8)]);
            }
            "8"
        },
        _ => {
            proof {
                reveal_strlit("9");
                assert("9"@ =~= seq![digit_char(9)]);
            }
            "9"
        },
    }
}

/// Append the decimal representation of `n` to `out`.
fn push_decimal(n: u16, out: String) -> (r: String)
    ensures
        r@ == out@ + dec_digits(n as int),
    decreases n,
{
    if n < 10 {
        let r = out.concat(digit_str(n));
        proof {
            assert(r@ =~= out@ + dec_digits(n as int));
        }
        r
    } else {
        assert(n / 10 < n && n / 10 >= 1) by (nonlinear_arith)
            requires
                n >= 10,
        ;
        let r = push_decimal(n / 10, out);
        let r2 = r.concat(digit_str(n % 10));
        proof {
            assert(r2@ =~= out@ + dec_digits(n as int));
        }
        r2
    }
}

/// The label embedded in output file names to identify the action that
/// produced the file.
pub open spec fn spec_action_label(a: Action) -> Seq<char> {
    match a {
        Action::Invert => "inverted"@,
        Action::Merge => "merged"@,
        Action::Decimate(m) => "decimated-by-"@ + dec_digits(m as int),
    }
}

/// Build the label naming an action in derived output file names.
pub fn action_label(action: &Action) -> (r: String)
    ensures
        r@ == spec_action_label(*action),
{
    match action {
        Action::Invert => String::from_str("inverted"),
        Action::Merge => String::from_str("merged"),
        Action::Decimate(m) => push_decimal(*m, String::from_str("decimated-by-")),
    }
}

/// Output path for an action applied to a whole directory: the label plus
/// the fixed extension, placed inside the directory.
pub open spec fn spec_dir_output(p: Seq<char>, label: Seq<char>) -> Seq<char> {
    if p.len() == 0 {
        label + ".gpx"@
    } else if p.last() == '/' {
        p + label + ".gpx"@
    } else {
        p + "/"@ + label + ".gpx"@
    }
}

/// Output path for an action applied to a single file: same directory,
/// the label appended to the stem, original extension kept.
pub open spec fn spec_file_output(p: Seq<char>, label: Seq<char>) -> Seq<char> {
    p.take(file_name_start(p)) + spec_stem(p) + "-"@ + label + "."@ + spec_extension(p)
}

/// The derived output path for `action` applied to `p`.
pub open spec fn spec_output_path(p: Seq<char>, is_directory: bool, a: Action) -> Seq<char> {
    if is_directory {
        spec_dir_output(p, spec_action_label(a))
    } else {
        spec_file_output(p, spec_action_label(a))
    }
}

/// Construct the path of the output file for an operation on an input
/// file or directory.  The derivation is pure: whether `path` names a
/// directory is passed in by the caller, who has already checked it.
pub fn get_output_file_path(path: &String, is_directory: bool, action: &Action) -> (r: String)
    requires
        is_directory || has_extension(path@),
    ensures
        r@ == spec_output_path(path@, is_directory, *action),
{
    let label = action_label(action);
    if is_directory {
        let len: usize = path.as_str().unicode_len();
        if len == 0 {
            let r = label.concat(".gpx");
            proof {
                assert(r@ =~= spec_dir_output(path@, spec_action_label(*action)));
            }
            r
        } else if path.as_str().get_char(len - 1) == '/' {
            let r = path.clone().concat(label.as_str()).concat(".gpx");
            proof {
                assert(r@ =~= spec_dir_output(path@, spec_action_label(*action)));
            }
            r
        } else {
            let r = path.clone().concat("/").concat(label.as_str()).concat(".gpx");
            proof {
                assert(r@ =~= spec_dir_output(path@, spec_action_label(*action)));
            }
            r
        }
    } else {
        let s = path.as_str();
        let len: usize = s.unicode_len();
        let start: usize = match find_last_char(s, '/') {
            Some(i) => i + 1,
            None => 0,
        };
        let name = s.substring_char(start, len);
        proof {
            assert(name@ =~= spec_file_name(path@));
        }
        let nlen: usize = name.unicode_len();
        proof {
            lemma_find_last(name@, '.');
        }
        let k: usize = match find_last_char(name, '.') {
            Some(k) => k,
            None => {
                proof {
                    assert(false);
                }
                0
            },
        };
        let stem = name.substring_char(0, k);
        let ext = name.substring_char(k + 1, nlen);
        let prefix = s.substring_char(0, start);
        let r = String::from_str(prefix)
            .concat(stem)
            .concat("-")
            .concat(label.as_str())
            .concat(".")
            .concat(ext);
        proof {
            assert(r@ =~= spec_file_output(path@, spec_action_label(*action)));
        }
        r
    }
}

} // verus!
