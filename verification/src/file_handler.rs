//! File-path helpers: validation of the input formats the worker can
//! read, and extraction of file names and extensions from path text.
//!
//! Paths are treated as plain text: a component ends at a `/` or `\\`
//! separator, and extension comparison is ASCII case-insensitive, so
//! the same media file is accepted however its suffix is capitalized.

use vstd::prelude::*;

use crate::models::AppError;
use crate::models::FileInfo;

verus! {

/// A path separator; both the Unix and the Windows one are accepted.
pub open spec fn is_sep(c: char) -> bool {
    c == '/' || c == '\\'
}

/// Index just past the last non-separator before `j` (or `j` itself).
pub open spec fn scan_noseps_rev(s: Seq<char>, j: int) -> int
    decreases j,
{
    if 0 < j <= s.len() && is_sep(s[j - 1]) {
        scan_noseps_rev(s, j - 1)
    } else {
        j
    }
}

/// Index of the last separator before `j`, or -1 if there is none.
pub open spec fn last_sep(s: Seq<char>, j: int) -> int
    decreases j,
{
    if 0 < j <= s.len() {
        if is_sep(s[j - 1]) {
            j - 1
        } else {
            last_sep(s, j - 1)
        }
    } else {
        -1
    }
}

/// Index of the last dot before `j`, or -1 if there is none.
pub open spec fn last_dot(s: Seq<char>, j: int) -> int
    decreases j,
{
    if 0 < j <= s.len() {
        if s[j - 1] == '.' {
            j - 1
        } else {
            last_dot(s, j - 1)
        }
    } else {
        -1
    }
}

/// The file-name component of a path: the text after the last
/// separator, trailing separators ignored.
pub open spec fn spec_file_name(s: Seq<char>) -> Seq<char> {
    let e = scan_noseps_rev(s, s.len() as int);
    s.subrange(last_sep(s, e) + 1, e)
}

/// The raw extension of a path: the text after the last dot of its
/// file name, absent when there is no dot or the name starts with the
/// only one (a hidden file).
pub open spec fn spec_raw_extension(s: Seq<char>) -> Option<Seq<char>> {
    let name = spec_file_name(s);
    let d = last_dot(name, name.len() as int);
    if d <= 0 {
        None
    } else {
        Some(name.subrange(d + 1, name.len() as int))
    }
}

/// ASCII lowercasing of one character.
pub open spec fn lower_char(c: char) -> char {
    if 'A' <= c && c <= 'Z' {
        ((c as int) + 32) as char
    } else {
        c
    }
}

/// ASCII lowercasing of text.
pub open spec fn spec_lower(s: Seq<char>) -> Seq<char> {
    s.map_values(|c: char| lower_char(c))
}

/// The dotless lowercased extensions the worker accepts.
pub open spec fn spec_is_supported_ext(e: Seq<char>) -> bool {
    e == "mp3"@ || e == "wav"@ || e == "m4a"@ || e == "mp4"@ || e == "mkv"@
}

/// Whether a path names a media format the worker can transcribe.
pub open spec fn spec_validate_file_format(s: Seq<char>) -> bool {
    match spec_raw_extension(s) {
        Some(e) => spec_is_supported_ext(spec_lower(e)),
        None => false,
    }
}

/// The character at `i` is a path separator.
fn sep_at(s: &str, i: usize) -> (r: bool)
    requires
        i < s@.len(),
    ensures
        r == is_sep(s@[i as int]),
{
    let c = s.get_char(i);
    c == '/' || c == '\\'
}

/// Index just past the last non-separator of `s`.
fn scan_noseps_rev_exec(s: &str, j: usize) -> (k: usize)
    requires
        j <= s@.len(),
    ensures
        k == scan_noseps_rev(s@, j as int),
        k <= j,
{
    let mut cur = j;
    while cur > 0 && sep_at(s, cur - 1)
        invariant
            cur <= j <= s@.len(),
            scan_noseps_rev(s@, j as int) == scan_noseps_rev(s@, cur as int),
        decreases cur,
    {
        assert(scan_noseps_rev(s@, cur as int) == scan_noseps_rev(s@, cur - 1));
        cur -= 1;
    }
    assert(scan_noseps_rev(s@, cur as int) == cur);
    cur
}

/// Index of the last separator before `j`, if any.
fn last_sep_exec(s: &str, j: usize) -> (r: Option<usize>)
    requires
        j <= s@.len(),
    ensures
        (match r {
            Some(p) => p < j && last_sep(s@, j as int) == p as int,
            None => last_sep(s@, j as int) == -1,
        }),
{
    let mut cur = j;
    while cur > 0
        invariant
            cur <= j <= s@.len(),
            last_sep(s@, j as int) == last_sep(s@, cur as int),
        decreases cur,
    {
        if sep_at(s, cur - 1) {
            return Some(cur - 1);
        }
        assert(last_sep(s@, cur as int) == last_sep(s@, cur - 1));
        cur -= 1;
    }
    None
}

/// Index of the last dot before `j`, if any.
fn last_dot_exec(s: &str, j: usize) -> (r: Option<usize>)
    requires
        j <= s@.len(),
    ensures
        (match r {
            Some(p) => p < j && last_dot(s@, j as int) == p as int,
            None => last_dot(s@, j as int) == -1,
        }),
{
    let mut cur = j;
    while cur > 0
        invariant
            cur <= j <= s@.len(),
            last_dot(s@, j as int) == last_dot(s@, cur as int),
        decreases cur,
    {
        if s.get_char(cur - 1) == '.' {
            return Some(cur - 1);
        }
        assert(last_dot(s@, cur as int) == last_dot(s@, cur - 1));
        cur -= 1;
    }
    None
}

/// The lowercase text of an ASCII capital letter.
fn upper_to_lower(c: char) -> (r: &'static str)
    requires
        'A' <= c && c <= 'Z',
    ensures
        r@ == seq![lower_char(c)],
{
    match c {
        'A' => {
            proof {
                reveal_strlit("a");
                assert("a"@ =~= seq![lower_char('A')]);
            }
            "a"
        },
        'B' => {
            proof {
                reveal_strlit("b");
                assert("b"@ =~= seq![lower_char('B')]);
            }
            "b"
        },
        'C' => {
            proof {
                reveal_strlit("c");
                assert("c"@ =~= seq![lower_char('C')]);
            }
            "c"
        },
        'D' => {
            proof {
                reveal_strlit("d");
                assert("d"@ =~= seq![lower_char('D')]);
            }
            "d"
        },
        'E' => {
            proof {
                reveal_strlit("e");
                assert("e"@ =~= seq![lower_char('E')]);
            }
            "e"
        },
        'F' => {
            proof {
                reveal_strlit("f");
                assert("f"@ =~= seq![lower_char('F')]);
            }
            "f"
        },
        'G' => {
            proof {
                reveal_strlit("g");
                assert("g"@ =~= seq![lower_char('G')]);
            }
            "g"
        },
        'H' => {
            proof {
                reveal_strlit("h");
                assert("h"@ =~= seq![lower_char('H')]);
            }
            "h"
        },
        'I' => {
            proof {
                reveal_strlit("i");
                assert("i"@ =~= seq![lower_char('I')]);
            }
            "i"
        },
        'J' => {
            proof {
                reveal_strlit("j");
                assert("j"@ =~= seq![lower_char('J')]);
            }
            "j"
        },
        'K' => {
            proof {
                reveal_strlit("k");
                assert("k"@ =~= seq![lower_char('K')]);
            }
            "k"
        },
        'L' => {
            proof {
                reveal_strlit("l");
                assert("l"@ =~= seq![lower_char('L')]);
            }
            "l"
        },
        'M' => {
            proof {
                reveal_strlit("m");
                assert("m"@ =~= seq![lower_char('M')]);
            }
            "m"
        },
        'N' => {
            proof {
                reveal_strlit("n");
                assert("n"@ =~= seq![lower_char('N')]);
            }
            "n"
        },
        'O' => {
            proof {
                reveal_strlit("o");
                assert("o"@ =~= seq![lower_char('O')]);
            }
            "o"
        },
        'P' => {
            proof {
                reveal_strlit("p");
                assert("p"@ =~= seq![lower_char('P')]);
            }
            "p"
        },
        'Q' => {
            proof {
                reveal_strlit("q");
                assert("q"@ =~= seq![lower_char('Q')]);
            }
            "q"
        },
        'R' => {
            proof {
                reveal_strlit("r");
                assert("r"@ =~= seq![lower_char('R')]);
            }
            "r"
        },
        'S' => {
            proof {
                reveal_strlit("s");
                assert("s"@ =~= seq![lower_char('S')]);
            }
            "s"
        },
        'T' => {
            proof {
                reveal_strlit("t");
                assert("t"@ =~= seq![lower_char('T')]);
            }
            "t"
        },
        'U' => {
            proof {
                reveal_strlit("u");
                assert("u"@ =~= seq![lower_char('U')]);
            }
            "u"
        },
        'V' => {
            proof {
                reveal_strlit("v");
                assert("v"@ =~= seq![lower_char('V')]);
            }
            "v"
        },
        'W' => {
            proof {
                reveal_strlit("w");
                assert("w"@ =~= seq![lower_char('W')]);
            }
            "w"
        },
        'X' => {
            proof {
                reveal_strlit("x");
                assert("x"@ =~= seq![lower_char('X')]);
            }
            "x"
        },
        'Y' => {
            proof {
                reveal_strlit("y");
                assert("y"@ =~= seq![lower_char('Y')]);
            }
            "y"
        },
        'Z' => {
            proof {
                reveal_strlit("z");
                assert("z"@ =~= seq![lower_char('Z')]);
            }
            "z"
        },
        _ => {
            proof {
                reveal_strlit("z");
                assert("z"@ =~= seq![lower_char('Z')]);
            }
            "z"
        },
    }
}

/// ASCII-lowercase a piece of text.
fn ascii_lower(s: &str) -> (r: String)
    ensures
        r@ == spec_lower(s@),
{
    let n = s.unicode_len();
    let mut out = String::new();
    let mut i: usize = 0;
    while i < n
        invariant
            i <= n,
            n == s@.len(),
            out@ == spec_lower(s@.subrange(0, i as int)),
        decreases n - i,
    {
        let c = s.get_char(i);
        if 'A' <= c && c <= 'Z' {
            out.append(upper_to_lower(c));
        } else {
            out.append(s.substring_char(i, i + 1));
        }
        assert(out@ =~= spec_lower(s@.subrange(0, i + 1))) by {
            assert(s@.subrange(0, i + 1) =~= s@.subrange(0, i as int).push(s@[i as int]));
            assert(s@.subrange(i as int, i + 1) =~= seq![s@[i as int]]);
        }
        i += 1;
    }
    assert(s@.subrange(0, n as int) =~= s@);
    out
}

/// Extract the file name from a path: the component after the last
/// separator.
pub fn get_file_name(file_path: &str) -> (r: String)
    ensures
        r@ == spec_file_name(file_path@),
{
    let e = scan_noseps_rev_exec(file_path, file_path.unicode_len());
    let a = match last_sep_exec(file_path, e) {
        Some(p) => p + 1,
        None => 0,
    };
    file_path.substring_char(a, e).to_owned()
}

/// The lowercased, dotless extension of a path's file name, if it has
/// one.
fn bare_extension(file_path: &str) -> (r: Option<String>)
    ensures
        (match r {
            Some(e) => spec_raw_extension(file_path@) matches Some(raw) && e@ == spec_lower(raw),
            None => spec_raw_extension(file_path@) is None,
        }),
{
    let e = scan_noseps_rev_exec(file_path, file_path.unicode_len());
    let a = match last_sep_exec(file_path, e) {
        Some(p) => p + 1,
        None => 0,
    };
    let name = file_path.substring_char(a, e);
    let nlen = name.unicode_len();
    match last_dot_exec(name, nlen) {
        Some(d) => {
            if d == 0 {
                None
            } else {
                let ext = name.substring_char(d + 1, nlen);
                Some(ascii_lower(ext))
            }
        },
        None => None,
    }
}

/// Gets the file extension from a path, lowercased and with its dot.
pub fn get_file_extension(file_path: &str) -> (r: Option<String>)
    ensures
        (match r {
            Some(e) => spec_raw_extension(file_path@) matches Some(raw) && e@ == "."@ + spec_lower(
                raw,
            ),
            None => spec_raw_extension(file_path@) is None,
        }),
{
    match bare_extension(file_path) {
        Some(ext) => {
            let mut out = String::from_str(".");
            out.append(ext.as_str());
            Some(out)
        },
        None => None,
    }
}

/// Validates that a file's format is supported for transcription:
/// the extension must be one of mp3, wav, m4a, mp4 or mkv, compared
/// without regard to ASCII case.
pub fn validate_file_format(file_path: &str) -> (r: bool)
    ensures
        r == spec_validate_file_format(file_path@),
{
    match bare_extension(file_path) {
        Some(e) => {
            e.eq(&String::from_str("mp3")) || e.eq(&String::from_str("wav")) || e.eq(
                &String::from_str("m4a"),
            ) || e.eq(&String::from_str("mp4")) || e.eq(&String::from_str("mkv"))
        },
        None => false,
    }
}

/// Metadata of a chosen input, validated first: a missing file and an
/// unsupported format are rejected before anything is measured.  The
/// caller probes the file system and hands in what it found; the
/// decisions are made here.
pub fn get_file_metadata_internal(
    file_path: &str,
    input_exists: bool,
    size: u64,
    duration_ms: u64,
) -> (r: Result<FileInfo, AppError>)
    ensures
        !input_exists ==> (r matches Err(e) && e matches AppError::FileNotFound(p) && p@
            == file_path@),
        input_exists && !spec_validate_file_format(file_path@) ==> (r matches Err(e) && e matches
            AppError::UnsupportedFormat(x) && x@ == (match spec_raw_extension(file_path@) {
            Some(raw) => "."@ + spec_lower(raw),
            None => "unknown"@,
        })),
        input_exists && spec_validate_file_format(file_path@) ==> (r matches Ok(info) && info.name@
            == spec_file_name(file_path@) && info.path@ == file_path@ && info.size == size
            && info.duration_ms == duration_ms),
{
    if !input_exists {
        return Err(AppError::FileNotFound(file_path.to_owned()));
    }
    if !validate_file_format(file_path) {
        let ext = match get_file_extension(file_path) {
            Some(e) => e,
            None => String::from_str("unknown"),
        };
        return Err(AppError::UnsupportedFormat(ext));
    }
    Ok(
        FileInfo {
            name: get_file_name(file_path),
            path: file_path.to_owned(),
            size,
            duration_ms,
        },
    )
}

/// The supported formats, spelled out for display.
pub fn get_supported_formats_string() -> (r: String)
    ensures
        r@ == "MP3, WAV, M4A, MP4, MKV"@,
{
    String::from_str("MP3, WAV, M4A, MP4, MKV")
}

} // verus!
