//! FFmpeg availability: combining the two probe locations and reading
//! the banner line of `ffmpeg -version` output.
//!
//! Running the probes is process work that the application layer
//! performs; the decision between their outcomes and the parsing of
//! their output live here.

use vstd::prelude::*;

use crate::protocol::digits_val;
use crate::protocol::frac_scale;
use crate::protocol::max_whole_seconds;
use crate::protocol::parse_u64;
use crate::protocol::scan_digits;
use crate::protocol::spec_trim;

verus! {

/// Result of the FFmpeg availability check.
#[derive(Clone, PartialEq, Debug)]
pub struct FFmpegCheckResult {
    /// Whether FFmpeg is available.
    pub available: bool,
    /// Where FFmpeg was found (if available).
    pub location: Option<String>,
    /// FFmpeg version string (if available).
    pub version: Option<String>,
}

/// Combine the two probe outcomes into one availability answer: the
/// system path is preferred, the application directory is the
/// fallback, and with neither FFmpeg is reported unavailable.
pub fn check_ffmpeg_availability(
    path_check: Option<FFmpegCheckResult>,
    app_dir_check: Option<FFmpegCheckResult>,
) -> (r: FFmpegCheckResult)
    ensures
        (match path_check {
            Some(p) => r == p,
            None => (match app_dir_check {
                Some(a) => r == a,
                None => !r.available && r.location is None && r.version is None,
            }),
        }),
{
    match path_check {
        Some(p) => p,
        None => match app_dir_check {
            Some(a) => a,
            None => FFmpegCheckResult { available: false, location: None, version: None },
        },
    }
}

/// First index at or after `i` holding a newline (or the end).
pub open spec fn scan_nl(s: Seq<char>, i: int) -> int
    decreases s.len() - i,
{
    if 0 <= i < s.len() && s[i] != '\n' {
        scan_nl(s, i + 1)
    } else {
        i
    }
}

/// The banner line of version output: its first line, without a
/// carriage return, and nothing for empty output.
pub open spec fn spec_extract_version(s: Seq<char>) -> Option<Seq<char>> {
    if s.len() == 0 {
        None
    } else {
        let j = scan_nl(s, 0);
        let e = if j > 0 && s[j - 1] == '\r' {
            j - 1
        } else {
            j
        };
        Some(s.subrange(0, e))
    }
}

/// The millisecond value of a media duration as the probe prints it:
/// seconds as a decimal number, surrounded by optional whitespace,
/// with any number of fraction digits; precision beyond milliseconds
/// is dropped.
pub open spec fn spec_duration_ms(s: Seq<char>) -> Option<u64> {
    let t = spec_trim(s);
    match parse_u64(t, 0) {
        Option::None => Option::None,
        Option::Some((whole, j)) => {
            if whole > max_whole_seconds() {
                Option::None
            } else if j == t.len() {
                Option::Some((whole * 1000) as u64)
            } else if t[j] == '.' && t.len() > j + 1 && scan_digits(t, j + 1) == t.len() {
                let nd = if t.len() - (j + 1) >= 3 {
                    3
                } else {
                    t.len() - (j + 1)
                };
                Option::Some(
                    ((whole * 1000) as int + digits_val(t, j + 1, j + 1 + nd) * frac_scale(
                        nd as int,
                    )) as u64,
                )
            } else {
                Option::None
            }
        },
    }
}

/// Parse a probed media duration into milliseconds.
pub fn parse_duration_ms(s: &str) -> (r: Option<u64>)
    ensures
        r == spec_duration_ms(s@),
{
    let n = s.unicode_len();
    let a = crate::protocol::scan_ws_exec(s, 0);
    let b = crate::protocol::scan_ws_rev_exec(s, n);
    if a >= b {
        proof {
            if a > b {
                assert(spec_trim(s@) == Seq::<char>::empty());
            } else {
                assert(spec_trim(s@) =~= s@.subrange(a as int, b as int));
            }
            assert(scan_digits(spec_trim(s@), 0) == 0);
        }
        return None;
    }
    let t = s.substring_char(a, b);
    assert(t@ == spec_trim(s@));
    let tn = b - a;
    assert(tn == t@.len());
    let (whole, j) = match crate::protocol::parse_u64_exec(t, 0) {
        Some(p) => p,
        None => {
            return None;
        },
    };
    if whole > 18_446_744_073_709_550 {
        return None;
    }
    if j == tn {
        return Some(whole * 1000);
    }
    if t.get_char(j) != '.' {
        return None;
    }
    if tn <= j + 1 {
        return None;
    }
    let k = crate::protocol::scan_digits_exec(t, j + 1);
    if k != tn {
        return None;
    }
    let nd = if tn - (j + 1) >= 3 {
        3
    } else {
        tn - (j + 1)
    };
    proof {
        crate::protocol::lemma_scan_digits_bounds(t@, j + 1);
    }
    let frac = crate::protocol::digits_range_value(t, j + 1, j + 1 + nd);
    let scale: u64 = if nd == 1 {
        100
    } else if nd == 2 {
        10
    } else {
        1
    };
    proof {
        crate::protocol::lemma_digits_val_bound_small(t@, j + 1, j + 1 + nd);
        if nd == 1 {
            assert(frac * scale <= 900);
        } else if nd == 2 {
            assert(frac * scale <= 990);
        } else {
            assert(frac * scale <= 999);
        }
    }
    Some(whole * 1000 + frac * scale)
}

/// The character at `i` is not a newline.
fn not_nl_at(s: &str, i: usize) -> (r: bool)
    requires
        i < s@.len(),
    ensures
        r == (s@[i as int] != '\n'),
{
    s.get_char(i) != '\n'
}

/// Extract the version banner from `ffmpeg -version` output: the
/// first line, or nothing when the output is empty.
pub fn extract_version(output: &str) -> (r: Option<String>)
    ensures
        (match r {
            Some(v) => spec_extract_version(output@) == Some(v@),
            None => spec_extract_version(output@) is None,
        }),
{
    let n = output.unicode_len();
    if n == 0 {
        return None;
    }
    let mut j: usize = 0;
    while j < n && not_nl_at(output, j)
        invariant
            j <= n,
            n == output@.len(),
            scan_nl(output@, 0) == scan_nl(output@, j as int),
        decreases n - j,
    {
        assert(scan_nl(output@, j as int) == scan_nl(output@, j + 1));
        j += 1;
    }
    assert(scan_nl(output@, j as int) == j);
    let e = if j > 0 && output.get_char(j - 1) == '\r' {
        j - 1
    } else {
        j
    };
    Some(output.substring_char(0, e).to_owned())
}

} // verus!
