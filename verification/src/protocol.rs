//! Wire protocol between the worker process and the host.
//!
//! The worker emits one JSON object per line on its standard output.
//! The decoder accepts the compact canonical form of the four message
//! shapes (`progress`, `segment`, `complete`, `error`): the fields in
//! their documented order and no whitespace between tokens — that
//! restriction is this interface's contract with the worker, which
//! emits exactly this form.  Text fields carry any characters; the
//! quote and the backslash travel escaped, as backslash-quote and
//! backslash-backslash, and no other JSON escape sequence is used on
//! this wire.  A line that
//! deviates decodes to [`Decoded::Malformed`], which the reader loop
//! logs and discards, and a line of only whitespace decodes to
//! [`Decoded::Blank`].  Timing fields travel as seconds with up to
//! three fraction digits and are held as integer milliseconds.

use vstd::prelude::*;

use crate::models::Segment;
use crate::models::SegmentModel;
use crate::models::Word;
use crate::models::WordModel;

verus! {

// ------------------------------------------------------------------
// Characters
// ------------------------------------------------------------------

/// Whitespace stripped from line ends before decoding.
pub open spec fn is_ws(c: char) -> bool {
    c == ' ' || c == '\t' || c == '\r' || c == '\n'
}

/// Decimal digit.
pub open spec fn is_digit(c: char) -> bool {
    '0' <= c && c <= '9'
}

/// Numeric value of a decimal digit.
pub open spec fn digit_val(c: char) -> int {
    c as int - '0' as int
}

/// Characters that continue a plain run inside a quoted text field:
/// anything except the quote and the escape character, which both
/// travel escaped.
pub open spec fn text_ok(c: char) -> bool {
    c != '"' && c != '\\'
}

// ------------------------------------------------------------------
// Scanning (specification)
// ------------------------------------------------------------------

/// First index at or after `i` holding a non-digit (or the end).
pub open spec fn scan_digits(s: Seq<char>, i: int) -> int
    decreases s.len() - i,
{
    if 0 <= i < s.len() && is_digit(s[i]) {
        scan_digits(s, i + 1)
    } else {
        i
    }
}

/// Value of the decimal digits `s[i..j]`.
pub open spec fn digits_val(s: Seq<char>, i: int, j: int) -> int
    decreases j - i,
{
    if i < j {
        digits_val(s, i, j - 1) * 10 + digit_val(s[j - 1])
    } else {
        0
    }
}

/// First index at or after `i` holding a quote or escape (or the end).
pub open spec fn scan_text(s: Seq<char>, i: int) -> int
    decreases s.len() - i,
{
    if 0 <= i < s.len() && text_ok(s[i]) {
        scan_text(s, i + 1)
    } else {
        i
    }
}

/// First index at or after `i` holding a non-whitespace (or the end).
pub open spec fn scan_ws(s: Seq<char>, i: int) -> int
    decreases s.len() - i,
{
    if 0 <= i < s.len() && is_ws(s[i]) {
        scan_ws(s, i + 1)
    } else {
        i
    }
}

/// Index just past the last non-whitespace before `j` (or `i`).
pub open spec fn scan_ws_rev(s: Seq<char>, j: int) -> int
    decreases j,
{
    if 0 < j <= s.len() && is_ws(s[j - 1]) {
        scan_ws_rev(s, j - 1)
    } else {
        j
    }
}

/// `s` with leading and trailing whitespace removed.
pub open spec fn spec_trim(s: Seq<char>) -> Seq<char> {
    let a = scan_ws(s, 0);
    let b = scan_ws_rev(s, s.len() as int);
    if a <= b {
        s.subrange(a, b)
    } else {
        Seq::empty()
    }
}

// ------------------------------------------------------------------
// Parsing (specification)
// ------------------------------------------------------------------

/// Match the exact characters of `lit` at position `i`.
pub open spec fn parse_lit(s: Seq<char>, i: int, lit: Seq<char>) -> Option<int> {
    if 0 <= i && i + lit.len() <= s.len() && s.subrange(i, i + lit.len() as int) == lit {
        Some(i + lit.len() as int)
    } else {
        None
    }
}

/// Parse one or more decimal digits into a `u64`.
pub open spec fn parse_u64(s: Seq<char>, i: int) -> Option<(u64, int)> {
    let j = scan_digits(s, i);
    if j == i {
        None
    } else if digits_val(s, i, j) <= u64::MAX {
        Some((digits_val(s, i, j) as u64, j))
    } else {
        None
    }
}

/// Largest number of whole seconds whose millisecond value fits a `u64`.
pub open spec fn max_whole_seconds() -> int {
    18_446_744_073_709_550
}

/// Weight of a fraction written with `nd` digits, in milliseconds.
pub open spec fn frac_scale(nd: int) -> int {
    if nd == 1 {
        100
    } else if nd == 2 {
        10
    } else {
        1
    }
}

/// Parse a duration in seconds — digits, optionally followed by a dot
/// and one to three fraction digits — into milliseconds.
pub open spec fn parse_ms(s: Seq<char>, i: int) -> Option<(u64, int)> {
    match parse_u64(s, i) {
        Option::None => Option::None,
        Option::Some((whole, j)) => {
            if whole > max_whole_seconds() {
                Option::None
            } else if j < s.len() && s[j] == '.' {
                let k = scan_digits(s, j + 1);
                let nd = k - (j + 1);
                if 1 <= nd <= 3 {
                    Option::Some(
                        (((whole * 1000) as int + digits_val(s, j + 1, k) * frac_scale(nd)) as u64, k),
                    )
                } else {
                    Option::None
                }
            } else {
                Option::Some(((whole * 1000) as u64, j))
            }
        },
    }
}

/// Parse the body of a quoted text field up to and including its
/// closing quote: plain runs interleaved with the two escape
/// sequences, backslash-quote and backslash-backslash.
pub open spec fn parse_qbody(s: Seq<char>, i: int) -> Option<(Seq<char>, int)>
    decreases s.len() - i,
{
    let j = scan_text(s, i);
    if j < i || s.len() <= j {
        // the scan never moves backwards; the first disjunct is
        // unreachable and only bounds the recursion
        None
    } else if s[j] == '"' {
        Some((s.subrange(i, j), j + 1))
    } else if j + 1 < s.len() && (s[j + 1] == '"' || s[j + 1] == '\\') {
        match parse_qbody(s, j + 2) {
            Option::None => Option::None,
            Option::Some((t, k)) => Option::Some((s.subrange(i, j) + seq![s[j + 1]] + t, k)),
        }
    } else {
        None
    }
}

/// Parse a quoted text field, unescaping its two escape sequences.
pub open spec fn parse_quoted(s: Seq<char>, i: int) -> Option<(Seq<char>, int)> {
    if 0 <= i < s.len() && s[i] == '"' {
        parse_qbody(s, i + 1)
    } else {
        None
    }
}

// ------------------------------------------------------------------
// Scanning and parsing (executable)
// ------------------------------------------------------------------

/// All characters of `s` in `[i, j)` are digits.
pub open spec fn all_digits(s: Seq<char>, i: int, j: int) -> bool {
    forall|k: int| i <= k < j ==> is_digit(s[k])
}

pub(crate) proof fn lemma_scan_digits_bounds(s: Seq<char>, i: int)
    requires
        0 <= i <= s.len(),
    ensures
        i <= scan_digits(s, i) <= s.len(),
        all_digits(s, i, scan_digits(s, i)),
        scan_digits(s, i) < s.len() ==> !is_digit(s[scan_digits(s, i)]),
    decreases s.len() - i,
{
    if i < s.len() && is_digit(s[i]) {
        lemma_scan_digits_bounds(s, i + 1);
    }
}

/// All characters of `s` in `[i, j)` may stand in a plain run.
pub open spec fn all_text_ok(s: Seq<char>, i: int, j: int) -> bool {
    forall|k: int| i <= k < j ==> text_ok(s[k])
}

proof fn lemma_scan_text_bounds(s: Seq<char>, i: int)
    requires
        0 <= i <= s.len(),
    ensures
        i <= scan_text(s, i) <= s.len(),
        all_text_ok(s, i, scan_text(s, i)),
        scan_text(s, i) < s.len() ==> !text_ok(s[scan_text(s, i)]),
    decreases s.len() - i,
{
    if i < s.len() && text_ok(s[i]) {
        lemma_scan_text_bounds(s, i + 1);
    }
}

/// The character at `i` is a digit.
fn digit_at(s: &str, i: usize) -> (r: bool)
    requires
        i < s@.len(),
    ensures
        r == is_digit(s@[i as int]),
{
    let c = s.get_char(i);
    '0' <= c && c <= '9'
}

/// The character at `i` may stand inside a quoted text field.
fn text_ok_at(s: &str, i: usize) -> (r: bool)
    requires
        i < s@.len(),
    ensures
        r == text_ok(s@[i as int]),
{
    let c = s.get_char(i);
    c != '"' && c != '\\'
}

pub(crate) fn scan_digits_exec(s: &str, i: usize) -> (j: usize)
    requires
        i <= s@.len(),
    ensures
        j == scan_digits(s@, i as int),
        i <= j <= s@.len(),
{
    let n = s.unicode_len();
    let mut cur = i;
    while cur < n && digit_at(s, cur)
        invariant
            i <= cur <= n,
            n == s@.len(),
            scan_digits(s@, i as int) == scan_digits(s@, cur as int),
        decreases n - cur,
    {
        assert(scan_digits(s@, cur as int) == scan_digits(s@, cur + 1));
        cur += 1;
    }
    assert(scan_digits(s@, cur as int) == cur);
    cur
}

fn scan_text_exec(s: &str, i: usize) -> (j: usize)
    requires
        i <= s@.len(),
    ensures
        j == scan_text(s@, i as int),
        i <= j <= s@.len(),
{
    let n = s.unicode_len();
    let mut cur = i;
    while cur < n && text_ok_at(s, cur)
        invariant
            i <= cur <= n,
            n == s@.len(),
            scan_text(s@, i as int) == scan_text(s@, cur as int),
        decreases n - cur,
    {
        assert(scan_text(s@, cur as int) == scan_text(s@, cur + 1));
        cur += 1;
    }
    assert(scan_text(s@, cur as int) == cur);
    cur
}

/// Match the characters of `lit` at position `i` of `s`.
fn match_lit(s: &str, i: usize, lit: &str) -> (r: Option<usize>)
    requires
        i <= s@.len(),
    ensures
        (match r {
            Some(j) => parse_lit(s@, i as int, lit@) == Some(j as int) && i <= j <= s@.len(),
            None => parse_lit(s@, i as int, lit@) is None,
        }),
{
    let n = s.unicode_len();
    let m = lit.unicode_len();
    if m > n - i {
        assert(i + lit@.len() > s@.len());
        return None;
    }
    let mut k: usize = 0;
    while k < m
        invariant
            0 <= k <= m,
            m == lit@.len(),
            n == s@.len(),
            i + m <= n,
            forall|t: int| 0 <= t < k ==> s@[i + t] == lit@[t],
        decreases m - k,
    {
        if s.get_char(i + k) != lit.get_char(k) {
            assert(s@.subrange(i as int, i + lit@.len() as int) != lit@) by {
                assert(s@.subrange(i as int, i + lit@.len() as int)[k as int] != lit@[k as int]);
            }
            return None;
        }
        k += 1;
    }
    assert(s@.subrange(i as int, i + lit@.len() as int) =~= lit@);
    Some(i + m)
}

proof fn lemma_digits_val_nonneg(s: Seq<char>, i: int, j: int)
    requires
        all_digits(s, i, j),
    ensures
        digits_val(s, i, j) >= 0,
    decreases j - i,
{
    if i < j {
        lemma_digits_val_nonneg(s, i, j - 1);
    }
}

proof fn lemma_digits_val_monotone(s: Seq<char>, i: int, j: int, k: int)
    requires
        all_digits(s, i, k),
        i <= j <= k,
    ensures
        digits_val(s, i, k) >= digits_val(s, i, j),
    decreases k - j,
{
    if j < k {
        lemma_digits_val_monotone(s, i, j, k - 1);
        lemma_digits_val_nonneg(s, i, k - 1);
    }
}

/// Parse one or more decimal digits at `i` into a `u64`.
pub(crate) fn parse_u64_exec(s: &str, i: usize) -> (r: Option<(u64, usize)>)
    requires
        i <= s@.len(),
    ensures
        (match r {
            Some((v, j)) => parse_u64(s@, i as int) == Some((v, j as int)) && i < j <= s@.len(),
            None => parse_u64(s@, i as int) is None,
        }),
{
    let j = scan_digits_exec(s, i);
    proof {
        lemma_scan_digits_bounds(s@, i as int);
    }
    if j == i {
        return None;
    }
    let mut acc: u64 = 0;
    let mut cur = i;
    while cur < j
        invariant
            i <= cur <= j <= s@.len(),
            j == scan_digits(s@, i as int),
            all_digits(s@, i as int, j as int),
            acc == digits_val(s@, i as int, cur as int),
        decreases j - cur,
    {
        let c = s.get_char(cur);
        assert(is_digit(s@[cur as int]));
        let d: u64 = (c as u32 as u64) - 48;
        assert(d == digit_val(s@[cur as int]));
        if acc > (u64::MAX - d) / 10 {
            proof {
                lemma_div_10_mul(u64::MAX - d, acc as int);
                assert(digits_val(s@, i as int, cur + 1) == acc * 10 + d);
                lemma_digits_val_monotone(s@, i as int, cur + 1, j as int);
            }
            return None;
        }
        proof {
            lemma_div_10_mul(u64::MAX - d, acc as int);
        }
        acc = acc * 10 + d;
        cur += 1;
    }
    Some((acc, j))
}

/// Relates `a / 10` comparisons to products: `x > a / 10` makes `10 x`
/// exceed `a`, and `x <= a / 10` keeps `10 x` within it.
proof fn lemma_div_10_mul(a: int, x: int)
    requires
        a >= 0,
    ensures
        x > a / 10 ==> 10 * x > a,
        x <= a / 10 ==> 10 * x <= a,
{
    vstd::arithmetic::div_mod::lemma_fundamental_div_mod(a as int, 10);
}

/// Parse a duration in seconds at `i` into milliseconds.
fn parse_ms_exec(s: &str, i: usize) -> (r: Option<(u64, usize)>)
    requires
        i <= s@.len(),
    ensures
        (match r {
            Some((v, j)) => parse_ms(s@, i as int) == Some((v, j as int)) && i < j <= s@.len(),
            None => parse_ms(s@, i as int) is None,
        }),
{
    let (whole, j) = match parse_u64_exec(s, i) {
        Some(p) => p,
        None => {
            return None;
        },
    };
    if whole > 18_446_744_073_709_550 {
        return None;
    }
    if j < s.unicode_len() && s.get_char(j) == '.' {
        let k = scan_digits_exec(s, j + 1);
        proof {
            lemma_scan_digits_bounds(s@, j + 1);
        }
        let nd = k - (j + 1);
        if 1 <= nd && nd <= 3 {
            let frac = digits_range_value(s, j + 1, k);
            let scale: u64 = if nd == 1 {
                100
            } else if nd == 2 {
                10
            } else {
                1
            };
            proof {
                lemma_digits_val_bound_small(s@, j + 1, k as int);
                if nd == 1 {
                    assert(frac * scale <= 900);
                } else if nd == 2 {
                    assert(frac * scale <= 990);
                } else {
                    assert(frac * scale <= 999);
                }
            }
            Some((whole * 1000 + frac * scale, k))
        } else {
            None
        }
    } else {
        Some((whole * 1000, j))
    }
}

/// Value of the digit run `s[i..j)`, which the caller knows is short
/// enough to fit.
pub(crate) fn digits_range_value(s: &str, i: usize, j: usize) -> (v: u64)
    requires
        i <= j <= s@.len(),
        all_digits(s@, i as int, j as int),
        j - i <= 3,
    ensures
        v == digits_val(s@, i as int, j as int),
        v < 1000,
{
    proof {
        lemma_digits_val_bound_small(s@, i as int, j as int);
    }
    let mut acc: u64 = 0;
    let mut cur = i;
    while cur < j
        invariant
            i <= cur <= j <= s@.len(),
            j - i <= 3,
            all_digits(s@, i as int, j as int),
            acc == digits_val(s@, i as int, cur as int),
            acc < 1000,
        decreases j - cur,
    {
        let c = s.get_char(cur);
        assert(is_digit(s@[cur as int]));
        let d: u64 = (c as u32 as u64) - 48;
        proof {
            lemma_digits_val_bound_small(s@, i as int, cur + 1);
        }
        acc = acc * 10 + d;
        cur += 1;
    }
    acc
}

/// The value of at most three digits stays below 1000.
pub(crate) proof fn lemma_digits_val_bound_small(s: Seq<char>, i: int, j: int)
    requires
        all_digits(s, i, j),
        i <= j,
        j - i <= 3,
    ensures
        j - i == 0 ==> digits_val(s, i, j) == 0,
        j - i <= 1 ==> digits_val(s, i, j) < 10,
        j - i <= 2 ==> digits_val(s, i, j) < 100,
        digits_val(s, i, j) < 1000,
    decreases j - i,
{
    if i < j {
        lemma_digits_val_bound_small(s, i, j - 1);
    }
}

// ------------------------------------------------------------------
// Messages
// ------------------------------------------------------------------

/// Mathematical value of one decoded worker message.
#[verifier::ext_equal]
pub enum MessageModel {
    Progress { percent: u32, status: Seq<char> },
    Segment { data: SegmentModel },
    Complete { language: Seq<char>, duration_ms: u64 },
    Error { message: Seq<char> },
}

/// One message of the worker's line-delimited output protocol.
#[derive(Clone, PartialEq, Debug)]
pub enum SidecarMessage {
    Progress { percent: u32, status: String },
    Segment { data: Segment },
    Complete { language: String, duration_ms: u64 },
    Error { message: String },
}

impl View for SidecarMessage {
    type V = MessageModel;

    open spec fn view(&self) -> MessageModel {
        match self {
            SidecarMessage::Progress { percent, status } => MessageModel::Progress {
                percent: *percent,
                status: status@,
            },
            SidecarMessage::Segment { data } => MessageModel::Segment { data: data@ },
            SidecarMessage::Complete { language, duration_ms } => MessageModel::Complete {
                language: language@,
                duration_ms: *duration_ms,
            },
            SidecarMessage::Error { message } => MessageModel::Error { message: message@ },
        }
    }
}

/// Mathematical outcome of decoding one line.
#[verifier::ext_equal]
pub enum DecodedModel {
    Blank,
    Message(MessageModel),
    Malformed,
}

/// Outcome of decoding one line of worker output.
#[derive(Clone, PartialEq, Debug)]
pub enum Decoded {
    Blank,
    Message(SidecarMessage),
    Malformed,
}

impl View for Decoded {
    type V = DecodedModel;

    open spec fn view(&self) -> DecodedModel {
        match self {
            Decoded::Blank => DecodedModel::Blank,
            Decoded::Message(m) => DecodedModel::Message(m@),
            Decoded::Malformed => DecodedModel::Malformed,
        }
    }
}

// ------------------------------------------------------------------
// The canonical wire text, piece by piece
// ------------------------------------------------------------------

/// Opening of a progress message, up to the percent value.
pub open spec fn lit_progress() -> Seq<char> {
    "{\"type\":\"progress\",\"percent\":"@
}

/// Separator before the status field.
pub open spec fn lit_status() -> Seq<char> {
    ",\"status\":"@
}

/// Opening of a segment message, up to the segment object.
pub open spec fn lit_segment() -> Seq<char> {
    "{\"type\":\"segment\",\"data\":"@
}

/// Opening of a completion message, up to the language value.
pub open spec fn lit_complete() -> Seq<char> {
    "{\"type\":\"complete\",\"language\":"@
}

/// Separator before the duration field.
pub open spec fn lit_duration() -> Seq<char> {
    ",\"duration\":"@
}

/// Opening of an error message, up to the message text.
pub open spec fn lit_error() -> Seq<char> {
    "{\"type\":\"error\",\"message\":"@
}

/// Closing brace of any object.
pub open spec fn lit_close() -> Seq<char> {
    "}"@
}

/// Opening of a segment object, up to the id value.
pub open spec fn lit_seg_id() -> Seq<char> {
    "{\"id\":"@
}

/// Separator before a start time.
pub open spec fn lit_start() -> Seq<char> {
    ",\"start\":"@
}

/// Separator before an end time.
pub open spec fn lit_end() -> Seq<char> {
    ",\"end\":"@
}

/// Separator before the segment text.
pub open spec fn lit_text() -> Seq<char> {
    ",\"text\":"@
}

/// Separator before the word list, including its opening bracket.
pub open spec fn lit_words() -> Seq<char> {
    ",\"words\":["@
}

/// Opening of a word object, up to the word text.
pub open spec fn lit_word() -> Seq<char> {
    "{\"word\":"@
}

// ------------------------------------------------------------------
// Message parsing (specification)
// ------------------------------------------------------------------

/// Parse one word object.
pub open spec fn parse_word_obj(s: Seq<char>, i: int) -> Option<(WordModel, int)> {
    match parse_lit(s, i, lit_word()) {
        Option::None => Option::None,
        Option::Some(i1) => match parse_quoted(s, i1) {
            Option::None => Option::None,
            Option::Some((w, i2)) => match parse_lit(s, i2, lit_start()) {
                Option::None => Option::None,
                Option::Some(i3) => match parse_ms(s, i3) {
                    Option::None => Option::None,
                    Option::Some((st, i4)) => match parse_lit(s, i4, lit_end()) {
                        Option::None => Option::None,
                        Option::Some(i5) => match parse_ms(s, i5) {
                            Option::None => Option::None,
                            Option::Some((en, i6)) => match parse_lit(s, i6, lit_close()) {
                                Option::None => Option::None,
                                Option::Some(i7) => Option::Some(
                                    (WordModel { word: w, start_ms: st, end_ms: en }, i7),
                                ),
                            },
                        },
                    },
                },
            },
        },
    }
}

/// Parse the remainder of a word list, starting just after the opening
/// bracket (or a separating comma), up to and including the closing
/// bracket.
pub open spec fn parse_words(s: Seq<char>, i: int) -> Option<(Seq<WordModel>, int)>
    decreases s.len() - i,
{
    if 0 <= i < s.len() && s[i] == ']' {
        Option::Some((Seq::empty(), i + 1))
    } else {
        match parse_word_obj(s, i) {
            Option::None => Option::None,
            Option::Some((w, j)) => {
                if !(i < j && j <= s.len()) {
                    // a successful parse always advances; this branch is
                    // unreachable and only bounds the recursion
                    Option::None
                } else if j < s.len() && s[j] == ',' {
                    match parse_words(s, j + 1) {
                        Option::None => Option::None,
                        Option::Some((ws, k)) => Option::Some((seq![w] + ws, k)),
                    }
                } else if j < s.len() && s[j] == ']' {
                    Option::Some((seq![w], j + 1))
                } else {
                    Option::None
                }
            },
        }
    }
}

/// Parse one segment object.
pub open spec fn parse_segment_obj(s: Seq<char>, i: int) -> Option<(SegmentModel, int)> {
    match parse_lit(s, i, lit_seg_id()) {
        Option::None => Option::None,
        Option::Some(i1) => match parse_quoted(s, i1) {
            Option::None => Option::None,
            Option::Some((id, i2)) => match parse_lit(s, i2, lit_start()) {
                Option::None => Option::None,
                Option::Some(i3) => match parse_ms(s, i3) {
                    Option::None => Option::None,
                    Option::Some((st, i4)) => match parse_lit(s, i4, lit_end()) {
                        Option::None => Option::None,
                        Option::Some(i5) => match parse_ms(s, i5) {
                            Option::None => Option::None,
                            Option::Some((en, i6)) => match parse_lit(s, i6, lit_text()) {
                                Option::None => Option::None,
                                Option::Some(i7) => match parse_quoted(s, i7) {
                                    Option::None => Option::None,
                                    Option::Some((tx, i8)) => match parse_lit(s, i8, lit_words()) {
                                        Option::None => Option::None,
                                        Option::Some(i9) => match parse_words(s, i9) {
                                            Option::None => Option::None,
                                            Option::Some((ws, i10)) => match parse_lit(
                                                s,
                                                i10,
                                                lit_close(),
                                            ) {
                                                Option::None => Option::None,
                                                Option::Some(i11) => Option::Some(
                                                    (
                                                        SegmentModel {
                                                            id: id,
                                                            start_ms: st,
                                                            end_ms: en,
                                                            text: tx,
                                                            words: ws,
                                                        },
                                                        i11,
                                                    ),
                                                ),
                                            },
                                        },
                                    },
                                },
                            },
                        },
                    },
                },
            },
        },
    }
}

/// Parse the tail of a progress message, after its opening literal.
pub open spec fn parse_progress_tail(s: Seq<char>, i1: int) -> Option<MessageModel> {
    match parse_u64(s, i1) {
        Option::None => Option::None,
        Option::Some((p, i2)) => {
            if p > 100 {
                Option::None
            } else {
                match parse_lit(s, i2, lit_status()) {
                    Option::None => Option::None,
                    Option::Some(i3) => match parse_quoted(s, i3) {
                        Option::None => Option::None,
                        Option::Some((st, i4)) => match parse_lit(s, i4, lit_close()) {
                            Option::None => Option::None,
                            Option::Some(i5) => {
                                if i5 == s.len() {
                                    Option::Some(
                                        MessageModel::Progress { percent: p as u32, status: st },
                                    )
                                } else {
                                    Option::None
                                }
                            },
                        },
                    },
                }
            }
        },
    }
}

/// Parse the tail of a segment message, after its opening literal.
pub open spec fn parse_segment_tail(s: Seq<char>, i1: int) -> Option<MessageModel> {
    match parse_segment_obj(s, i1) {
        Option::None => Option::None,
        Option::Some((seg, i2)) => match parse_lit(s, i2, lit_close()) {
            Option::None => Option::None,
            Option::Some(i3) => {
                if i3 == s.len() {
                    Option::Some(MessageModel::Segment { data: seg })
                } else {
                    Option::None
                }
            },
        },
    }
}

/// Parse the tail of a completion message, after its opening literal.
pub open spec fn parse_complete_tail(s: Seq<char>, i1: int) -> Option<MessageModel> {
    match parse_quoted(s, i1) {
        Option::None => Option::None,
        Option::Some((lang, i2)) => match parse_lit(s, i2, lit_duration()) {
            Option::None => Option::None,
            Option::Some(i3) => match parse_ms(s, i3) {
                Option::None => Option::None,
                Option::Some((d, i4)) => match parse_lit(s, i4, lit_close()) {
                    Option::None => Option::None,
                    Option::Some(i5) => {
                        if i5 == s.len() {
                            Option::Some(
                                MessageModel::Complete { language: lang, duration_ms: d },
                            )
                        } else {
                            Option::None
                        }
                    },
                },
            },
        },
    }
}

/// Parse the tail of an error message, after its opening literal.
pub open spec fn parse_error_tail(s: Seq<char>, i1: int) -> Option<MessageModel> {
    match parse_quoted(s, i1) {
        Option::None => Option::None,
        Option::Some((msg, i2)) => match parse_lit(s, i2, lit_close()) {
            Option::None => Option::None,
            Option::Some(i3) => {
                if i3 == s.len() {
                    Option::Some(MessageModel::Error { message: msg })
                } else {
                    Option::None
                }
            },
        },
    }
}

/// Parse a whole message; the opening literal picks the shape, and the
/// entire string must be consumed.
pub open spec fn parse_message(s: Seq<char>) -> Option<MessageModel> {
    match parse_lit(s, 0, lit_progress()) {
        Option::Some(i1) => parse_progress_tail(s, i1),
        Option::None => match parse_lit(s, 0, lit_segment()) {
            Option::Some(i1) => parse_segment_tail(s, i1),
            Option::None => match parse_lit(s, 0, lit_complete()) {
                Option::Some(i1) => parse_complete_tail(s, i1),
                Option::None => match parse_lit(s, 0, lit_error()) {
                    Option::Some(i1) => parse_error_tail(s, i1),
                    Option::None => Option::None,
                },
            },
        },
    }
}

/// Mathematical outcome of decoding one raw line.
pub open spec fn spec_decode(s: Seq<char>) -> DecodedModel {
    let t = spec_trim(s);
    if t.len() == 0 {
        DecodedModel::Blank
    } else {
        match parse_message(t) {
            Option::Some(m) => DecodedModel::Message(m),
            Option::None => DecodedModel::Malformed,
        }
    }
}

/// Parse the body of a quoted text field at `i`, unescaping as it
/// goes, up to and including the closing quote.
fn parse_qbody_exec(s: &str, i: usize) -> (r: Option<(String, usize)>)
    requires
        i <= s@.len(),
    ensures
        (match r {
            Some((t, j)) => parse_qbody(s@, i as int) == Some((t@, j as int)) && i < j <= s@.len(),
            None => parse_qbody(s@, i as int) is None,
        }),
    decreases s@.len() - i,
{
    let n = s.unicode_len();
    let j = scan_text_exec(s, i);
    if j >= n {
        return None;
    }
    if s.get_char(j) == '"' {
        let t = s.substring_char(i, j).to_owned();
        return Some((t, j + 1));
    }
    if j + 1 < n {
        let e = s.get_char(j + 1);
        if e == '"' || e == '\\' {
            match parse_qbody_exec(s, j + 2) {
                Some((rest, k)) => {
                    let mut out = s.substring_char(i, j).to_owned();
                    out.append(s.substring_char(j + 1, j + 2));
                    out.append(rest.as_str());
                    proof {
                        assert(s@.subrange(j + 1, j + 2) =~= seq![s@[j + 1]]);
                        assert(out@ =~= s@.subrange(i as int, j as int) + seq![s@[j + 1]]
                            + rest@);
                    }
                    return Some((out, k));
                },
                None => {
                    return None;
                },
            }
        }
    }
    None
}

/// Parse a quoted text field at `i`.
fn parse_quoted_exec(s: &str, i: usize) -> (r: Option<(String, usize)>)
    requires
        i <= s@.len(),
    ensures
        (match r {
            Some((t, j)) => parse_quoted(s@, i as int) == Some((t@, j as int)) && i < j <= s@.len(),
            None => parse_quoted(s@, i as int) is None,
        }),
{
    let n = s.unicode_len();
    if i >= n || s.get_char(i) != '"' {
        return None;
    }
    parse_qbody_exec(s, i + 1)
}

/// Parse one word object at `i`.
fn parse_word_exec(s: &str, i: usize) -> (r: Option<(Word, usize)>)
    requires
        i <= s@.len(),
    ensures
        (match r {
            Some((w, j)) => parse_word_obj(s@, i as int) == Some((w@, j as int)) && i < j
                <= s@.len(),
            None => parse_word_obj(s@, i as int) is None,
        }),
{
    let i1 = match match_lit(s, i, "{\"word\":") {
        Some(v) => v,
        None => {
            return None;
        },
    };
    let (w, i2) = match parse_quoted_exec(s, i1) {
        Some(v) => v,
        None => {
            return None;
        },
    };
    let i3 = match match_lit(s, i2, ",\"start\":") {
        Some(v) => v,
        None => {
            return None;
        },
    };
    let (st, i4) = match parse_ms_exec(s, i3) {
        Some(v) => v,
        None => {
            return None;
        },
    };
    let i5 = match match_lit(s, i4, ",\"end\":") {
        Some(v) => v,
        None => {
            return None;
        },
    };
    let (en, i6) = match parse_ms_exec(s, i5) {
        Some(v) => v,
        None => {
            return None;
        },
    };
    let i7 = match match_lit(s, i6, "}") {
        Some(v) => v,
        None => {
            return None;
        },
    };
    assert(i7 > i);
    Some((Word { word: w, start_ms: st, end_ms: en }, i7))
}

/// Parse the remainder of a word list at `i`, up to and including the
/// closing bracket.
fn parse_words_exec(s: &str, i: usize) -> (r: Option<(Vec<Word>, usize)>)
    requires
        i <= s@.len(),
    ensures
        (match r {
            Some((ws, j)) => parse_words(s@, i as int) == Some(
                (ws@.map_values(|w: Word| w@), j as int),
            ) && i < j <= s@.len(),
            None => parse_words(s@, i as int) is None,
        }),
    decreases s@.len() - i,
{
    let n = s.unicode_len();
    if i < n && s.get_char(i) == ']' {
        let v: Vec<Word> = Vec::new();
        assert(v@.map_values(|w: Word| w@) =~= Seq::<WordModel>::empty());
        return Some((v, i + 1));
    }
    let (w, j) = match parse_word_exec(s, i) {
        Some(v) => v,
        None => {
            return None;
        },
    };
    if j < n && s.get_char(j) == ',' {
        let (mut ws, k) = match parse_words_exec(s, j + 1) {
            Some(v) => v,
            None => {
                return None;
            },
        };
        let ghost tail = ws@.map_values(|x: Word| x@);
        ws.insert(0, w);
        assert(ws@.map_values(|x: Word| x@) =~= seq![w@] + tail);
        Some((ws, k))
    } else if j < n && s.get_char(j) == ']' {
        let mut ws: Vec<Word> = Vec::new();
        ws.push(w);
        assert(ws@.map_values(|x: Word| x@) =~= seq![w@]);
        Some((ws, j + 1))
    } else {
        None
    }
}

/// Parse one segment object at `i`.
fn parse_segment_exec(s: &str, i: usize) -> (r: Option<(Segment, usize)>)
    requires
        i <= s@.len(),
    ensures
        (match r {
            Some((seg, j)) => parse_segment_obj(s@, i as int) == Some((seg@, j as int)) && i < j
                <= s@.len(),
            None => parse_segment_obj(s@, i as int) is None,
        }),
{
    let i1 = match match_lit(s, i, "{\"id\":") {
        Some(v) => v,
        None => {
            return None;
        },
    };
    let (id, i2) = match parse_quoted_exec(s, i1) {
        Some(v) => v,
        None => {
            return None;
        },
    };
    let i3 = match match_lit(s, i2, ",\"start\":") {
        Some(v) => v,
        None => {
            return None;
        },
    };
    let (st, i4) = match parse_ms_exec(s, i3) {
        Some(v) => v,
        None => {
            return None;
        },
    };
    let i5 = match match_lit(s, i4, ",\"end\":") {
        Some(v) => v,
        None => {
            return None;
        },
    };
    let (en, i6) = match parse_ms_exec(s, i5) {
        Some(v) => v,
        None => {
            return None;
        },
    };
    let i7 = match match_lit(s, i6, ",\"text\":") {
        Some(v) => v,
        None => {
            return None;
        },
    };
    let (tx, i8) = match parse_quoted_exec(s, i7) {
        Some(v) => v,
        None => {
            return None;
        },
    };
    let i9 = match match_lit(s, i8, ",\"words\":[") {
        Some(v) => v,
        None => {
            return None;
        },
    };
    let (ws, i10) = match parse_words_exec(s, i9) {
        Some(v) => v,
        None => {
            return None;
        },
    };
    let i11 = match match_lit(s, i10, "}") {
        Some(v) => v,
        None => {
            return None;
        },
    };
    let seg = Segment { id, start_ms: st, end_ms: en, text: tx, words: ws };
    assert(i11 > i);
    Some((seg, i11))
}

/// Parse a whole message; the entire string must be consumed.
fn parse_message_exec(s: &str) -> (r: Option<SidecarMessage>)
    ensures
        (match r {
            Some(m) => parse_message(s@) == Some(m@),
            None => parse_message(s@) is None,
        }),
{
    let n = s.unicode_len();
    if let Some(i1) = match_lit(s, 0, "{\"type\":\"progress\",\"percent\":") {
        let (p, i2) = match parse_u64_exec(s, i1) {
            Some(v) => v,
            None => {
                return None;
            },
        };
        if p > 100 {
            return None;
        }
        let i3 = match match_lit(s, i2, ",\"status\":") {
            Some(v) => v,
            None => {
                return None;
            },
        };
        let (st, i4) = match parse_quoted_exec(s, i3) {
            Some(v) => v,
            None => {
                return None;
            },
        };
        let i5 = match match_lit(s, i4, "}") {
            Some(v) => v,
            None => {
                return None;
            },
        };
        if i5 == n {
            Some(SidecarMessage::Progress { percent: p as u32, status: st })
        } else {
            None
        }
    } else if let Some(i1) = match_lit(s, 0, "{\"type\":\"segment\",\"data\":") {
        let (seg, i2) = match parse_segment_exec(s, i1) {
            Some(v) => v,
            None => {
                return None;
            },
        };
        let i3 = match match_lit(s, i2, "}") {
            Some(v) => v,
            None => {
                return None;
            },
        };
        if i3 == n {
            Some(SidecarMessage::Segment { data: seg })
        } else {
            None
        }
    } else if let Some(i1) = match_lit(s, 0, "{\"type\":\"complete\",\"language\":") {
        let (lang, i2) = match parse_quoted_exec(s, i1) {
            Some(v) => v,
            None => {
                return None;
            },
        };
        let i3 = match match_lit(s, i2, ",\"duration\":") {
            Some(v) => v,
            None => {
                return None;
            },
        };
        let (d, i4) = match parse_ms_exec(s, i3) {
            Some(v) => v,
            None => {
                return None;
            },
        };
        let i5 = match match_lit(s, i4, "}") {
            Some(v) => v,
            None => {
                return None;
            },
        };
        if i5 == n {
            Some(SidecarMessage::Complete { language: lang, duration_ms: d })
        } else {
            None
        }
    } else if let Some(i1) = match_lit(s, 0, "{\"type\":\"error\",\"message\":") {
        let (msg, i2) = match parse_quoted_exec(s, i1) {
            Some(v) => v,
            None => {
                return None;
            },
        };
        let i3 = match match_lit(s, i2, "}") {
            Some(v) => v,
            None => {
                return None;
            },
        };
        if i3 == n {
            Some(SidecarMessage::Error { message: msg })
        } else {
            None
        }
    } else {
        None
    }
}

pub(crate) fn scan_ws_exec(s: &str, i: usize) -> (j: usize)
    requires
        i <= s@.len(),
    ensures
        j == scan_ws(s@, i as int),
        i <= j <= s@.len(),
{
    let n = s.unicode_len();
    let mut cur = i;
    while cur < n && ws_at(s, cur)
        invariant
            i <= cur <= n,
            n == s@.len(),
            scan_ws(s@, i as int) == scan_ws(s@, cur as int),
        decreases n - cur,
    {
        assert(scan_ws(s@, cur as int) == scan_ws(s@, cur + 1));
        cur += 1;
    }
    assert(scan_ws(s@, cur as int) == cur);
    cur
}

/// The character at `i` is whitespace.
fn ws_at(s: &str, i: usize) -> (r: bool)
    requires
        i < s@.len(),
    ensures
        r == is_ws(s@[i as int]),
{
    let c = s.get_char(i);
    c == ' ' || c == '\t' || c == '\r' || c == '\n'
}

pub(crate) fn scan_ws_rev_exec(s: &str, j: usize) -> (k: usize)
    requires
        j <= s@.len(),
    ensures
        k == scan_ws_rev(s@, j as int),
        k <= j,
{
    let mut cur = j;
    while cur > 0 && ws_at(s, cur - 1)
        invariant
            cur <= j <= s@.len(),
            scan_ws_rev(s@, j as int) == scan_ws_rev(s@, cur as int),
        decreases cur,
    {
        assert(scan_ws_rev(s@, cur as int) == scan_ws_rev(s@, cur - 1));
        cur -= 1;
    }
    assert(scan_ws_rev(s@, cur as int) == cur);
    cur
}

// ------------------------------------------------------------------
// Encoding (specification)
// ------------------------------------------------------------------

/// The character of a decimal digit value.
pub open spec fn digit_char(d: int) -> char {
    if d == 0 {
        '0'
    } else if d == 1 {
        '1'
    } else if d == 2 {
        '2'
    } else if d == 3 {
        '3'
    } else if d == 4 {
        '4'
    } else if d == 5 {
        '5'
    } else if d == 6 {
        '6'
    } else if d == 7 {
        '7'
    } else if d == 8 {
        '8'
    } else {
        '9'
    }
}

/// Decimal rendering of a non-negative integer.
pub open spec fn enc_dec(n: int) -> Seq<char>
    decreases n,
{
    if n < 10 {
        seq![digit_char(n)]
    } else {
        enc_dec(n / 10) + seq![digit_char(n % 10)]
    }
}

/// Canonical rendering of a millisecond count as seconds with three
/// fraction digits.
pub open spec fn enc_ms(ms: u64) -> Seq<char> {
    enc_dec(ms as int / 1000) + seq!['.'] + seq![
        digit_char((ms as int % 1000) / 100),
        digit_char((ms as int % 100) / 10),
        digit_char(ms as int % 10),
    ]
}

/// The escaped form of one character inside a quoted field.
pub open spec fn esc_char(c: char) -> Seq<char> {
    if c == '"' {
        seq!['\\', '"']
    } else if c == '\\' {
        seq!['\\', '\\']
    } else {
        seq![c]
    }
}

/// The escaped form of a text: every quote and backslash prefixed
/// with a backslash, everything else as it is.
pub open spec fn esc(t: Seq<char>) -> Seq<char>
    decreases t.len(),
{
    if t.len() == 0 {
        Seq::empty()
    } else {
        esc_char(t[0]) + esc(t.subrange(1, t.len() as int))
    }
}

/// A text field between quotes, escaped.
pub open spec fn enc_quoted(t: Seq<char>) -> Seq<char> {
    seq!['"'] + esc(t) + seq!['"']
}

/// Canonical rendering of one word object.
pub open spec fn enc_word(w: WordModel) -> Seq<char> {
    lit_word() + enc_quoted(w.word) + lit_start() + enc_ms(w.start_ms) + lit_end() + enc_ms(
        w.end_ms,
    ) + lit_close()
}

/// The word objects of a list, separated by commas.
pub open spec fn enc_words_items(ws: Seq<WordModel>) -> Seq<char>
    decreases ws.len(),
{
    if ws.len() == 0 {
        Seq::empty()
    } else if ws.len() == 1 {
        enc_word(ws[0])
    } else {
        enc_word(ws[0]) + seq![','] + enc_words_items(ws.subrange(1, ws.len() as int))
    }
}

/// Canonical rendering of one segment object.
pub open spec fn enc_segment(seg: SegmentModel) -> Seq<char> {
    lit_seg_id() + enc_quoted(seg.id) + lit_start() + enc_ms(seg.start_ms) + lit_end() + enc_ms(
        seg.end_ms,
    ) + lit_text() + enc_quoted(seg.text) + lit_words() + enc_words_items(seg.words) + seq![']']
        + lit_close()
}

/// Canonical rendering of a whole message.
pub open spec fn spec_encode(m: MessageModel) -> Seq<char> {
    match m {
        MessageModel::Progress { percent, status } => lit_progress() + enc_dec(percent as int)
            + lit_status() + enc_quoted(status) + lit_close(),
        MessageModel::Segment { data } => lit_segment() + enc_segment(data) + lit_close(),
        MessageModel::Complete { language, duration_ms } => lit_complete() + enc_quoted(language)
            + lit_duration() + enc_ms(duration_ms) + lit_close(),
        MessageModel::Error { message } => lit_error() + enc_quoted(message) + lit_close(),
    }
}

// ------------------------------------------------------------------
// Encoding (executable)
// ------------------------------------------------------------------

/// The one-character text of a digit value.
pub(crate) fn digit_str(d: u64) -> (r: &'static str)
    requires
        d < 10,
    ensures
        r@ == seq![digit_char(d as int)],
{
    match d {
        0 => {
            proof {
                reveal_strlit("0");
                assert("0"@ =~= seq![digit_char(0)]);
            }
            "0"
        },
        1 => {
            proof {
                reveal_strlit("1");
                assert("1"@ =~= seq![digit_char(1)]);
            }
            "1"
        },
        2 => {
            proof {
                reveal_strlit("2");
                assert("2"@ =~= seq![digit_char(2)]);
            }
            "2"
        },
        3 => {
            proof {
                reveal_strlit("3");
                assert("3"@ =~= seq![digit_char(3)]);
            }
            "3"
        },
        4 => {
            proof {
                reveal_strlit("4");
                assert("4"@ =~= seq![digit_char(4)]);
            }
            "4"
        },
        5 => {
            proof {
                reveal_strlit("5");
                assert("5"@ =~= seq![digit_char(5)]);
            }
            "5"
        },
        6 => {
            proof {
                reveal_strlit("6");
                assert("6"@ =~= seq![digit_char(6)]);
            }
            "6"
        },
        7 => {
            proof {
                reveal_strlit("7");
                assert("7"@ =~= seq![digit_char(7)]);
            }
            "7"
        },
        8 => {
            proof {
                reveal_strlit("8");
                assert("8"@ =~= seq![digit_char(8)]);
            }
            "8"
        },
        _ => {
            proof {
                reveal_strlit("9");
                assert("9"@ =~= seq![digit_char(9)]);
            }
            "9"
        },
    }
}

/// Decimal rendering of an integer.
pub fn u64_to_string(n: u64) -> (r: String)
    ensures
        r@ == enc_dec(n as int),
    decreases n,
{
    if n < 10 {
        digit_str(n).to_owned()
    } else {
        let mut s = u64_to_string(n / 10);
        s.append(digit_str(n % 10));
        assert(s@ =~= enc_dec(n as int));
        s
    }
}

/// Decimal rendering of a 128-bit integer.
pub fn u128_to_string(n: u128) -> (r: String)
    ensures
        r@ == enc_dec(n as int),
    decreases n,
{
    if n < 10 {
        digit_str(n as u64).to_owned()
    } else {
        let mut s = u128_to_string(n / 10);
        s.append(digit_str((n % 10) as u64));
        assert(s@ =~= enc_dec(n as int));
        s
    }
}

/// Decimal rendering of a possibly negative integer.
pub open spec fn enc_int(n: int) -> Seq<char> {
    if n < 0 {
        seq!['-'] + enc_dec(-n)
    } else {
        enc_dec(n)
    }
}

/// Decimal rendering of a signed 32-bit integer.
pub fn i32_to_string(n: i32) -> (r: String)
    ensures
        r@ == enc_int(n as int),
{
    if n < 0 {
        let mag: u64 = (-(n as i64)) as u64;
        let mut s = String::from_str("-");
        s.append(u64_to_string(mag).as_str());
        proof {
            reveal_strlit("-");
            assert(s@ =~= enc_int(n as int));
        }
        s
    } else {
        u64_to_string(n as u64)
    }
}

/// Rendering of a millisecond count as seconds with three fraction
/// digits.
pub fn ms_to_string(ms: u64) -> (r: String)
    ensures
        r@ == enc_ms(ms),
{
    let mut s = u64_to_string(ms / 1000);
    s.append(".");
    let f = ms % 1000;
    s.append(digit_str(f / 100));
    s.append(digit_str((ms % 100) / 10));
    s.append(digit_str(ms % 10));
    proof {
        reveal_strlit(".");
        assert(s@ =~= enc_ms(ms));
    }
    s
}

/// Escaping one more character appends its escaped form.
proof fn lemma_esc_snoc(u: Seq<char>, c: char)
    ensures
        esc(u.push(c)) == esc(u) + esc_char(c),
    decreases u.len(),
{
    if u.len() == 0 {
        assert(u.push(c)[0] == c);
        assert(u.push(c).subrange(1, 1) =~= Seq::<char>::empty());
        assert(esc(Seq::<char>::empty()) =~= Seq::<char>::empty());
        assert(esc(u.push(c)) == esc_char(c) + esc(u.push(c).subrange(1, 1)));
        assert(esc(u.push(c)) =~= esc_char(c));
        assert(esc(u) + esc_char(c) =~= esc_char(c));
    } else {
        assert(u.push(c)[0] == u[0]);
        assert(u.push(c).subrange(1, u.len() as int + 1) =~= u.subrange(1, u.len() as int).push(c));
        lemma_esc_snoc(u.subrange(1, u.len() as int), c);
        assert(esc(u.push(c)) =~= esc(u) + esc_char(c));
    }
}

/// Escape a text for a quoted field.
pub(crate) fn escape_text(t: &str) -> (r: String)
    ensures
        r@ == esc(t@),
{
    let n = t.unicode_len();
    let mut out = String::new();
    let mut i: usize = 0;
    proof {
        assert(t@.subrange(0, 0) =~= Seq::<char>::empty());
        assert(out@ =~= esc(t@.subrange(0, 0)));
    }
    while i < n
        invariant
            i <= n,
            n == t@.len(),
            out@ == esc(t@.subrange(0, i as int)),
        decreases n - i,
    {
        let c = t.get_char(i);
        if c == '"' {
            out.append("\\\"");
            proof {
                reveal_strlit("\\\"");
            }
        } else if c == '\\' {
            out.append("\\\\");
            proof {
                reveal_strlit("\\\\");
            }
        } else {
            out.append(t.substring_char(i, i + 1));
        }
        proof {
            lemma_esc_snoc(t@.subrange(0, i as int), t@[i as int]);
            assert(t@.subrange(0, i + 1) =~= t@.subrange(0, i as int).push(t@[i as int]));
            assert(t@.subrange(i as int, i + 1) =~= seq![t@[i as int]]);
            assert(out@ =~= esc(t@.subrange(0, i + 1)));
        }
        i += 1;
    }
    assert(t@.subrange(0, n as int) =~= t@);
    out
}

/// Encode one word object.
fn encode_word(w: &Word) -> (r: String)
    ensures
        r@ == enc_word(w@),
{
    let mut s = String::from_str("{\"word\":\"");
    s.append(escape_text(w.word.as_str()).as_str());
    s.append("\",\"start\":");
    s.append(ms_to_string(w.start_ms).as_str());
    s.append(",\"end\":");
    s.append(ms_to_string(w.end_ms).as_str());
    s.append("}");
    proof {
        reveal_strlit("{\"word\":\"");
        reveal_strlit("\",\"start\":");
        reveal_strlit("{\"word\":");
        reveal_strlit("\"");
        reveal_strlit(",\"start\":");
        assert(s@ =~= enc_word(w@));
    }
    s
}

/// Encode the word objects from index `i` on, separated by commas.
fn encode_words_from(ws: &Vec<Word>, i: usize) -> (r: String)
    requires
        i <= ws@.len(),
    ensures
        r@ == enc_words_items(ws@.map_values(|w: Word| w@).subrange(i as int, ws@.len() as int)),
    decreases ws@.len() - i,
{
    let ghost full = ws@.map_values(|w: Word| w@);
    if i == ws.len() {
        let s = String::new();
        assert(s@ =~= enc_words_items(full.subrange(i as int, ws@.len() as int)));
        s
    } else {
        let mut s = encode_word(&ws[i]);
        let ghost part = full.subrange(i as int, ws@.len() as int);
        assert(part[0] == ws@[i as int]@);
        if i + 1 < ws.len() {
            s.append(",");
            let rest = encode_words_from(ws, i + 1);
            s.append(rest.as_str());
            proof {
                reveal_strlit(",");
                assert(part.subrange(1, part.len() as int) =~= full.subrange(
                    i + 1,
                    ws@.len() as int,
                ));
                assert(s@ =~= enc_words_items(part));
            }
        } else {
            assert(part.len() == 1);
            assert(s@ =~= enc_words_items(part));
        }
        s
    }
}

/// Encode one segment object.
pub fn encode_segment(seg: &Segment) -> (r: String)
    ensures
        r@ == enc_segment(seg@),
{
    let mut s = String::from_str("{\"id\":\"");
    s.append(escape_text(seg.id.as_str()).as_str());
    s.append("\",\"start\":");
    s.append(ms_to_string(seg.start_ms).as_str());
    s.append(",\"end\":");
    s.append(ms_to_string(seg.end_ms).as_str());
    s.append(",\"text\":\"");
    s.append(escape_text(seg.text.as_str()).as_str());
    s.append("\",\"words\":[");
    s.append(encode_words_from(&seg.words, 0).as_str());
    s.append("]}");
    proof {
        reveal_strlit("{\"id\":\"");
        reveal_strlit("\",\"start\":");
        reveal_strlit(",\"text\":\"");
        reveal_strlit("\",\"words\":[");
        reveal_strlit("]}");
        reveal_strlit("{\"id\":");
        reveal_strlit("\"");
        reveal_strlit(",\"start\":");
        reveal_strlit(",\"text\":");
        reveal_strlit(",\"words\":[");
        reveal_strlit("]");
        reveal_strlit("}");
        assert(seg@.words =~= seg.words@.map_values(|w: Word| w@).subrange(
            0,
            seg.words@.len() as int,
        ));
        assert(s@ =~= enc_segment(seg@));
    }
    s
}

/// Encode a message in its canonical wire form, one line of text.
pub fn encode_message(m: &SidecarMessage) -> (r: String)
    ensures
        r@ == spec_encode(m@),
{
    match m {
        SidecarMessage::Progress { percent, status } => {
            let mut s = String::from_str("{\"type\":\"progress\",\"percent\":");
            s.append(u64_to_string(*percent as u64).as_str());
            s.append(",\"status\":\"");
            s.append(escape_text(status.as_str()).as_str());
            s.append("\"}");
            proof {
                reveal_strlit(",\"status\":\"");
                reveal_strlit("\"}");
                reveal_strlit(",\"status\":");
                reveal_strlit("\"");
                reveal_strlit("}");
                assert(s@ =~= spec_encode(m@));
            }
            s
        },
        SidecarMessage::Segment { data } => {
            let mut s = String::from_str("{\"type\":\"segment\",\"data\":");
            s.append(encode_segment(data).as_str());
            s.append("}");
            proof {
                assert(s@ =~= spec_encode(m@));
            }
            s
        },
        SidecarMessage::Complete { language, duration_ms } => {
            let mut s = String::from_str("{\"type\":\"complete\",\"language\":\"");
            s.append(escape_text(language.as_str()).as_str());
            s.append("\",\"duration\":");
            s.append(ms_to_string(*duration_ms).as_str());
            s.append("}");
            proof {
                reveal_strlit("{\"type\":\"complete\",\"language\":\"");
                reveal_strlit("\",\"duration\":");
                reveal_strlit("{\"type\":\"complete\",\"language\":");
                reveal_strlit("\"");
                reveal_strlit(",\"duration\":");
                assert(s@ =~= spec_encode(m@));
            }
            s
        },
        SidecarMessage::Error { message } => {
            let mut s = String::from_str("{\"type\":\"error\",\"message\":\"");
            s.append(escape_text(message.as_str()).as_str());
            s.append("\"}");
            proof {
                reveal_strlit("{\"type\":\"error\",\"message\":\"");
                reveal_strlit("\"}");
                reveal_strlit("{\"type\":\"error\",\"message\":");
                reveal_strlit("\"");
                reveal_strlit("}");
                assert(s@ =~= spec_encode(m@));
            }
            s
        },
    }
}

/// Decode one raw line of worker output.
///
/// Whitespace-only lines are blank; anything else must be the
/// canonical compact rendering of one of the four message shapes, and
/// every deviation is reported as malformed rather than an error of
/// the caller.
pub fn decode_line(line: &str) -> (r: Decoded)
    ensures
        r@ == spec_decode(line@),
{
    let n = line.unicode_len();
    let a = scan_ws_exec(line, 0);
    let b = scan_ws_rev_exec(line, n);
    if a >= b {
        proof {
            if a > b {
                assert(spec_trim(line@) == Seq::<char>::empty());
            } else {
                assert(spec_trim(line@) =~= line@.subrange(a as int, b as int));
            }
        }
        return Decoded::Blank;
    }
    let t = line.substring_char(a, b);
    assert(t@ == spec_trim(line@));
    match parse_message_exec(t) {
        Some(m) => Decoded::Message(m),
        None => Decoded::Malformed,
    }
}

// ------------------------------------------------------------------
// Round trip: decoding a canonical encoding gives the message back
// ------------------------------------------------------------------

/// Millisecond values whose canonical rendering the decoder accepts.
/// Larger values — beyond half a billion years — would overflow the
/// decoder's 64-bit millisecond arithmetic.
pub open spec fn ms_encodable(ms: u64) -> bool {
    ms <= 18_446_744_073_709_550_999
}

/// A word that the canonical encoding can carry: its times within the
/// decoder's range.
pub open spec fn word_wire_valid(w: WordModel) -> bool {
    ms_encodable(w.start_ms) && ms_encodable(w.end_ms)
}

/// A segment that the canonical encoding can carry.
pub open spec fn segment_wire_valid(seg: SegmentModel) -> bool {
    &&& ms_encodable(seg.start_ms)
    &&& ms_encodable(seg.end_ms)
    &&& forall|k: int| 0 <= k < seg.words.len() ==> word_wire_valid(#[trigger] seg.words[k])
}

/// A message that the canonical encoding can carry: percent within
/// its bounds and millisecond values within the decoder's range.
/// Text fields carry any characters — the codec escapes for them.
pub open spec fn message_wire_valid(m: MessageModel) -> bool {
    match m {
        MessageModel::Progress { percent, status: _ } => percent <= 100,
        MessageModel::Segment { data } => segment_wire_valid(data),
        MessageModel::Complete { language: _, duration_ms } => ms_encodable(duration_ms),
        MessageModel::Error { message: _ } => true,
    }
}

proof fn lemma_scan_digits_exact(s: Seq<char>, i: int, j: int)
    requires
        0 <= i <= j <= s.len(),
        all_digits(s, i, j),
        j == s.len() || !is_digit(s[j]),
    ensures
        scan_digits(s, i) == j,
    decreases j - i,
{
    if i < j {
        lemma_scan_digits_exact(s, i + 1, j);
    }
}

/// A plain character at the head of a quoted body joins the parse of
/// the rest.
proof fn lemma_qbody_step_plain(s: Seq<char>, i: int)
    requires
        0 <= i < s.len(),
        text_ok(s[i]),
    ensures
        parse_qbody(s, i) == (match parse_qbody(s, i + 1) {
            Option::None => Option::None::<(Seq<char>, int)>,
            Option::Some((u, k)) => Option::Some((seq![s[i]] + u, k)),
        }),
{
    assert(scan_text(s, i) == scan_text(s, i + 1));
    lemma_scan_text_bounds(s, i + 1);
    let j = scan_text(s, i + 1);
    if j < s.len() {
        if s[j] == '"' {
            assert(s.subrange(i, j) =~= seq![s[i]] + s.subrange(i + 1, j));
        } else if j + 1 < s.len() && (s[j + 1] == '"' || s[j + 1] == '\\') {
            match parse_qbody(s, j + 2) {
                Option::None => {},
                Option::Some((t, k)) => {
                    assert(s.subrange(i, j) + seq![s[j + 1]] + t =~= seq![s[i]] + (s.subrange(
                        i + 1,
                        j,
                    ) + seq![s[j + 1]] + t));
                },
            }
        }
    }
}

/// A rendered quoted body parses back to its text where assembled.
proof fn lemma_parse_qbody_at(s: Seq<char>, pre: Seq<char>, t: Seq<char>, rest: Seq<char>)
    requires
        s == pre + esc(t) + seq!['"'] + rest,
    ensures
        parse_qbody(s, pre.len() as int) == Some((t, (pre.len() + esc(t).len() + 1) as int)),
    decreases t.len(),
{
    let i = pre.len() as int;
    if t.len() == 0 {
        assert(esc(t) =~= Seq::<char>::empty());
        assert(s[i] == '"');
        assert(scan_text(s, i) == i);
        assert(s.subrange(i, i) =~= t);
    } else {
        let c = t[0];
        let tail = t.subrange(1, t.len() as int);
        assert(esc(t) == esc_char(c) + esc(tail));
        if c == '"' || c == '\\' {
            assert(esc_char(c) =~= seq!['\\', c]);
            assert(s[i] == '\\');
            assert(scan_text(s, i) == i);
            assert(s[i + 1] == c);
            let pre2 = pre + seq!['\\', c];
            assert(s =~= pre2 + esc(tail) + seq!['"'] + rest);
            lemma_parse_qbody_at(s, pre2, tail, rest);
            assert(s.subrange(i, i) =~= Seq::<char>::empty());
            assert(Seq::<char>::empty() + seq![c] + tail =~= t);
        } else {
            assert(esc_char(c) =~= seq![c]);
            assert(s[i] == c);
            let pre2 = pre + seq![c];
            assert(s =~= pre2 + esc(tail) + seq!['"'] + rest);
            lemma_parse_qbody_at(s, pre2, tail, rest);
            lemma_qbody_step_plain(s, i);
            assert(seq![c] + tail =~= t);
        }
    }
}

/// The value of a digit run depends only on the characters in it.
proof fn lemma_digits_val_shift(s: Seq<char>, e: Seq<char>, i: int, j: int)
    requires
        0 <= j <= e.len(),
        forall|k: int| 0 <= k < e.len() ==> s[i + k] == e[k],
    ensures
        digits_val(s, i, i + j) == digits_val(e, 0, j),
    decreases j,
{
    if j > 0 {
        lemma_digits_val_shift(s, e, i, j - 1);
        assert(s[i + (j - 1)] == e[j - 1]);
    }
}

/// A digit's character holds its value.
proof fn lemma_digit_char_val(d: int)
    requires
        0 <= d < 10,
    ensures
        is_digit(digit_char(d)),
        digit_val(digit_char(d)) == d,
{
}

/// The decimal rendering of `n` is a digit run holding the value `n`.
proof fn lemma_enc_dec_props(n: int)
    requires
        n >= 0,
    ensures
        enc_dec(n).len() >= 1,
        all_digits(enc_dec(n), 0, enc_dec(n).len() as int),
        digits_val(enc_dec(n), 0, enc_dec(n).len() as int) == n,
    decreases n,
{
    if n < 10 {
        lemma_digit_char_val(n);
        let e = enc_dec(n);
        assert(e == seq![digit_char(n)]);
        assert(digits_val(e, 0, 0) == 0);
        assert(digits_val(e, 0, 1) == digits_val(e, 0, 0) * 10 + digit_val(e[0]));
    } else {
        lemma_enc_dec_props(n / 10);
        lemma_digit_char_val(n % 10);
        let p = enc_dec(n / 10);
        let e = enc_dec(n);
        assert(e == p + seq![digit_char(n % 10)]);
        assert(forall|k: int| 0 <= k < p.len() ==> e[k] == p[k]);
        lemma_digits_val_shift(e, p, 0, p.len() as int);
        assert(digits_val(e, 0, e.len() as int) == digits_val(e, 0, e.len() - 1) * 10 + digit_val(
            e[e.len() - 1],
        ));
        assert(e[e.len() - 1] == digit_char(n % 10));
        vstd::arithmetic::div_mod::lemma_fundamental_div_mod(n, 10);
    }
}

/// A literal parses where the text was assembled around it.
proof fn lemma_parse_lit_at(s: Seq<char>, pre: Seq<char>, lit: Seq<char>, rest: Seq<char>)
    requires
        s == pre + lit + rest,
    ensures
        parse_lit(s, pre.len() as int, lit) == Some((pre.len() + lit.len()) as int),
{
    assert(s.subrange(pre.len() as int, (pre.len() + lit.len()) as int) =~= lit);
}

/// A rendered integer parses back to its value where assembled.
proof fn lemma_parse_u64_at(s: Seq<char>, pre: Seq<char>, n: u64, rest: Seq<char>)
    requires
        s == pre + enc_dec(n as int) + rest,
        rest.len() > 0,
        !is_digit(rest[0]),
    ensures
        parse_u64(s, pre.len() as int) == Some((n, (pre.len() + enc_dec(n as int).len()) as int)),
{
    let e = enc_dec(n as int);
    let i = pre.len() as int;
    let j = i + e.len();
    lemma_enc_dec_props(n as int);
    assert(forall|k: int| 0 <= k < e.len() ==> s[i + k] == e[k]);
    assert(all_digits(s, i, j));
    assert(s[j] == rest[0]);
    lemma_scan_digits_exact(s, i, j);
    lemma_digits_val_shift(s, e, i, e.len() as int);
}

/// A rendered millisecond count parses back to its value where
/// assembled, provided what follows starts with neither digit nor dot.
proof fn lemma_parse_ms_at(s: Seq<char>, pre: Seq<char>, ms: u64, rest: Seq<char>)
    requires
        s == pre + enc_ms(ms) + rest,
        rest.len() > 0,
        !is_digit(rest[0]),
        rest[0] != '.',
        ms_encodable(ms),
    ensures
        parse_ms(s, pre.len() as int) == Some((ms, (pre.len() + enc_ms(ms).len()) as int)),
{
    let w = ms / 1000;
    let e = enc_dec(w as int);
    let i = pre.len() as int;
    let j = i + e.len();
    let f = ms as int % 1000;
    let d1 = digit_char(f / 100);
    let d2 = digit_char((ms as int % 100) / 10);
    let d3 = digit_char(ms as int % 10);
    let tail = seq!['.'] + seq![d1, d2, d3] + rest;
    assert(s =~= pre + e + tail);
    lemma_parse_u64_at(s, pre, w, tail);
    assert(w <= max_whole_seconds());
    assert(s[j] == '.');
    lemma_digit_char_val(f / 100);
    lemma_digit_char_val((ms as int % 100) / 10);
    lemma_digit_char_val(ms as int % 10);
    assert(s[j + 1] == d1);
    assert(s[j + 2] == d2);
    assert(s[j + 3] == d3);
    assert(s[j + 4] == rest[0]);
    assert(all_digits(s, j + 1, j + 4));
    lemma_scan_digits_exact(s, j + 1, j + 4);
    let frac = digits_val(s, j + 1, j + 4);
    assert(digits_val(s, j + 1, j + 1) == 0);
    assert(digits_val(s, j + 1, j + 2) == digit_val(d1));
    assert(digits_val(s, j + 1, j + 3) == digit_val(d1) * 10 + digit_val(d2));
    assert(frac == (digit_val(d1) * 10 + digit_val(d2)) * 10 + digit_val(d3));
    assert(frac == (f / 100) * 100 + ((ms as int % 100) / 10) * 10 + ms as int % 10);
    lemma_frac_digits(ms);
    assert(frac == f);
    vstd::arithmetic::div_mod::lemma_fundamental_div_mod(ms as int, 1000);
    assert((w * 1000) as int + frac * frac_scale(3) == ms);
}

/// The three fraction digits of the canonical rendering recombine to
/// the millisecond remainder.
proof fn lemma_frac_digits(ms: u64)
    ensures
        (ms as int % 1000) / 100 * 100 + ((ms as int % 100) / 10) * 10 + ms as int % 10 == ms as int
            % 1000,
{
    let x = ms as int;
    vstd::arithmetic::div_mod::lemma_mod_mod(x, 100, 10);
    vstd::arithmetic::div_mod::lemma_mod_mod(x, 10, 10);
    vstd::arithmetic::div_mod::lemma_mod_mod(x, 100, 10);
    assert(x % 1000 % 100 == x % 100) by {
        vstd::arithmetic::div_mod::lemma_mod_mod(x, 100, 10);
    }
    vstd::arithmetic::div_mod::lemma_fundamental_div_mod(x % 1000, 100);
    vstd::arithmetic::div_mod::lemma_fundamental_div_mod(x % 100, 10);
    assert(x % 100 % 10 == x % 10) by {
        vstd::arithmetic::div_mod::lemma_mod_mod(x, 10, 10);
    }
}

/// A quoted text field parses back to its text where assembled.
proof fn lemma_parse_quoted_at(s: Seq<char>, pre: Seq<char>, t: Seq<char>, rest: Seq<char>)
    requires
        s == pre + enc_quoted(t) + rest,
    ensures
        parse_quoted(s, pre.len() as int) == Some((t, (pre.len() + esc(t).len() + 2) as int)),
{
    let i = pre.len() as int;
    assert(s[i] == '"');
    assert(s =~= (pre + seq!['"']) + esc(t) + seq!['"'] + rest);
    lemma_parse_qbody_at(s, pre + seq!['"'], t, rest);
}

/// A rendered word object parses back to its word where assembled.
#[verifier::rlimit(100)]
#[verifier::spinoff_prover]
proof fn lemma_parse_word_at(s: Seq<char>, pre: Seq<char>, w: WordModel, rest: Seq<char>)
    requires
        s == pre + enc_word(w) + rest,
        word_wire_valid(w),
    ensures
        parse_word_obj(s, pre.len() as int) == Some((w, (pre.len() + enc_word(w).len()) as int)),
{
    reveal_strlit("{\"word\":");
    reveal_strlit(",\"start\":");
    reveal_strlit(",\"end\":");
    reveal_strlit("}");
    let a = lit_word();
    let q = enc_quoted(w.word);
    let b = lit_start();
    let m1 = enc_ms(w.start_ms);
    let c = lit_end();
    let m2 = enc_ms(w.end_ms);
    let d = lit_close();
    assert(s =~= pre + a + (q + b + m1 + c + m2 + d + rest));
    lemma_parse_lit_at(s, pre, a, q + b + m1 + c + m2 + d + rest);
    assert(s =~= (pre + a) + q + (b + m1 + c + m2 + d + rest));
    lemma_parse_quoted_at(s, pre + a, w.word, b + m1 + c + m2 + d + rest);
    assert(s =~= (pre + a + q) + b + (m1 + c + m2 + d + rest));
    lemma_parse_lit_at(s, pre + a + q, b, m1 + c + m2 + d + rest);
    assert(s =~= (pre + a + q + b) + m1 + (c + m2 + d + rest));
    assert((c + m2 + d + rest)[0] == ',');
    lemma_parse_ms_at(s, pre + a + q + b, w.start_ms, c + m2 + d + rest);
    assert(s =~= (pre + a + q + b + m1) + c + (m2 + d + rest));
    lemma_parse_lit_at(s, pre + a + q + b + m1, c, m2 + d + rest);
    assert(s =~= (pre + a + q + b + m1 + c) + m2 + (d + rest));
    assert((d + rest)[0] == '}');
    lemma_parse_ms_at(s, pre + a + q + b + m1 + c, w.end_ms, d + rest);
    assert(s =~= (pre + a + q + b + m1 + c + m2) + d + rest);
    lemma_parse_lit_at(s, pre + a + q + b + m1 + c + m2, d, rest);
    assert(WordModel { word: w.word, start_ms: w.start_ms, end_ms: w.end_ms } == w);
}

/// A word list of one element parses where assembled.
#[verifier::rlimit(100)]
#[verifier::spinoff_prover]
proof fn lemma_words_one(s: Seq<char>, pre: Seq<char>, ws: Seq<WordModel>, rest: Seq<char>)
    requires
        ws.len() == 1,
        s == pre + enc_words_items(ws) + seq![']'] + rest,
        word_wire_valid(ws[0]),
    ensures
        parse_words(s, pre.len() as int) == Some(
            (ws, (pre.len() + enc_words_items(ws).len() + 1) as int),
        ),
{
    reveal_strlit("{\"word\":");
    let w = ws[0];
    assert(enc_words_items(ws) == enc_word(w));
    let i = pre.len() as int;
    assert(enc_word(w)[0] == '{');
    assert(s[i] == '{');
    assert(s =~= pre + enc_word(w) + (seq![']'] + rest));
    lemma_parse_word_at(s, pre, w, seq![']'] + rest);
    let j = i + enc_word(w).len();
    assert(s[j] == ']');
    assert(seq![w] =~= ws);
}

/// Splitting the rendering of a list of two or more words after its
/// first word object.
#[verifier::rlimit(100)]
#[verifier::spinoff_prover]
proof fn lemma_word_head_shape(s: Seq<char>, pre: Seq<char>, ws: Seq<WordModel>, rest: Seq<char>)
    requires
        ws.len() >= 2,
        s == pre + enc_words_items(ws) + seq![']'] + rest,
    ensures
        s == pre + enc_word(ws[0]) + (seq![','] + enc_words_items(ws.subrange(1, ws.len() as int))
            + seq![']'] + rest),
{
    let tail = ws.subrange(1, ws.len() as int);
    assert(enc_words_items(ws) == enc_word(ws[0]) + seq![','] + enc_words_items(tail));
    assert(s =~= pre + enc_word(ws[0]) + (seq![','] + enc_words_items(tail) + seq![']'] + rest));
}

/// A word followed by a comma and an already-parsed remainder parses
/// as the whole list.
#[verifier::rlimit(100)]
#[verifier::spinoff_prover]
proof fn lemma_words_cons(s: Seq<char>, pre: Seq<char>, ws: Seq<WordModel>, rest: Seq<char>)
    requires
        ws.len() >= 2,
        s == pre + enc_words_items(ws) + seq![']'] + rest,
        word_wire_valid(ws[0]),
        parse_words(s, (pre.len() + enc_word(ws[0]).len() + 1) as int) == Some(
            (
                ws.subrange(1, ws.len() as int),
                (pre.len() + enc_words_items(ws).len() + 1) as int,
            ),
        ),
    ensures
        parse_words(s, pre.len() as int) == Some(
            (ws, (pre.len() + enc_words_items(ws).len() + 1) as int),
        ),
{
    reveal_strlit("{\"word\":");
    let w = ws[0];
    let tail = ws.subrange(1, ws.len() as int);
    let i = pre.len() as int;
    lemma_word_head_shape(s, pre, ws, rest);
    assert(enc_word(w)[0] == '{');
    assert(s[i] == '{');
    lemma_parse_word_at(s, pre, w, seq![','] + enc_words_items(tail) + seq![']'] + rest);
    let j = i + enc_word(w).len();
    assert(s[j] == ',');
    assert(seq![w] + tail =~= ws);
}

/// Splitting the rendering of a list/// Splitting the rendering of a list of two or more words around its
/// first comma.
#[verifier::rlimit(100)]
#[verifier::spinoff_prover]
proof fn lemma_items_cons_shape(s: Seq<char>, pre: Seq<char>, ws: Seq<WordModel>, rest: Seq<char>)
    requires
        ws.len() >= 2,
        s == pre + enc_words_items(ws) + seq![']'] + rest,
    ensures
        s == (pre + enc_word(ws[0]) + seq![',']) + enc_words_items(
            ws.subrange(1, ws.len() as int),
        ) + seq![']'] + rest,
{
    let tail = ws.subrange(1, ws.len() as int);
    assert(enc_words_items(ws) == enc_word(ws[0]) + seq![','] + enc_words_items(tail));
    assert(s =~= (pre + enc_word(ws[0]) + seq![',']) + enc_words_items(tail) + seq![']'] + rest);
}

/// A rendered word list parses back to its words where assembled.
#[verifier::rlimit(100)]
#[verifier::spinoff_prover]
proof fn lemma_parse_words_at(s: Seq<char>, pre: Seq<char>, ws: Seq<WordModel>, rest: Seq<char>)
    requires
        s == pre + enc_words_items(ws) + seq![']'] + rest,
        forall|k: int| 0 <= k < ws.len() ==> word_wire_valid(#[trigger] ws[k]),
    ensures
        parse_words(s, pre.len() as int) == Some(
            (ws, (pre.len() + enc_words_items(ws).len() + 1) as int),
        ),
    decreases ws.len(),
{
    let i = pre.len() as int;
    if ws.len() == 0 {
        assert(s =~= pre + seq![']'] + rest);
        assert(s[i] == ']');
        assert(Seq::<WordModel>::empty() =~= ws);
    } else if ws.len() == 1 {
        lemma_words_one(s, pre, ws, rest);
    } else {
        let tail = ws.subrange(1, ws.len() as int);
        let pre2 = pre + enc_word(ws[0]) + seq![','];
        lemma_items_cons_shape(s, pre, ws, rest);
        assert(forall|k: int| 0 <= k < tail.len() ==> word_wire_valid(#[trigger] tail[k]));
        lemma_parse_words_at(s, pre2, tail, rest);
        assert(enc_words_items(ws) == enc_word(ws[0]) + seq![','] + enc_words_items(tail));
        lemma_words_cons(s, pre, ws, rest);
    }
}

/// First half of a rendered segment object: id and timing fields parse
/// where assembled.
#[verifier::rlimit(100)]
#[verifier::spinoff_prover]
proof fn lemma_seg_steps_a(s: Seq<char>, pre: Seq<char>, seg: SegmentModel, rest: Seq<char>)
    requires
        s == pre + enc_segment(seg) + rest,
        segment_wire_valid(seg),
    ensures
        ({
            let i = pre.len() as int;
            let o1 = i + lit_seg_id().len();
            let o2 = o1 + esc(seg.id).len() + 2;
            let o3 = o2 + lit_start().len();
            let o4 = o3 + enc_ms(seg.start_ms).len();
            let o5 = o4 + lit_end().len();
            let o6 = o5 + enc_ms(seg.end_ms).len();
            &&& parse_lit(s, i, lit_seg_id()) == Some(o1)
            &&& parse_quoted(s, o1) == Some((seg.id, o2))
            &&& parse_lit(s, o2, lit_start()) == Some(o3)
            &&& parse_ms(s, o3) == Some((seg.start_ms, o4))
            &&& parse_lit(s, o4, lit_end()) == Some(o5)
            &&& parse_ms(s, o5) == Some((seg.end_ms, o6))
        }),
{
    reveal_strlit(",\"start\":");
    reveal_strlit(",\"end\":");
    reveal_strlit(",\"text\":");
    let a = lit_seg_id();
    let q1 = enc_quoted(seg.id);
    let b = lit_start();
    let m1 = enc_ms(seg.start_ms);
    let c = lit_end();
    let m2 = enc_ms(seg.end_ms);
    let d = lit_text();
    let q2 = enc_quoted(seg.text);
    let e = lit_words();
    let wsitems = enc_words_items(seg.words) + seq![']'];
    let f = lit_close();
    let tail6 = d + q2 + e + wsitems + f + rest;
    assert(s =~= pre + a + (q1 + b + m1 + c + m2 + tail6));
    lemma_parse_lit_at(s, pre, a, q1 + b + m1 + c + m2 + tail6);
    assert(s =~= (pre + a) + q1 + (b + m1 + c + m2 + tail6));
    lemma_parse_quoted_at(s, pre + a, seg.id, b + m1 + c + m2 + tail6);
    assert(s =~= (pre + a + q1) + b + (m1 + c + m2 + tail6));
    lemma_parse_lit_at(s, pre + a + q1, b, m1 + c + m2 + tail6);
    assert(s =~= (pre + a + q1 + b) + m1 + (c + m2 + tail6));
    assert((c + m2 + tail6)[0] == ',');
    lemma_parse_ms_at(s, pre + a + q1 + b, seg.start_ms, c + m2 + tail6);
    assert(s =~= (pre + a + q1 + b + m1) + c + (m2 + tail6));
    lemma_parse_lit_at(s, pre + a + q1 + b + m1, c, m2 + tail6);
    assert(s =~= (pre + a + q1 + b + m1 + c) + m2 + tail6);
    assert(tail6[0] == ',');
    lemma_parse_ms_at(s, pre + a + q1 + b + m1 + c, seg.end_ms, tail6);
}

/// Second half of a rendered segment object: text, words and closing
/// brace parse where assembled.
#[verifier::rlimit(100)]
#[verifier::spinoff_prover]
proof fn lemma_seg_steps_b(s: Seq<char>, pre: Seq<char>, seg: SegmentModel, rest: Seq<char>)
    requires
        s == pre + enc_segment(seg) + rest,
        segment_wire_valid(seg),
    ensures
        ({
            let o6 = pre.len() + lit_seg_id().len() + esc(seg.id).len() + 2 + lit_start().len()
                + enc_ms(seg.start_ms).len() + lit_end().len() + enc_ms(seg.end_ms).len();
            let o7 = o6 + lit_text().len();
            let o8 = o7 + esc(seg.text).len() + 2;
            let o9 = o8 + lit_words().len();
            let o10 = o9 + enc_words_items(seg.words).len() + 1;
            let o11 = o10 + lit_close().len();
            &&& parse_lit(s, o6 as int, lit_text()) == Some(o7 as int)
            &&& parse_quoted(s, o7 as int) == Some((seg.text, o8 as int))
            &&& parse_lit(s, o8 as int, lit_words()) == Some(o9 as int)
            &&& parse_words(s, o9 as int) == Some((seg.words, o10 as int))
            &&& parse_lit(s, o10 as int, lit_close()) == Some(o11 as int)
            &&& o11 == pre.len() + enc_segment(seg).len()
        }),
{
    let a = lit_seg_id();
    let q1 = enc_quoted(seg.id);
    let b = lit_start();
    let m1 = enc_ms(seg.start_ms);
    let c = lit_end();
    let m2 = enc_ms(seg.end_ms);
    let d = lit_text();
    let q2 = enc_quoted(seg.text);
    let e = lit_words();
    let f = lit_close();
    let pre6 = pre + a + q1 + b + m1 + c + m2;
    assert(s =~= pre6 + d + (q2 + e + enc_words_items(seg.words) + seq![']'] + f + rest));
    lemma_parse_lit_at(s, pre6, d, q2 + e + enc_words_items(seg.words) + seq![']'] + f + rest);
    assert(s =~= (pre6 + d) + q2 + (e + enc_words_items(seg.words) + seq![']'] + f + rest));
    lemma_parse_quoted_at(s, pre6 + d, seg.text, e + enc_words_items(seg.words) + seq![']'] + f
        + rest);
    assert(s =~= (pre6 + d + q2) + e + (enc_words_items(seg.words) + seq![']'] + f + rest));
    lemma_parse_lit_at(s, pre6 + d + q2, e, enc_words_items(seg.words) + seq![']'] + f + rest);
    let pre9 = pre6 + d + q2 + e;
    assert(s =~= pre9 + enc_words_items(seg.words) + seq![']'] + (f + rest));
    lemma_parse_words_at(s, pre9, seg.words, f + rest);
    let pre10 = pre9 + enc_words_items(seg.words) + seq![']'];
    assert(s =~= pre10 + f + rest);
    lemma_parse_lit_at(s, pre10, f, rest);
}

/// A rendered segment object parses back to its segment where
/// assembled.
#[verifier::rlimit(100)]
#[verifier::spinoff_prover]
proof fn lemma_parse_segment_at(s: Seq<char>, pre: Seq<char>, seg: SegmentModel, rest: Seq<char>)
    requires
        s == pre + enc_segment(seg) + rest,
        segment_wire_valid(seg),
    ensures
        parse_segment_obj(s, pre.len() as int) == Some(
            (seg, (pre.len() + enc_segment(seg).len()) as int),
        ),
{
    lemma_seg_steps_a(s, pre, seg, rest);
    lemma_seg_steps_b(s, pre, seg, rest);
    assert(SegmentModel {
        id: seg.id,
        start_ms: seg.start_ms,
        end_ms: seg.end_ms,
        text: seg.text,
        words: seg.words,
    } == seg);
}

/// Trimming does not change text that starts and ends with
/// non-whitespace.
proof fn lemma_trim_id(s: Seq<char>)
    requires
        s.len() > 0,
        !is_ws(s[0]),
        !is_ws(s[s.len() - 1]),
    ensures
        spec_trim(s) == s,
{
    assert(scan_ws(s, 0) == 0);
    assert(scan_ws_rev(s, s.len() as int) == s.len());
    assert(s.subrange(0, s.len() as int) =~= s);
}

/// The four message openings differ pairwise at index nine, where the
/// tag value starts.
proof fn lemma_tag_differs(s: Seq<char>, tag: Seq<char>, other: Seq<char>)
    requires
        s.len() >= tag.len(),
        s.subrange(0, tag.len() as int) == tag,
        tag.len() > 9,
        other.len() > 9,
        tag[9] != other[9],
    ensures
        parse_lit(s, 0, other) is None,
{
    if other.len() <= s.len() {
        assert(s[9] == tag[9]);
        if s.subrange(0, other.len() as int) == other {
            assert(s[9] == other[9]);
            assert(false);
        }
    }
}

/// The pieces of a rendered progress message parse where assembled.
#[verifier::rlimit(100)]
#[verifier::spinoff_prover]
proof fn lemma_progress_steps(s: Seq<char>, percent: u32, status: Seq<char>)
    requires
        s == spec_encode(MessageModel::Progress { percent, status }),
        percent <= 100,
    ensures
        ({
            let a = lit_progress();
            let o1 = a.len() as int;
            let o2 = o1 + enc_dec(percent as int).len();
            let o3 = o2 + lit_status().len();
            let o4 = o3 + esc(status).len() + 2;
            let o5 = o4 + lit_close().len();
            &&& parse_lit(s, 0, a) == Some(o1)
            &&& parse_u64(s, o1) == Some((percent as u64, o2))
            &&& parse_lit(s, o2, lit_status()) == Some(o3)
            &&& parse_quoted(s, o3) == Some((status, o4))
            &&& parse_lit(s, o4, lit_close()) == Some(o5)
            &&& o5 == s.len()
        }),
{
    reveal_strlit(",\"status\":");
    let a = lit_progress();
    let n = enc_dec(percent as int);
    let b = lit_status();
    let q = enc_quoted(status);
    let d = lit_close();
    assert(s == a + n + b + q + d);
    assert(s =~= Seq::empty() + a + (n + b + q + d));
    lemma_parse_lit_at(s, Seq::empty(), a, n + b + q + d);
    assert(s =~= a + n + (b + q + d));
    assert((b + q + d)[0] == ',');
    lemma_parse_u64_at(s, a, percent as u64, b + q + d);
    assert(s =~= (a + n) + b + (q + d));
    lemma_parse_lit_at(s, a + n, b, q + d);
    assert(s =~= (a + n + b) + q + d);
    lemma_parse_quoted_at(s, a + n + b, status, d);
    assert(s =~= (a + n + b + q) + d + Seq::empty());
    lemma_parse_lit_at(s, a + n + b + q, d, Seq::empty());
}

/// Round trip for a progress message.
#[verifier::rlimit(100)]
#[verifier::spinoff_prover]
proof fn lemma_round_trip_progress(percent: u32, status: Seq<char>)
    requires
        percent <= 100,
    ensures
        spec_decode(spec_encode(MessageModel::Progress { percent, status }))
            == DecodedModel::Message(MessageModel::Progress { percent, status }),
{
    reveal_strlit("{\"type\":\"progress\",\"percent\":");
    reveal_strlit("}");
    let m = MessageModel::Progress { percent, status };
    let s = spec_encode(m);
    lemma_progress_steps(s, percent, status);
    assert(s[0] == '{');
    assert(s[s.len() - 1] == '}');
    lemma_trim_id(s);
    assert(parse_message(s) == Some(m));
}

/// Round trip for a segment message.
#[verifier::rlimit(100)]
#[verifier::spinoff_prover]
proof fn lemma_round_trip_segment(data: SegmentModel)
    requires
        segment_wire_valid(data),
    ensures
        spec_decode(spec_encode(MessageModel::Segment { data })) == DecodedModel::Message(
            MessageModel::Segment { data },
        ),
{
    reveal_strlit("{\"type\":\"progress\",\"percent\":");
    reveal_strlit("{\"type\":\"segment\",\"data\":");
    reveal_strlit("}");
    let m = MessageModel::Segment { data };
    let s = spec_encode(m);
    let a = lit_segment();
    let seg = enc_segment(data);
    let d = lit_close();
    assert(s == a + seg + d);
    assert(s[0] == '{');
    assert(s[s.len() - 1] == '}');
    lemma_trim_id(s);
    assert(s.subrange(0, a.len() as int) =~= a);
    lemma_tag_differs(s, a, lit_progress());
    assert(s =~= Seq::empty() + a + (seg + d));
    lemma_parse_lit_at(s, Seq::empty(), a, seg + d);
    assert(s =~= a + seg + d);
    lemma_parse_segment_at(s, a, data, d);
    assert(s =~= (a + seg) + d + Seq::empty());
    lemma_parse_lit_at(s, a + seg, d, Seq::empty());
    assert(parse_message(s) == Some(m));
}

/// The pieces of a rendered completion message parse where assembled.
#[verifier::rlimit(100)]
#[verifier::spinoff_prover]
proof fn lemma_complete_steps(s: Seq<char>, language: Seq<char>, duration_ms: u64)
    requires
        s == spec_encode(MessageModel::Complete { language, duration_ms }),
        ms_encodable(duration_ms),
    ensures
        ({
            let a = lit_complete();
            let o1 = a.len() as int;
            let o2 = o1 + esc(language).len() + 2;
            let o3 = o2 + lit_duration().len();
            let o4 = o3 + enc_ms(duration_ms).len();
            let o5 = o4 + lit_close().len();
            &&& parse_lit(s, 0, a) == Some(o1)
            &&& parse_quoted(s, o1) == Some((language, o2))
            &&& parse_lit(s, o2, lit_duration()) == Some(o3)
            &&& parse_ms(s, o3) == Some((duration_ms, o4))
            &&& parse_lit(s, o4, lit_close()) == Some(o5)
            &&& o5 == s.len()
        }),
{
    reveal_strlit(",\"duration\":");
    reveal_strlit("}");
    let a = lit_complete();
    let q = enc_quoted(language);
    let b = lit_duration();
    let n = enc_ms(duration_ms);
    let d = lit_close();
    assert(s == a + q + b + n + d);
    assert(s =~= Seq::empty() + a + (q + b + n + d));
    lemma_parse_lit_at(s, Seq::empty(), a, q + b + n + d);
    assert(s =~= a + q + (b + n + d));
    lemma_parse_quoted_at(s, a, language, b + n + d);
    assert(s =~= (a + q) + b + (n + d));
    lemma_parse_lit_at(s, a + q, b, n + d);
    assert(s =~= (a + q + b) + n + (d + Seq::empty()));
    assert((d + Seq::<char>::empty())[0] == '}');
    lemma_parse_ms_at(s, a + q + b, duration_ms, d + Seq::empty());
    assert(s =~= (a + q + b + n) + d + Seq::empty());
    lemma_parse_lit_at(s, a + q + b + n, d, Seq::empty());
}

/// Round trip for a completion message.
#[verifier::rlimit(100)]
#[verifier::spinoff_prover]
proof fn lemma_round_trip_complete(language: Seq<char>, duration_ms: u64)
    requires
        ms_encodable(duration_ms),
    ensures
        spec_decode(spec_encode(MessageModel::Complete { language, duration_ms }))
            == DecodedModel::Message(MessageModel::Complete { language, duration_ms }),
{
    reveal_strlit("{\"type\":\"progress\",\"percent\":");
    reveal_strlit("{\"type\":\"segment\",\"data\":");
    reveal_strlit("{\"type\":\"complete\",\"language\":");
    reveal_strlit("}");
    let m = MessageModel::Complete { language, duration_ms };
    let s = spec_encode(m);
    lemma_complete_steps(s, language, duration_ms);
    assert(s[0] == '{');
    assert(s[s.len() - 1] == '}');
    lemma_trim_id(s);
    let a = lit_complete();
    assert(s.subrange(0, a.len() as int) =~= a);
    lemma_tag_differs(s, a, lit_progress());
    lemma_tag_differs(s, a, lit_segment());
    assert(parse_message(s) == Some(m));
}

/// Round trip for an error message.
#[verifier::rlimit(100)]
#[verifier::spinoff_prover]
proof fn lemma_round_trip_error(message: Seq<char>)
    ensures
        spec_decode(spec_encode(MessageModel::Error { message })) == DecodedModel::Message(
            MessageModel::Error { message },
        ),
{
    reveal_strlit("{\"type\":\"progress\",\"percent\":");
    reveal_strlit("{\"type\":\"segment\",\"data\":");
    reveal_strlit("{\"type\":\"complete\",\"language\":");
    reveal_strlit("{\"type\":\"error\",\"message\":");
    reveal_strlit("}");
    let m = MessageModel::Error { message };
    let s = spec_encode(m);
    let a = lit_error();
    let q = enc_quoted(message);
    let d = lit_close();
    assert(s == a + q + d);
    assert(s[0] == '{');
    assert(s[s.len() - 1] == '}');
    lemma_trim_id(s);
    assert(s.subrange(0, a.len() as int) =~= a);
    lemma_tag_differs(s, a, lit_progress());
    lemma_tag_differs(s, a, lit_segment());
    lemma_tag_differs(s, a, lit_complete());
    assert(s =~= Seq::empty() + a + (q + d));
    lemma_parse_lit_at(s, Seq::empty(), a, q + d);
    assert(s =~= a + q + d);
    lemma_parse_quoted_at(s, a, message, d);
    assert(s =~= (a + q) + d + Seq::empty());
    lemma_parse_lit_at(s, a + q, d, Seq::empty());
    assert(parse_message(s) == Some(m));
}

/// Round trip: the canonical encoding of any encodable message decodes
/// back to exactly that message.
pub proof fn lemma_round_trip(m: MessageModel)
    requires
        message_wire_valid(m),
    ensures
        spec_decode(spec_encode(m)) == DecodedModel::Message(m),
{
    match m {
        MessageModel::Progress { percent, status } => {
            lemma_round_trip_progress(percent, status);
        },
        MessageModel::Segment { data } => {
            lemma_round_trip_segment(data);
        },
        MessageModel::Complete { language, duration_ms } => {
            lemma_round_trip_complete(language, duration_ms);
        },
        MessageModel::Error { message } => {
            lemma_round_trip_error(message);
        },
    }
}

} // verus!
