//! Rendering a finished transcript as plain text, as SubRip subtitles,
//! or as JSON.
//!
//! Each renderer's output is pinned down character for character by a
//! specification function, so a caller knows exactly what text a given
//! transcript produces.

use vstd::prelude::*;

use crate::models::AppError;
use crate::models::ExportFormat;
use crate::models::SegmentModel;
use crate::models::Transcript;
use crate::protocol::digit_str;
use crate::protocol::digit_char;
use crate::protocol::enc_dec;
use crate::protocol::enc_ms;
use crate::protocol::enc_quoted;
use crate::protocol::enc_segment;
use crate::protocol::encode_segment;
use crate::protocol::escape_text;
use crate::protocol::u64_to_string;

verus! {

// ------------------------------------------------------------------
// SubRip time stamps
// ------------------------------------------------------------------

/// A number padded to at least two digits.
pub open spec fn spec_pad2(n: int) -> Seq<char> {
    if n < 10 {
        seq!['0', digit_char(n)]
    } else {
        enc_dec(n)
    }
}

/// A number below 1000 padded to exactly three digits.
pub open spec fn spec_pad3(n: int) -> Seq<char> {
    seq![digit_char(n / 100), digit_char((n % 100) / 10), digit_char(n % 10)]
}

/// The SubRip rendering `HH:MM:SS,mmm` of a time in milliseconds.
pub open spec fn spec_srt_time(ms: u64) -> Seq<char> {
    spec_pad2(ms as int / 3600000) + seq![':'] + spec_pad2((ms as int / 60000) % 60) + seq![':']
        + spec_pad2((ms as int / 1000) % 60) + seq![','] + spec_pad3(ms as int % 1000)
}

/// A number padded to at least two digits.
fn two_digits(n: u64) -> (r: String)
    ensures
        r@ == spec_pad2(n as int),
{
    if n < 10 {
        let mut s = String::from_str("0");
        s.append(digit_str(n));
        proof {
            reveal_strlit("0");
            assert(s@ =~= spec_pad2(n as int));
        }
        s
    } else {
        u64_to_string(n)
    }
}

/// Format a time in milliseconds in SubRip style, `HH:MM:SS,mmm`.
/// Hours grow past two digits when they must.
pub fn format_srt_time(ms: u64) -> (r: String)
    ensures
        r@ == spec_srt_time(ms),
{
    let mut s = two_digits(ms / 3600000);
    s.append(":");
    s.append(two_digits((ms / 60000) % 60).as_str());
    s.append(":");
    s.append(two_digits((ms / 1000) % 60).as_str());
    s.append(",");
    let millis = ms % 1000;
    s.append(digit_str(millis / 100));
    s.append(digit_str((millis % 100) / 10));
    s.append(digit_str(millis % 10));
    proof {
        reveal_strlit(":");
        reveal_strlit(",");
        assert(s@ =~= spec_srt_time(ms));
    }
    s
}

// ------------------------------------------------------------------
// Plain text
// ------------------------------------------------------------------

/// The segment texts joined by single spaces.
pub open spec fn spec_txt_join(segs: Seq<SegmentModel>) -> Seq<char>
    decreases segs.len(),
{
    if segs.len() == 0 {
        Seq::empty()
    } else if segs.len() == 1 {
        segs[0].text
    } else {
        segs[0].text + seq![' '] + spec_txt_join(segs.subrange(1, segs.len() as int))
    }
}

/// The segment texts from index `i` on, joined by spaces.
fn txt_join_from(t: &Transcript, i: usize) -> (r: String)
    requires
        i <= t.segments@.len(),
    ensures
        r@ == spec_txt_join(t.segs().subrange(i as int, t.segments@.len() as int)),
    decreases t.segments@.len() - i,
{
    let ghost part = t.segs().subrange(i as int, t.segments@.len() as int);
    if i == t.segments.len() {
        let s = String::new();
        assert(s@ =~= spec_txt_join(part));
        s
    } else {
        let mut s = t.segments[i].text.clone();
        assert(s@ == part[0].text);
        if i + 1 < t.segments.len() {
            s.append(" ");
            let rest = txt_join_from(t, i + 1);
            s.append(rest.as_str());
            proof {
                reveal_strlit(" ");
                assert(part.subrange(1, part.len() as int) =~= t.segs().subrange(
                    i + 1,
                    t.segments@.len() as int,
                ));
                assert(s@ =~= spec_txt_join(part));
            }
        } else {
            assert(part.len() == 1);
            assert(s@ =~= spec_txt_join(part));
        }
        s
    }
}

/// Render the transcript as plain text: the segment texts joined by
/// spaces, with no time stamps.
pub fn export_to_txt(transcript: &Transcript) -> (r: String)
    ensures
        r@ == spec_txt_join(transcript.segs()),
{
    let r = txt_join_from(transcript, 0);
    assert(transcript.segs().subrange(0, transcript.segments@.len() as int) =~= transcript.segs());
    r
}

// ------------------------------------------------------------------
// SubRip subtitles
// ------------------------------------------------------------------

/// One SubRip block: its one-based number, the time range, the text.
pub open spec fn spec_srt_block(seg: SegmentModel, num: int) -> Seq<char> {
    enc_dec(num) + "\n"@ + spec_srt_time(seg.start_ms) + " --> "@ + spec_srt_time(seg.end_ms)
        + "\n"@ + seg.text
}

/// The SubRip blocks from the segments on, numbered from `num`,
/// separated by blank lines.
pub open spec fn spec_srt_join(segs: Seq<SegmentModel>, num: int) -> Seq<char>
    decreases segs.len(),
{
    if segs.len() == 0 {
        Seq::empty()
    } else if segs.len() == 1 {
        spec_srt_block(segs[0], num)
    } else {
        spec_srt_block(segs[0], num) + "\n\n"@ + spec_srt_join(
            segs.subrange(1, segs.len() as int),
            num + 1,
        )
    }
}

/// One SubRip block for the segment at `i`, numbered `i + 1`.
fn srt_block(t: &Transcript, i: usize) -> (r: String)
    requires
        i < t.segments@.len(),
    ensures
        r@ == spec_srt_block(t.segs()[i as int], i + 1),
{
    let n = t.segments.len();
    assert(i < n);
    let seg = &t.segments[i];
    let mut s = u64_to_string((i + 1) as u64);
    s.append("\n");
    s.append(format_srt_time(seg.start_ms).as_str());
    s.append(" --> ");
    s.append(format_srt_time(seg.end_ms).as_str());
    s.append("\n");
    s.append(seg.text.as_str());
    assert(s@ =~= spec_srt_block(t.segs()[i as int], i + 1));
    s
}

/// The SubRip blocks from index `i` on.
fn srt_join_from(t: &Transcript, i: usize) -> (r: String)
    requires
        i <= t.segments@.len(),
    ensures
        r@ == spec_srt_join(t.segs().subrange(i as int, t.segments@.len() as int), i + 1),
    decreases t.segments@.len() - i,
{
    let ghost part = t.segs().subrange(i as int, t.segments@.len() as int);
    if i == t.segments.len() {
        let s = String::new();
        assert(s@ =~= spec_srt_join(part, i + 1));
        s
    } else {
        let mut s = srt_block(t, i);
        assert(part[0] == t.segs()[i as int]);
        if i + 1 < t.segments.len() {
            s.append("\n\n");
            let rest = srt_join_from(t, i + 1);
            s.append(rest.as_str());
            proof {
                assert(part.subrange(1, part.len() as int) =~= t.segs().subrange(
                    i + 1,
                    t.segments@.len() as int,
                ));
                assert(s@ =~= spec_srt_join(part, i + 1));
            }
        } else {
            assert(part.len() == 1);
            assert(s@ =~= spec_srt_join(part, i + 1));
        }
        s
    }
}

/// Render the transcript as SubRip subtitles: blocks numbered from
/// one, each with its time range, separated by blank lines.
pub fn export_to_srt(transcript: &Transcript) -> (r: String)
    ensures
        r@ == spec_srt_join(transcript.segs(), 1),
{
    let r = srt_join_from(transcript, 0);
    assert(transcript.segs().subrange(0, transcript.segments@.len() as int) =~= transcript.segs());
    r
}

// ------------------------------------------------------------------
// JSON
// ------------------------------------------------------------------

/// The segment objects of a transcript, separated by commas.
pub open spec fn spec_json_segments(segs: Seq<SegmentModel>) -> Seq<char>
    decreases segs.len(),
{
    if segs.len() == 0 {
        Seq::empty()
    } else if segs.len() == 1 {
        enc_segment(segs[0])
    } else {
        enc_segment(segs[0]) + seq![','] + spec_json_segments(segs.subrange(1, segs.len() as int))
    }
}

/// The JSON rendering of a whole transcript.
pub open spec fn spec_json_transcript(t: &Transcript) -> Seq<char> {
    "{\"segments\":["@ + spec_json_segments(t.segs()) + "],\"language\":"@ + enc_quoted(
        t.language@,
    ) + ",\"duration\":"@ + enc_ms(t.duration_ms) + "}"@
}

/// The segment objects from index `i` on.
fn json_segments_from(t: &Transcript, i: usize) -> (r: String)
    requires
        i <= t.segments@.len(),
    ensures
        r@ == spec_json_segments(t.segs().subrange(i as int, t.segments@.len() as int)),
    decreases t.segments@.len() - i,
{
    let ghost part = t.segs().subrange(i as int, t.segments@.len() as int);
    if i == t.segments.len() {
        let s = String::new();
        assert(s@ =~= spec_json_segments(part));
        s
    } else {
        let mut s = encode_segment(&t.segments[i]);
        assert(part[0] == t.segs()[i as int]);
        if i + 1 < t.segments.len() {
            s.append(",");
            let rest = json_segments_from(t, i + 1);
            s.append(rest.as_str());
            proof {
                reveal_strlit(",");
                assert(part.subrange(1, part.len() as int) =~= t.segs().subrange(
                    i + 1,
                    t.segments@.len() as int,
                ));
                assert(s@ =~= spec_json_segments(part));
            }
        } else {
            assert(part.len() == 1);
            assert(s@ =~= spec_json_segments(part));
        }
        s
    }
}

/// Render the transcript as JSON, with all segment data and
/// word-level timings.  Building the text cannot fail; the `Result`
/// stands for callers that treat rendering uniformly.
pub fn export_to_json(transcript: &Transcript) -> (r: Result<String, AppError>)
    ensures
        r matches Ok(s) && s@ == spec_json_transcript(transcript),
{
    let mut s = String::from_str("{\"segments\":[");
    s.append(json_segments_from(transcript, 0).as_str());
    s.append("],\"language\":\"");
    s.append(escape_text(transcript.language.as_str()).as_str());
    s.append("\",\"duration\":");
    s.append(crate::protocol::ms_to_string(transcript.duration_ms).as_str());
    s.append("}");
    proof {
        reveal_strlit("],\"language\":\"");
        reveal_strlit("\",\"duration\":");
        reveal_strlit("],\"language\":");
        reveal_strlit("\"");
        reveal_strlit(",\"duration\":");
        assert(transcript.segs().subrange(0, transcript.segments@.len() as int)
            =~= transcript.segs());
        assert(s@ =~= spec_json_transcript(transcript));
    }
    Ok(s)
}

// ------------------------------------------------------------------
// Dispatch
// ------------------------------------------------------------------

/// Render the transcript in the chosen format.
pub fn export_transcript(transcript: &Transcript, format: ExportFormat) -> (r: Result<
    String,
    AppError,
>)
    ensures
        (match format {
            ExportFormat::Txt => r matches Ok(s) && s@ == spec_txt_join(transcript.segs()),
            ExportFormat::Srt => r matches Ok(s) && s@ == spec_srt_join(transcript.segs(), 1),
            ExportFormat::Json => r matches Ok(s) && s@ == spec_json_transcript(transcript),
        }),
{
    match format {
        ExportFormat::Txt => Ok(export_to_txt(transcript)),
        ExportFormat::Srt => Ok(export_to_srt(transcript)),
        ExportFormat::Json => export_to_json(transcript),
    }
}

/// The file extension belonging to an export format.
pub fn get_extension(format: ExportFormat) -> (r: &'static str)
    ensures
        (match format {
            ExportFormat::Txt => r@ == "txt"@,
            ExportFormat::Srt => r@ == "srt"@,
            ExportFormat::Json => r@ == "json"@,
        }),
{
    match format {
        ExportFormat::Txt => "txt",
        ExportFormat::Srt => "srt",
        ExportFormat::Json => "json",
    }
}

} // verus!
