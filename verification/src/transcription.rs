//! Transcription results and their wire forms.
//!
//! The request body a batch chunk is submitted with is built by
//! `AudioChunk::to_byte_slice` (raw little-endian binary32 samples, four
//! bytes per sample, `Content-Type: audio/f32le`).  This module holds the
//! parsed result, the classification of the endpoint's answer, the
//! JSON-Lines record the archiver appends, and the per-day archive path.
//! Segment times are carried in whole milliseconds.

use vstd::prelude::*;
use crate::numfmt::{dec_padded, digit_char, digit_str, ms_decimal_chars, ms_to_decimal_string,
    u64_to_string_pad};
use crate::MicError;

verus! {

/// The content type of a transcription request: raw little-endian
/// binary32 samples, no framing.
pub const TRANSCRIPTION_CONTENT_TYPE: &'static str = "audio/f32le";

/// One recognized span of speech.
#[derive(Debug, Clone)]
pub struct TranscriptionResultSegment {
    /// The recognized text.
    pub text: String,
    /// Start of the span, in milliseconds from the start of the batch.
    pub start_ms: u64,
    /// End of the span, in milliseconds from the start of the batch.
    pub end_ms: u64,
}

/// The mathematical content of a segment.
pub struct SegmentView {
    pub text: Seq<char>,
    pub start_ms: u64,
    pub end_ms: u64,
}

impl View for TranscriptionResultSegment {
    type V = SegmentView;

    open spec fn view(&self) -> SegmentView {
        SegmentView { text: self.text@, start_ms: self.start_ms, end_ms: self.end_ms }
    }
}

impl DeepView for TranscriptionResultSegment {
    type V = SegmentView;

    open spec fn deep_view(&self) -> SegmentView {
        self@
    }
}

/// A parsed answer of the transcription endpoint.
#[derive(Debug, Clone)]
pub struct TranscriptionResult {
    /// The recognized spans, in order.
    pub segments: Vec<TranscriptionResultSegment>,
    /// The detected language tag.
    pub language: String,
}

/// The mathematical content of a result.
pub struct ResultView {
    pub segments: Seq<SegmentView>,
    pub language: Seq<char>,
}

impl View for TranscriptionResult {
    type V = ResultView;

    open spec fn view(&self) -> ResultView {
        ResultView { segments: self.segments.deep_view(), language: self.language@ }
    }
}

/// The hexadecimal digit character for d < 16, lower case.
pub open spec fn hex_char(d: nat) -> char {
    if d < 10 {
        digit_char(d)
    } else if d == 10 {
        'a'
    } else if d == 11 {
        'b'
    } else if d == 12 {
        'c'
    } else if d == 13 {
        'd'
    } else if d == 14 {
        'e'
    } else {
        'f'
    }
}

/// The single-character string for a hexadecimal digit.
fn hex_str(d: u32) -> (r: &'static str)
    requires
        d < 16,
    ensures
        r@ == seq![hex_char(d as nat)],
{
    if d < 10 {
        digit_str(d as u64)
    } else {
        proof {
            reveal_strlit("a");
            reveal_strlit("b");
            reveal_strlit("c");
            reveal_strlit("d");
            reveal_strlit("e");
            reveal_strlit("f");
        }
        let r = if d == 10 {
            "a"
        } else if d == 11 {
            "b"
        } else if d == 12 {
            "c"
        } else if d == 13 {
            "d"
        } else if d == 14 {
            "e"
        } else {
            "f"
        };
        proof {
            assert(r@ =~= seq![hex_char(d as nat)]);
        }
        r
    }
}

/// How one character appears inside a JSON string literal: quotes and
/// backslashes are escaped, the common control characters get their short
/// escapes, other control characters a \u00XX escape, and everything else
/// stands as itself.
pub open spec fn json_escape_char(c: char) -> Seq<char> {
    if c == '"' {
        seq!['\\', '"']
    } else if c == '\\' {
        seq!['\\', '\\']
    } else if c == '\n' {
        seq!['\\', 'n']
    } else if c == '\r' {
        seq!['\\', 'r']
    } else if c == '\t' {
        seq!['\\', 't']
    } else if (c as u32) < 0x20 {
        seq!['\\', 'u', '0', '0', hex_char((c as u32 / 16) as nat), hex_char((c as u32 % 16) as nat)]
    } else {
        seq![c]
    }
}

/// A whole string escaped for a JSON string literal.
pub open spec fn json_escaped(s: Seq<char>) -> Seq<char>
    decreases s.len(),
{
    if s.len() == 0 {
        Seq::empty()
    } else {
        json_escape_char(s[0]) + json_escaped(s.drop_first())
    }
}

proof fn lemma_json_escaped_snoc(s: Seq<char>, c: char)
    ensures
        json_escaped(s.push(c)) == json_escaped(s) + json_escape_char(c),
    decreases s.len(),
{
    if s.len() == 0 {
        assert(s.push(c)[0] == c);
        assert(s.push(c).drop_first() =~= Seq::<char>::empty());
        assert(json_escaped(s.push(c)) == json_escape_char(c) + json_escaped(
            Seq::<char>::empty(),
        ));
        assert(json_escape_char(c) + Seq::<char>::empty() =~= json_escape_char(c));
        assert(json_escaped(s) + json_escape_char(c) =~= json_escape_char(c));
    } else {
        lemma_json_escaped_snoc(s.drop_first(), c);
        assert(s.push(c).drop_first() =~= s.drop_first().push(c));
        assert(s.push(c)[0] == s[0]);
        assert(json_escape_char(s[0]) + (json_escaped(s.drop_first()) + json_escape_char(c)) =~= (
        json_escape_char(s[0]) + json_escaped(s.drop_first())) + json_escape_char(c));
    }
}

/// Escape a string for inclusion in a JSON string literal.
pub fn json_escape_string(s: &str) -> (out: String)
    ensures
        out@ == json_escaped(s@),
{
    let n = s.unicode_len();
    let mut out = String::new();
    let mut i: usize = 0;
    proof {
        assert(s@.subrange(0, 0) =~= Seq::<char>::empty());
    }
    while i < n
        invariant
            i <= n,
            n == s@.len(),
            out@ == json_escaped(s@.subrange(0, i as int)),
        decreases n - i,
    {
        let c = s.get_char(i);
        proof {
            assert(s@.subrange(0, i + 1 as int) =~= s@.subrange(0, i as int).push(s@[i as int]));
            lemma_json_escaped_snoc(s@.subrange(0, i as int), s@[i as int]);
        }
        if c == '"' {
            out.append("\\\"");
            proof {
                reveal_strlit("\\\"");
                assert(out@ =~= json_escaped(s@.subrange(0, i + 1 as int)));
            }
        } else if c == '\\' {
            out.append("\\\\");
            proof {
                reveal_strlit("\\\\");
                assert(out@ =~= json_escaped(s@.subrange(0, i + 1 as int)));
            }
        } else if c == '\n' {
            out.append("\\n");
            proof {
                reveal_strlit("\\n");
                assert(out@ =~= json_escaped(s@.subrange(0, i + 1 as int)));
            }
        } else if c == '\r' {
            out.append("\\r");
            proof {
                reveal_strlit("\\r");
                assert(out@ =~= json_escaped(s@.subrange(0, i + 1 as int)));
            }
        } else if c == '\t' {
            out.append("\\t");
            proof {
                reveal_strlit("\\t");
                assert(out@ =~= json_escaped(s@.subrange(0, i + 1 as int)));
            }
        } else if (c as u32) < 0x20 {
            let code: u32 = c as u32;
            out.append("\\u00");
            out.append(hex_str(code / 16));
            out.append(hex_str(code % 16));
            proof {
                reveal_strlit("\\u00");
                assert(out@ =~= json_escaped(s@.subrange(0, i + 1 as int)));
            }
        } else {
            let piece = s.substring_char(i, i + 1);
            out.append(piece);
            proof {
                assert(piece@ =~= seq![s@[i as int]]);
                assert(out@ =~= json_escaped(s@.subrange(0, i + 1 as int)));
            }
        }
        i = i + 1;
    }
    proof {
        assert(s@.subrange(0, n as int) =~= s@);
    }
    out
}

/// The JSON object for one segment.
pub open spec fn json_of_segment(seg: SegmentView) -> Seq<char> {
    "{\"text\":\""@ + json_escaped(seg.text) + "\",\"start\":"@ + ms_decimal_chars(
        seg.start_ms as nat,
    ) + ",\"end\":"@ + ms_decimal_chars(seg.end_ms as nat) + "}"@
}

/// The segments after the first, each preceded by a comma.
pub open spec fn json_seg_tail(segs: Seq<SegmentView>) -> Seq<char>
    decreases segs.len(),
{
    if segs.len() == 0 {
        Seq::empty()
    } else {
        seq![','] + json_of_segment(segs[0]) + json_seg_tail(segs.drop_first())
    }
}

/// The comma-separated JSON array elements for a segment list.
pub open spec fn json_segments_chars(segs: Seq<SegmentView>) -> Seq<char> {
    if segs.len() == 0 {
        Seq::empty()
    } else {
        json_of_segment(segs[0]) + json_seg_tail(segs.drop_first())
    }
}

/// The single JSON-Lines record for a whole result.
pub open spec fn json_line_chars(r: ResultView) -> Seq<char> {
    "{\"segments\":["@ + json_segments_chars(r.segments) + "],\"language\":\""@ + json_escaped(
        r.language,
    ) + "\"}"@
}

proof fn lemma_json_seg_tail_snoc(segs: Seq<SegmentView>, x: SegmentView)
    ensures
        json_seg_tail(segs.push(x)) == json_seg_tail(segs) + seq![','] + json_of_segment(x),
    decreases segs.len(),
{
    if segs.len() == 0 {
        assert(segs.push(x)[0] == x);
        assert(segs.push(x).drop_first() =~= Seq::<SegmentView>::empty());
        assert(json_seg_tail(segs.push(x)) == seq![','] + json_of_segment(x) + json_seg_tail(
            Seq::<SegmentView>::empty(),
        ));
        assert(seq![','] + json_of_segment(x) + Seq::<char>::empty() =~= seq![',']
            + json_of_segment(x));
        assert(json_seg_tail(segs) + seq![','] + json_of_segment(x) =~= seq![','] + json_of_segment(
            x,
        ));
    } else {
        lemma_json_seg_tail_snoc(segs.drop_first(), x);
        assert(segs.push(x).drop_first() =~= segs.drop_first().push(x));
        assert(segs.push(x)[0] == segs[0]);
        assert(seq![','] + json_of_segment(segs[0]) + (json_seg_tail(segs.drop_first()) + seq![',']
            + json_of_segment(x)) =~= (seq![','] + json_of_segment(segs[0]) + json_seg_tail(
            segs.drop_first(),
        )) + seq![','] + json_of_segment(x));
    }
}

/// The JSON object for one segment, rendered.
fn segment_json(seg: &TranscriptionResultSegment) -> (out: String)
    ensures
        out@ == json_of_segment(seg@),
{
    let mut out = String::from_str("{\"text\":\"");
    let escaped = json_escape_string(seg.text.as_str());
    out.append(escaped.as_str());
    out.append("\",\"start\":");
    let start = ms_to_decimal_string(seg.start_ms);
    out.append(start.as_str());
    out.append(",\"end\":");
    let end = ms_to_decimal_string(seg.end_ms);
    out.append(end.as_str());
    out.append("}");
    proof {
        assert(out@ =~= json_of_segment(seg@));
    }
    out
}

impl TranscriptionResult {
    /// The JSON-Lines record the archiver appends for this result, built
    /// and escaped here so the written line is pinned exactly.
    pub fn to_json_line(&self) -> (out: String)
        ensures
            out@ == json_line_chars(self@),
    {
        let mut out = String::from_str("{\"segments\":[");
        let ghost segs = self@.segments;
        if self.segments.len() > 0 {
            let first = segment_json(&self.segments[0]);
            out.append(first.as_str());
            proof {
                assert(self.segments@[0]@ == segs[0]);
                assert(json_seg_tail(segs.subrange(1, 1)) =~= Seq::<char>::empty());
                assert(out@ =~= "{\"segments\":["@ + json_of_segment(segs[0]) + json_seg_tail(
                    segs.subrange(1, 1),
                ));
            }
            let mut i: usize = 1;
            while i < self.segments.len()
                invariant
                    1 <= i <= self.segments@.len(),
                    segs == self@.segments,
                    segs.len() == self.segments@.len(),
                    forall|k: int| 0 <= k < segs.len() ==> segs[k] == #[trigger] self.segments@[k]@,
                    out@ == "{\"segments\":["@ + json_of_segment(segs[0]) + json_seg_tail(
                        segs.subrange(1, i as int),
                    ),
                decreases self.segments@.len() - i,
            {
                out.append(",");
                let piece = segment_json(&self.segments[i]);
                out.append(piece.as_str());
                proof {
                    reveal_strlit(",");
                    assert(segs.subrange(1, i + 1 as int) =~= segs.subrange(1, i as int).push(
                        segs[i as int],
                    ));
                    lemma_json_seg_tail_snoc(segs.subrange(1, i as int), segs[i as int]);
                    assert(out@ =~= "{\"segments\":["@ + json_of_segment(segs[0]) + json_seg_tail(
                        segs.subrange(1, i + 1 as int),
                    ));
                }
                i = i + 1;
            }
            proof {
                assert(segs.subrange(1, segs.len() as int) =~= segs.drop_first());
            }
        } else {
            proof {
                assert(json_segments_chars(segs) =~= Seq::<char>::empty());
            }
        }
        out.append("],\"language\":\"");
        let lang = json_escape_string(self.language.as_str());
        out.append(lang.as_str());
        out.append("\"}");
        proof {
            assert(out@ =~= json_line_chars(self@));
        }
        out
    }
}

/// The relative path of the day's transcript archive:
/// YYYY/MM/DD.jsonl under the configured results directory.
pub fn transcript_rel_path(year: u64, month: u64, day: u64) -> (p: String)
    requires
        year <= 9999,
        1 <= month <= 12,
        1 <= day <= 31,
    ensures
        p@ == dec_padded(year as nat, 4) + "/"@ + dec_padded(month as nat, 2) + "/"@ + dec_padded(
            day as nat,
            2,
        ) + ".jsonl"@,
{
    let mut p = u64_to_string_pad(year, 4);
    p.append("/");
    let m = u64_to_string_pad(month, 2);
    p.append(m.as_str());
    p.append("/");
    let d = u64_to_string_pad(day, 2);
    p.append(d.as_str());
    p.append(".jsonl");
    p
}

/// The activity-log line for one recognized segment.
pub open spec fn heard_line_chars(text: Seq<char>) -> Seq<char> {
    "Heard \""@ + text + "\""@
}

/// The activity-log lines a result contributes, one per segment.
pub fn heard_log_lines(r: &TranscriptionResult) -> (out: Vec<String>)
    ensures
        out@.len() == r.segments@.len(),
        forall|i: int|
            0 <= i < out@.len() ==> (#[trigger] out@[i])@ == heard_line_chars(
                r.segments@[i]@.text,
            ),
{
    let mut out: Vec<String> = Vec::new();
    let mut i: usize = 0;
    while i < r.segments.len()
        invariant
            i <= r.segments@.len(),
            out@.len() == i,
            forall|k: int|
                0 <= k < i ==> (#[trigger] out@[k])@ == heard_line_chars(r.segments@[k]@.text),
        decreases r.segments@.len() - i,
    {
        let mut line = String::from_str("Heard \"");
        line.append(r.segments[i].text.as_str());
        line.append("\"");
        out.push(line);
        i = i + 1;
    }
    out
}

/// Whether an HTTP status is a success (2xx).
pub fn status_is_success(status: u16) -> (r: bool)
    ensures
        r == (200 <= status && status < 300),
{
    200 <= status && status < 300
}

/// Classify the endpoint's answer: a success status with a parseable body
/// is the result; a success status with a malformed body is a protocol
/// error; any other status is a rejection carrying that status.
pub fn transcription_outcome(status: u16, parsed: Option<TranscriptionResult>) -> (r: Result<
    TranscriptionResult,
    MicError,
>)
    ensures
        200 <= status < 300 && parsed is Some ==> (r matches Ok(t) && t == parsed->Some_0),
        200 <= status < 300 && parsed is None ==> r == Err::<TranscriptionResult, MicError>(
            MicError::ProtocolError,
        ),
        !(200 <= status < 300) ==> r == Err::<TranscriptionResult, MicError>(
            MicError::RemoteRejected(status),
        ),
{
    if status_is_success(status) {
        match parsed {
            Some(t) => Ok(t),
            None => Err(MicError::ProtocolError),
        }
    } else {
        Err(MicError::RemoteRejected(status))
    }
}

} // verus!
