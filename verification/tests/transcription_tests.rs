//! The transcription wire body, the answer classification, and the
//! JSON-Lines record of the archiver.

use mic::chunk::AudioChunk;
use mic::transcription::{
    heard_log_lines, json_escape_string, status_is_success, transcript_rel_path,
    transcription_outcome, TranscriptionResult, TranscriptionResultSegment,
};
use mic::MicError;

fn canonical_chunk(samples: &[f32]) -> AudioChunk {
    AudioChunk {
        mic_name: String::from("mic"),
        channels: 1,
        sample_rate: 16000,
        data: samples.iter().map(|s| s.to_bits()).collect(),
    }
}

fn hi_result() -> TranscriptionResult {
    TranscriptionResult {
        segments: vec![TranscriptionResultSegment {
            text: String::from("hi"),
            start_ms: 0,
            end_ms: 500,
        }],
        language: String::from("en"),
    }
}

#[test]
fn wire_body_is_four_bytes_per_sample_little_endian() {
    // One second of canonical audio: 16 000 samples, 64 000 body bytes.
    let samples: Vec<f32> = (0..16000).map(|i| ((i % 64) as f32 - 32.0) / 32.0).collect();
    let chunk = canonical_chunk(&samples);
    let body = chunk.to_byte_slice();
    assert_eq!(body.len(), 64000);
    for (i, s) in samples.iter().enumerate() {
        assert_eq!(&body[4 * i..4 * i + 4], &s.to_le_bytes());
    }
}

#[test]
fn wire_content_type_is_raw_float_audio() {
    assert_eq!(mic::transcription::TRANSCRIPTION_CONTENT_TYPE, "audio/f32le");
}

#[test]
fn success_with_parsed_body_is_the_result() {
    assert!(status_is_success(200));
    assert!(status_is_success(204));
    assert!(!status_is_success(199));
    assert!(!status_is_success(300));
    let out = transcription_outcome(200, Some(hi_result())).expect("ok");
    assert_eq!(out.segments.len(), 1);
    assert_eq!(out.segments[0].text, "hi");
    assert_eq!(out.language, "en");
}

#[test]
fn success_with_malformed_body_is_a_protocol_error() {
    let out = transcription_outcome(200, None);
    assert_eq!(out.unwrap_err(), MicError::ProtocolError);
}

#[test]
fn failure_status_is_a_rejection_with_that_status() {
    let out = transcription_outcome(503, Some(hi_result()));
    assert_eq!(out.unwrap_err(), MicError::RemoteRejected(503));
    let out = transcription_outcome(404, None);
    assert_eq!(out.unwrap_err(), MicError::RemoteRejected(404));
}

#[test]
fn json_line_of_a_result() {
    let line = hi_result().to_json_line();
    assert_eq!(
        line,
        "{\"segments\":[{\"text\":\"hi\",\"start\":0,\"end\":0.5}],\"language\":\"en\"}"
    );
}

#[test]
fn json_line_of_several_segments() {
    let result = TranscriptionResult {
        segments: vec![
            TranscriptionResultSegment {
                text: String::from("turn the lights"),
                start_ms: 120,
                end_ms: 1500,
            },
            TranscriptionResultSegment {
                text: String::from("off"),
                start_ms: 1730,
                end_ms: 2000,
            },
        ],
        language: String::from("en"),
    };
    let line = result.to_json_line();
    assert_eq!(
        line,
        "{\"segments\":[{\"text\":\"turn the lights\",\"start\":0.12,\"end\":1.5},{\"text\":\"off\",\"start\":1.73,\"end\":2}],\"language\":\"en\"}"
    );
}

#[test]
fn json_line_of_no_segments() {
    let result = TranscriptionResult { segments: vec![], language: String::from("nn") };
    assert_eq!(result.to_json_line(), "{\"segments\":[],\"language\":\"nn\"}");
}

#[test]
fn json_escaping_covers_quotes_backslashes_and_controls() {
    assert_eq!(json_escape_string("plain"), "plain");
    assert_eq!(json_escape_string("a\"b"), "a\\\"b");
    assert_eq!(json_escape_string("a\\b"), "a\\\\b");
    assert_eq!(json_escape_string("a\nb\rc\td"), "a\\nb\\rc\\td");
    assert_eq!(json_escape_string("\u{1}\u{1f}"), "\\u0001\\u001f");
    assert_eq!(json_escape_string("caf\u{e9}"), "caf\u{e9}");
}

#[test]
fn archive_path_is_zero_padded_per_day() {
    assert_eq!(transcript_rel_path(2026, 10, 5), "2026/10/05.jsonl");
    assert_eq!(transcript_rel_path(999, 1, 31), "0999/01/31.jsonl");
    assert_eq!(transcript_rel_path(2024, 12, 9), "2024/12/09.jsonl");
}

#[test]
fn heard_lines_quote_each_segment() {
    let lines = heard_log_lines(&hi_result());
    assert_eq!(lines.len(), 1);
    assert_eq!(lines[0], "Heard \"hi\"");
}
