//! The voice-activity segmenter: activation, hang time, and the shape of
//! the emitted batch chunks.

use mic::chunk::{chunk_is_active, AudioChunk};
use mic::segmenter::{process_raw_audio, MicrophoneState};

fn chunk(name: &str, channels: u16, rate: u32, samples: &[f32]) -> AudioChunk {
    AudioChunk {
        mic_name: String::from(name),
        channels,
        sample_rate: rate,
        data: samples.iter().map(|s| s.to_bits()).collect(),
    }
}

fn constant_chunk(name: &str, rate: u32, value: f32, len: usize) -> AudioChunk {
    let samples: Vec<f32> = std::iter::repeat(value).take(len).collect();
    chunk(name, 1, rate, &samples)
}

#[test]
fn well_formed_chunks_are_frame_aligned_and_in_range() {
    // Frame alignment: the sample count is a whole number of frames.
    let stereo = chunk("mic", 2, 48000, &[0.1, 0.2, 0.3, 0.4]);
    assert!(stereo.check_wf());
    assert_eq!(stereo.data.len() % stereo.channels as usize, 0);
    let ragged = chunk("mic", 2, 48000, &[0.1, 0.2, 0.3]);
    assert!(!ragged.check_wf());
    let zero_channels = chunk("mic", 0, 48000, &[]);
    assert!(!zero_channels.check_wf());
    let too_loud = chunk("mic", 1, 48000, &[1.5]);
    assert!(!too_loud.check_wf());
}

#[test]
fn silent_stream_emits_nothing() {
    // 1000 raw chunks of 1024 zero samples, mono, 48 kHz: no batch chunk,
    // and the device stays idle.
    let mut state = MicrophoneState::WaitingForVoiceActivity;
    let mut now: u64 = 0;
    for _ in 0..1000 {
        let c = constant_chunk("mic", 48000, 0.0, 1024);
        let batch = process_raw_audio(c, &mut state, now);
        assert!(batch.is_none());
        now += 20;
    }
    assert!(matches!(state, MicrophoneState::WaitingForVoiceActivity));
}

#[test]
fn single_utterance_collects_all_appended_chunks() {
    // Ten active chunks, then six silent ones 200 ms apart.  The silent
    // chunks up to and including the 1.0 s mark are appended; the one
    // strictly past it closes the utterance.
    let mut state = MicrophoneState::WaitingForVoiceActivity;
    let mut batches: Vec<AudioChunk> = Vec::new();
    let n = 160;
    for i in 0..10 {
        let c = constant_chunk("mic", 48000, 0.2, n);
        let batch = process_raw_audio(c, &mut state, i * 200);
        assert!(batch.is_none());
    }
    // last activity at t = 1800
    for i in 0..6 {
        let c = constant_chunk("mic", 48000, 0.0, n);
        if let Some(b) = process_raw_audio(c, &mut state, 2000 + i * 200) {
            batches.push(b);
        }
    }
    assert_eq!(batches.len(), 1);
    let batch = &batches[0];
    assert_eq!(batch.mic_name, "mic");
    assert_eq!(batch.sample_rate, 48000);
    // 10 active chunks plus the 5 silent ones at 200..=1000 ms of silence.
    assert_eq!(batch.data.len(), 15 * n);
    let active_bits = 0.2f32.to_bits();
    for (i, &s) in batch.data.iter().enumerate() {
        if i < 10 * n {
            assert_eq!(s, active_bits);
        } else {
            assert_eq!(s, 0u32);
        }
    }
    assert!(matches!(state, MicrophoneState::WaitingForVoiceActivity));
}

#[test]
fn back_to_back_utterances_emit_two_batches_in_order() {
    let mut state = MicrophoneState::WaitingForVoiceActivity;
    let mut batches: Vec<AudioChunk> = Vec::new();
    let mut feed = |state: &mut MicrophoneState, value: f32, t: u64, batches: &mut Vec<
        AudioChunk,
    >| {
        let c = constant_chunk("mic", 44100, value, 64);
        if let Some(b) = process_raw_audio(c, state, t) {
            batches.push(b);
        }
    };
    feed(&mut state, 0.3, 0, &mut batches);
    feed(&mut state, 0.3, 100, &mut batches);
    feed(&mut state, 0.3, 200, &mut batches);
    // 1.2 s of silence after the last active chunk closes the first.
    feed(&mut state, 0.0, 1400, &mut batches);
    feed(&mut state, 0.4, 1600, &mut batches);
    feed(&mut state, 0.4, 1700, &mut batches);
    feed(&mut state, 0.4, 1800, &mut batches);
    feed(&mut state, 0.0, 3000, &mut batches);
    assert_eq!(batches.len(), 2);
    assert_eq!(batches[0].data.len(), 3 * 64);
    assert_eq!(batches[0].data[0], 0.3f32.to_bits());
    assert_eq!(batches[1].data.len(), 3 * 64);
    assert_eq!(batches[1].data[0], 0.4f32.to_bits());
}

#[test]
fn amplitude_exactly_at_threshold_is_silent() {
    // A chunk whose mean absolute amplitude is exactly the 0.01 gate does
    // not activate: the comparison is strict.
    let c = vec![0.01f32.to_bits()];
    assert!(!chunk_is_active(&c));
    let mut state = MicrophoneState::WaitingForVoiceActivity;
    let batch = process_raw_audio(chunk("mic", 1, 48000, &[0.01f32]), &mut state, 0);
    assert!(batch.is_none());
    assert!(matches!(state, MicrophoneState::WaitingForVoiceActivity));
    // A slightly louder chunk opens an utterance.
    let batch = process_raw_audio(chunk("mic", 1, 48000, &[0.011f32]), &mut state, 0);
    assert!(batch.is_none());
    assert!(matches!(state, MicrophoneState::VoiceActivated(_)));
}

#[test]
fn silence_of_exactly_one_second_stays_open() {
    // At now - last_activity == 1000 ms the utterance is still open and
    // the silent chunk is appended; closure needs strictly more.
    let mut state = MicrophoneState::WaitingForVoiceActivity;
    let none = process_raw_audio(constant_chunk("mic", 48000, 0.5, 8), &mut state, 0);
    assert!(none.is_none());
    let at_deadline = process_raw_audio(constant_chunk("mic", 48000, 0.0, 8), &mut state, 1000);
    assert!(at_deadline.is_none());
    match &state {
        MicrophoneState::VoiceActivated(a) => {
            assert_eq!(a.data_so_far.len(), 16);
            assert_eq!(a.last_activity, 0);
        }
        other => panic!("expected an open utterance, got {:?}", other),
    }
    let past_deadline = process_raw_audio(constant_chunk("mic", 48000, 0.0, 8), &mut state, 1001);
    let batch = past_deadline.expect("one millisecond past the deadline closes the utterance");
    assert_eq!(batch.data.len(), 16);
}

#[test]
fn disabled_device_discards_everything() {
    let mut state = MicrophoneState::Disabled;
    for i in 0..50 {
        let batch = process_raw_audio(constant_chunk("mic", 48000, 0.9, 32), &mut state, i * 100);
        assert!(batch.is_none());
    }
    assert!(matches!(state, MicrophoneState::Disabled));
}

#[test]
fn empty_chunks_are_discarded() {
    let mut state = MicrophoneState::WaitingForVoiceActivity;
    let batch = process_raw_audio(chunk("mic", 1, 48000, &[]), &mut state, 0);
    assert!(batch.is_none());
    assert!(matches!(state, MicrophoneState::WaitingForVoiceActivity));
    // An empty chunk inside an utterance neither appends nor closes.
    let _ = process_raw_audio(constant_chunk("mic", 48000, 0.5, 8), &mut state, 100);
    let batch = process_raw_audio(chunk("mic", 1, 48000, &[]), &mut state, 5000);
    assert!(batch.is_none());
    match &state {
        MicrophoneState::VoiceActivated(a) => assert_eq!(a.data_so_far.len(), 8),
        other => panic!("expected an open utterance, got {:?}", other),
    }
}

#[test]
fn rate_change_keeps_the_opening_rate() {
    // Carry-through policy: the batch reports the rate recorded when the
    // utterance opened, whatever later chunks say.
    let mut state = MicrophoneState::WaitingForVoiceActivity;
    let _ = process_raw_audio(constant_chunk("mic", 48000, 0.5, 8), &mut state, 0);
    let _ = process_raw_audio(constant_chunk("mic", 44100, 0.5, 8), &mut state, 100);
    let batch = process_raw_audio(constant_chunk("mic", 44100, 0.0, 8), &mut state, 2000);
    let batch = batch.expect("the long silence closes the utterance");
    assert_eq!(batch.sample_rate, 48000);
    assert_eq!(batch.data.len(), 16);
}
