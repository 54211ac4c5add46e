//! Downmixing, resampler planning, and the full normalization path run
//! against the real FFT resampler.

use mic::chunk::AudioChunk;
use mic::normalize::{
    concat_resampled, finish_resample, needs_resample, normalize_plan, resample_ratio_suspect,
    NormalizePlan,
};
use rubato::Resampler;

fn chunk_of(channels: u16, rate: u32, samples: &[f32]) -> AudioChunk {
    AudioChunk {
        mic_name: String::from("mic"),
        channels,
        sample_rate: rate,
        data: samples.iter().map(|s| s.to_bits()).collect(),
    }
}

/// Drive the resampler over the planned pieces, as the event loop does.
fn run_resampler(mic_name: String, from_rate: u32, pieces: Vec<Vec<u32>>) -> AudioChunk {
    let mut resampler =
        rubato::FftFixedInOut::<f32>::new(from_rate as usize, 16000, 441, 1).expect("resampler");
    assert_eq!(resampler.input_frames_next(), 441);
    let mut outputs: Vec<Vec<u32>> = Vec::new();
    for piece in pieces {
        let wave: Vec<f32> = piece.iter().map(|&b| f32::from_bits(b)).collect();
        let out = resampler.process(&[wave], None).expect("process");
        outputs.push(out[0].iter().map(|s| s.to_bits()).collect());
    }
    let all = concat_resampled(&outputs);
    finish_resample(mic_name, all).expect("canonical chunk")
}

fn normalize(chunk: AudioChunk) -> AudioChunk {
    match normalize_plan(chunk) {
        NormalizePlan::Ready(c) => c,
        NormalizePlan::Resample { mic_name, from_rate, pieces } => {
            run_resampler(mic_name, from_rate, pieces)
        }
    }
}

#[test]
fn downmix_of_mono_is_a_no_op() {
    let samples: Vec<f32> = vec![0.5, -0.25, 0.125, 0.99, -1.0, 0.0031];
    let before: Vec<u32> = samples.iter().map(|s| s.to_bits()).collect();
    let out = chunk_of(1, 16000, &samples).downmix();
    assert_eq!(out.channels, 1);
    assert_eq!(out.sample_rate, 16000);
    assert_eq!(out.data, before);
}

#[test]
fn downmix_averages_frames_exactly() {
    // (0.5, 0.25) -> 0.375, (-1.0, 1.0) -> 0.0, (0.5, -0.25) -> 0.125
    let out = chunk_of(2, 48000, &[0.5, 0.25, -1.0, 1.0, 0.5, -0.25]).downmix();
    assert_eq!(out.channels, 1);
    assert_eq!(out.data.len(), 3);
    assert_eq!(f32::from_bits(out.data[0]), 0.375);
    assert_eq!(f32::from_bits(out.data[1]), 0.0);
    assert_eq!(f32::from_bits(out.data[2]), 0.125);
}

#[test]
fn normalization_of_opposed_stereo_gives_silence() {
    // 48 kHz stereo, 48 000 frames of (L = +1, R = -1): the downmix gives
    // 48 000 zeros, and resampling zeros to 16 kHz gives only zeros, in
    // ceil(48000 / 441) chunks of 147 output frames.
    let mut samples: Vec<f32> = Vec::with_capacity(96000);
    for _ in 0..48000 {
        samples.push(1.0);
        samples.push(-1.0);
    }
    let out = normalize(chunk_of(2, 48000, &samples));
    assert_eq!(out.channels, 1);
    assert_eq!(out.sample_rate, 16000);
    assert_eq!(out.data.len(), 109 * 147);
    for &b in out.data.iter() {
        assert_eq!(f32::from_bits(b), 0.0);
    }
}

#[test]
fn chunk_already_canonical_is_untouched() {
    let samples: Vec<f32> = vec![0.25, -0.75, 0.0, 0.5];
    let before: Vec<u32> = samples.iter().map(|s| s.to_bits()).collect();
    assert!(!needs_resample(16000));
    match normalize_plan(chunk_of(1, 16000, &samples)) {
        NormalizePlan::Ready(c) => {
            assert_eq!(c.data, before);
            assert_eq!(c.sample_rate, 16000);
            assert_eq!(c.channels, 1);
        }
        NormalizePlan::Resample { .. } => panic!("a 16 kHz chunk needs no resampling"),
    }
}

#[test]
fn plan_pads_the_last_piece_with_zeros() {
    assert!(needs_resample(48000));
    match normalize_plan(chunk_of(1, 48000, &[0.5; 500])) {
        NormalizePlan::Resample { mic_name, from_rate, pieces } => {
            assert_eq!(mic_name, "mic");
            assert_eq!(from_rate, 48000);
            assert_eq!(pieces.len(), 2);
            assert_eq!(pieces[0].len(), 441);
            assert_eq!(pieces[1].len(), 441);
            assert!(pieces[0].iter().all(|&b| f32::from_bits(b) == 0.5));
            assert!(pieces[1][..59].iter().all(|&b| f32::from_bits(b) == 0.5));
            assert!(pieces[1][59..].iter().all(|&b| b == 0));
        }
        NormalizePlan::Ready(_) => panic!("a 48 kHz chunk must be resampled"),
    }
}

#[test]
fn normalization_is_bit_identical_across_runs() {
    let mut samples: Vec<f32> = Vec::new();
    for i in 0..4410 {
        samples.push(((i % 100) as f32 - 50.0) / 64.0);
        samples.push(((i % 37) as f32 - 18.0) / 32.0);
    }
    let first = normalize(chunk_of(2, 44100, &samples));
    let second = normalize(chunk_of(2, 44100, &samples));
    assert_eq!(first.data, second.data);
    assert_eq!(first.sample_rate, second.sample_rate);
    assert_eq!(first.channels, second.channels);
}

#[test]
fn out_of_range_resampler_output_is_rejected() {
    let err = finish_resample(String::from("mic"), vec![1.5f32.to_bits()]);
    assert_eq!(err.unwrap_err(), mic::MicError::InvalidFormat);
}

#[test]
fn ratio_check_flags_only_broken_ratios() {
    // 48 000 samples in, about 16 000 out: fine.
    assert!(!resample_ratio_suspect(48000, 16023, 48000));
    // An output far too short is flagged.
    assert!(resample_ratio_suspect(48000, 1000, 48000));
}
