//! The event loop's state: device registry, chunk routing across several
//! devices, consumer toggling, key bindings and labels.

use mic::chunk::AudioChunk;
use mic::config::{AppConfig, KeyAction, KeyConfig, MicrophoneConfig, THRESHOLD_BITS};
use mic::segmenter::MicrophoneState;
use mic::state::{
    fallback_device_name, mic_status_label, AppState, Microphone, RouteOutcome,
    TranscriptionCallback,
};

fn active_chunk(name: &str, len: usize) -> AudioChunk {
    AudioChunk {
        mic_name: String::from(name),
        channels: 1,
        sample_rate: 48000,
        data: std::iter::repeat(0.3f32.to_bits()).take(len).collect(),
    }
}

fn silent_chunk(name: &str, len: usize) -> AudioChunk {
    AudioChunk {
        mic_name: String::from(name),
        channels: 1,
        sample_rate: 48000,
        data: std::iter::repeat(0u32).take(len).collect(),
    }
}

fn fresh_state() -> AppState {
    AppState::new(AppConfig::default())
}

#[test]
fn two_devices_interleave_without_mixing() {
    // Each device produces one utterance; the two batch chunks carry the
    // right device names and each device's samples stay in order.
    let mut app = fresh_state();
    app.add_microphone(Microphone::new(String::from("alpha"), true));
    app.add_microphone(Microphone::new(String::from("beta"), true));
    let mut batches: Vec<AudioChunk> = Vec::new();
    let mut route = |app: &mut AppState, c: AudioChunk, t: u64, batches: &mut Vec<AudioChunk>| {
        match app.route_raw_chunk(c, t) {
            RouteOutcome::Batch(b) => batches.push(b),
            RouteOutcome::NoBatch => {}
            RouteOutcome::UnknownMic => panic!("the device is registered"),
        }
    };
    route(&mut app, active_chunk("alpha", 16), 0, &mut batches);
    route(&mut app, active_chunk("beta", 8), 50, &mut batches);
    route(&mut app, active_chunk("alpha", 16), 100, &mut batches);
    route(&mut app, active_chunk("beta", 8), 150, &mut batches);
    route(&mut app, silent_chunk("alpha", 4), 1200, &mut batches);
    route(&mut app, silent_chunk("beta", 4), 1300, &mut batches);
    assert_eq!(batches.len(), 2);
    assert_eq!(batches[0].mic_name, "alpha");
    assert_eq!(batches[0].data.len(), 32);
    assert_eq!(batches[1].mic_name, "beta");
    assert_eq!(batches[1].data.len(), 16);
}

#[test]
fn unknown_device_chunks_are_dropped() {
    let mut app = fresh_state();
    app.add_microphone(Microphone::new(String::from("alpha"), true));
    match app.route_raw_chunk(active_chunk("gamma", 8), 0) {
        RouteOutcome::UnknownMic => {}
        _ => panic!("an unregistered device must be reported"),
    }
}

#[test]
fn disabled_device_routes_to_no_batch() {
    let mut app = fresh_state();
    app.add_microphone(Microphone::new(String::from("alpha"), false));
    for t in 0..20u64 {
        match app.route_raw_chunk(active_chunk("alpha", 8), t * 400) {
            RouteOutcome::NoBatch => {}
            _ => panic!("a disabled device emits nothing"),
        }
    }
    assert!(matches!(app.microphones[0].state, MicrophoneState::Disabled));
}

#[test]
fn adding_a_device_twice_replaces_it() {
    let mut app = fresh_state();
    app.add_microphone(Microphone::new(String::from("alpha"), true));
    app.add_microphone(Microphone::new(String::from("beta"), true));
    app.add_microphone(Microphone::new(String::from("alpha"), false));
    assert_eq!(app.microphones.len(), 2);
    assert_eq!(app.microphones[0].name, "alpha");
    assert!(matches!(app.microphones[0].state, MicrophoneState::Disabled));
    assert_eq!(app.microphones[1].name, "beta");
}

#[test]
fn chat_lights_toggle_flips_and_preserves_the_archiver() {
    let mut app = fresh_state();
    assert!(!app.wants_chat_lights());
    app.toggle_chat_lights();
    assert!(app.wants_chat_lights());
    app.toggle_chat_lights();
    assert!(!app.wants_chat_lights());
    assert_eq!(app.transcription_callbacks, vec![TranscriptionCallback::WriteJsonLine]);
}

#[test]
fn activity_log_appends_in_order() {
    let mut app = fresh_state();
    app.push_activity_log(String::from("one"));
    app.push_activity_log(String::from("two"));
    assert_eq!(app.activity_log, vec![String::from("one"), String::from("two")]);
}

#[test]
fn default_key_bindings_resolve_in_field_order() {
    let kc = KeyConfig::default();
    assert_eq!(kc.key_action('q'), KeyAction::Quit);
    assert_eq!(kc.key_action('h'), KeyAction::Help);
    assert_eq!(kc.key_action('d'), KeyAction::ToggleMicDisabled);
    assert_eq!(kc.key_action('m'), KeyAction::CycleMicMode);
    assert_eq!(kc.key_action('w'), KeyAction::ToggleWriteCallback);
    assert_eq!(kc.key_action('t'), KeyAction::ToggleTypewriterCallback);
    assert_eq!(kc.key_action('e'), KeyAction::EditConfig);
    // 'b' is bound to both open-config and open-logs by default; the
    // earlier binding wins.
    assert_eq!(kc.key_action('b'), KeyAction::OpenConfig);
    assert_eq!(kc.key_action('x'), KeyAction::Ignored);
}

#[test]
fn microphone_defaults_use_the_float_gate_bits() {
    let mc = MicrophoneConfig::default();
    assert_eq!(mc.samples_until_idle, 44100);
    assert_eq!(mc.activity_threshold_amplitude, 0.01f32.to_bits());
    assert_eq!(mc.activity_threshold_amplitude, THRESHOLD_BITS);
    assert!(mc.enabled);
}

#[test]
fn config_lookup_defaults_to_enabled() {
    let mut config = AppConfig::default();
    assert!(config.mic_enabled(&String::from("anything")));
    config.microphones.push((String::from("alpha"), MicrophoneConfig {
        samples_until_idle: 44100,
        activity_threshold_amplitude: THRESHOLD_BITS,
        enabled: false,
    }));
    assert!(!config.mic_enabled(&String::from("alpha")));
    assert!(config.mic_enabled(&String::from("beta")));
}

#[test]
fn status_labels_match_the_ui() {
    assert_eq!(mic_status_label(&MicrophoneState::Disabled), "DISABLED");
    assert_eq!(
        mic_status_label(&MicrophoneState::WaitingForVoiceActivity),
        "IDLE - WaitingForVoiceActivity"
    );
    assert_eq!(
        mic_status_label(&MicrophoneState::WaitingForPushToTalk),
        "IDLE - WaitingForPushToTalk"
    );
    let mut state = MicrophoneState::WaitingForVoiceActivity;
    let none = mic::segmenter::process_raw_audio(active_chunk("alpha", 12), &mut state, 0);
    assert!(none.is_none());
    assert_eq!(mic_status_label(&state), "LISTENING - Samples: 12");
}

#[test]
fn synthetic_names_carry_the_enumeration_index() {
    assert_eq!(fallback_device_name(0), "Unknown-0");
    assert_eq!(fallback_device_name(17), "Unknown-17");
}
