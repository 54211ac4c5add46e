//! Configuration of the pipeline: per-microphone entries, key bindings,
//! and the application settings the event loop reads.
//!
//! Loading and saving the configuration file is input/output and lives in
//! the binary around this library; the types and their defaults are
//! verified here.

use vstd::prelude::*;

verus! {

/// Configuration of one recognized microphone.
#[derive(Debug, Clone)]
pub struct MicrophoneConfig {
    /// How many device-native samples of silence close an utterance, in
    /// principle; the core applies its wall-clock hang time instead.
    pub samples_until_idle: u32,
    /// Activation threshold, as the bits of a binary32 amplitude.  The
    /// pipeline always uses a constant 0.01 threshold, whose bits are
    /// the default here.
    pub activity_threshold_amplitude: u32,
    /// Whether the device is captured at all.
    pub enabled: bool,
}

/// The bits of the binary32 number 0.01, the default activation gate.
pub const THRESHOLD_BITS: u32 = 0x3C23_D70A;

impl Default for MicrophoneConfig {
    /// One second of samples at 44.1 kHz, the 0.01 gate, enabled.
    fn default() -> (r: Self)
        ensures
            r.samples_until_idle == 44100,
            r.activity_threshold_amplitude == THRESHOLD_BITS,
            r.enabled == true,
    {
        MicrophoneConfig {
            samples_until_idle: 44100,
            activity_threshold_amplitude: THRESHOLD_BITS,
            enabled: true,
        }
    }
}

/// The keyboard bindings of the interactive loop.
#[derive(Debug, Clone)]
pub struct KeyConfig {
    pub quit: char,
    pub help: char,
    pub mic_toggle_disabled: char,
    pub mic_cycle_mode: char,
    pub callback_toggle_write: char,
    pub callback_toggle_typewriter: char,
    pub edit_config: char,
    pub open_config: char,
    pub open_logs: char,
}

/// The default key bindings.
pub open spec fn default_key_config() -> KeyConfig {
    KeyConfig {
        quit: 'q',
        help: 'h',
        mic_toggle_disabled: 'd',
        mic_cycle_mode: 'm',
        callback_toggle_write: 'w',
        callback_toggle_typewriter: 't',
        edit_config: 'e',
        open_config: 'b',
        open_logs: 'b',
    }
}

impl Default for KeyConfig {
    fn default() -> (r: Self)
        ensures
            r == default_key_config(),
    {
        KeyConfig {
            quit: 'q',
            help: 'h',
            mic_toggle_disabled: 'd',
            mic_cycle_mode: 'm',
            callback_toggle_write: 'w',
            callback_toggle_typewriter: 't',
            edit_config: 'e',
            open_config: 'b',
            open_logs: 'b',
        }
    }
}

/// What a key press asks the event loop to do.
#[derive(Debug, Clone, Copy, PartialEq, Eq, Structural)]
pub enum KeyAction {
    Quit,
    Help,
    ToggleMicDisabled,
    CycleMicMode,
    ToggleWriteCallback,
    ToggleTypewriterCallback,
    EditConfig,
    OpenConfig,
    OpenLogs,
    Ignored,
}

/// The binding a character resolves to: bindings are tried in the order
/// of the fields of `KeyConfig`, the first match wins, and an unbound
/// character is ignored.  With the default bindings, where open-config
/// and open-logs share 'b', 'b' therefore opens the configuration.
pub open spec fn key_action_spec(kc: KeyConfig, c: char) -> KeyAction {
    if c == kc.quit {
        KeyAction::Quit
    } else if c == kc.help {
        KeyAction::Help
    } else if c == kc.mic_toggle_disabled {
        KeyAction::ToggleMicDisabled
    } else if c == kc.mic_cycle_mode {
        KeyAction::CycleMicMode
    } else if c == kc.callback_toggle_write {
        KeyAction::ToggleWriteCallback
    } else if c == kc.callback_toggle_typewriter {
        KeyAction::ToggleTypewriterCallback
    } else if c == kc.edit_config {
        KeyAction::EditConfig
    } else if c == kc.open_config {
        KeyAction::OpenConfig
    } else if c == kc.open_logs {
        KeyAction::OpenLogs
    } else {
        KeyAction::Ignored
    }
}

impl KeyConfig {
    /// Resolve one pressed character against the bindings.
    pub fn key_action(&self, c: char) -> (r: KeyAction)
        ensures
            r == key_action_spec(*self, c),
    {
        if c == self.quit {
            KeyAction::Quit
        } else if c == self.help {
            KeyAction::Help
        } else if c == self.mic_toggle_disabled {
            KeyAction::ToggleMicDisabled
        } else if c == self.mic_cycle_mode {
            KeyAction::CycleMicMode
        } else if c == self.callback_toggle_write {
            KeyAction::ToggleWriteCallback
        } else if c == self.callback_toggle_typewriter {
            KeyAction::ToggleTypewriterCallback
        } else if c == self.edit_config {
            KeyAction::EditConfig
        } else if c == self.open_config {
            KeyAction::OpenConfig
        } else if c == self.open_logs {
            KeyAction::OpenLogs
        } else {
            KeyAction::Ignored
        }
    }
}

/// The application settings.
#[derive(Debug, Clone)]
pub struct AppConfig {
    /// Editor command for in-terminal config editing.
    pub config_editor: String,
    /// Editor command for opening the config in a full editor.
    pub big_config_editor: String,
    /// Editor command for opening the log file.
    pub logs_editor: String,
    /// Endpoint the transcription requests are POSTed to.
    pub transcription_api_url: String,
    /// Directory the per-day transcript archives live under.
    pub transcription_results_dir: String,
    /// Keyboard bindings.
    pub key_config: KeyConfig,
    /// Per-microphone entries, keyed by device name; the first entry with
    /// a given name decides.
    pub microphones: Vec<(String, MicrophoneConfig)>,
}

impl AppConfig {
    /// The default settings, with the transcript archive under the given
    /// directory (the platform data directory, or "./transcripts" where
    /// none is known; only the caller can ask the platform).
    pub fn default_with_results_dir(results_dir: String) -> (r: AppConfig)
        ensures
            r.config_editor@ == "hx"@,
            r.big_config_editor@ == "code.cmd"@,
            r.logs_editor@ == "code.cmd"@,
            r.transcription_api_url@ == "https://127.0.0.1:8383/transcribe"@,
            r.transcription_results_dir == results_dir,
            r.key_config == default_key_config(),
            r.microphones@.len() == 0,
    {
        AppConfig {
            config_editor: String::from_str("hx"),
            big_config_editor: String::from_str("code.cmd"),
            logs_editor: String::from_str("code.cmd"),
            transcription_api_url: String::from_str("https://127.0.0.1:8383/transcribe"),
            transcription_results_dir: results_dir,
            key_config: KeyConfig::default(),
            microphones: Vec::new(),
        }
    }
}

impl Default for AppConfig {
    /// The defaults with the fallback archive directory.
    fn default() -> (r: AppConfig)
        ensures
            r.config_editor@ == "hx"@,
            r.big_config_editor@ == "code.cmd"@,
            r.logs_editor@ == "code.cmd"@,
            r.transcription_api_url@ == "https://127.0.0.1:8383/transcribe"@,
            r.transcription_results_dir@ == "./transcripts"@,
            r.key_config == default_key_config(),
            r.microphones@.len() == 0,
    {
        AppConfig::default_with_results_dir(String::from_str("./transcripts"))
    }
}

/// Whether a device of this name is enabled by the configuration: the
/// first entry with the name decides, and a device without an entry is
/// enabled.
pub open spec fn mic_enabled_spec(mics: Seq<(String, MicrophoneConfig)>, name: Seq<char>) -> bool
    decreases mics.len(),
{
    if mics.len() == 0 {
        true
    } else if mics[0].0@ == name {
        mics[0].1.enabled
    } else {
        mic_enabled_spec(mics.drop_first(), name)
    }
}

impl AppConfig {
    /// Whether the named device is enabled.
    pub fn mic_enabled(&self, name: &String) -> (r: bool)
        ensures
            r == mic_enabled_spec(self.microphones@, name@),
    {
        let mut i: usize = 0;
        proof {
            assert(self.microphones@.skip(0) =~= self.microphones@);
        }
        while i < self.microphones.len()
            invariant
                i <= self.microphones@.len(),
                mic_enabled_spec(self.microphones@, name@) == mic_enabled_spec(
                    self.microphones@.skip(i as int),
                    name@,
                ),
            decreases self.microphones@.len() - i,
        {
            proof {
                assert(self.microphones@.skip(i as int)[0] == self.microphones@[i as int]);
                assert(self.microphones@.skip(i as int).drop_first() =~= self.microphones@.skip(
                    i + 1,
                ));
            }
            if self.microphones[i].0.eq(name) {
                return self.microphones[i].1.enabled;
            }
            i = i + 1;
        }
        proof {
            assert(self.microphones@.skip(self.microphones@.len() as int).len() == 0);
        }
        true
    }
}

} // verus!
