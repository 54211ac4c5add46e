//! The event loop's state: the microphone registry, the activity log,
//! the enabled result consumers, and the decisions the loop takes per
//! event.  The loop's plumbing (terminal, channels, timers) lives in the
//! binary around this library; everything the loop decides is here.

use vstd::prelude::*;
use crate::chunk::AudioChunk;
use crate::config::AppConfig;
use crate::hue::HueAuthState;
use crate::numfmt::{dec_digits, u64_to_string};
use crate::segmenter::{process_raw_audio, step_batch, step_state, MicStateView, MicrophoneState};

verus! {

/// One capture device as the loop sees it.  The driver stream handle is
/// owned by the binary; dropping it there stops capture.
#[derive(Debug, Clone)]
pub struct Microphone {
    /// The host-reported device name.
    pub name: String,
    /// The segmentation state, owned by the event loop alone.
    pub state: MicrophoneState,
}

/// The mathematical content of a registered microphone.
pub struct MicrophoneView {
    pub name: Seq<char>,
    pub state: MicStateView,
}

impl View for Microphone {
    type V = MicrophoneView;

    open spec fn view(&self) -> MicrophoneView {
        MicrophoneView { name: self.name@, state: self.state@ }
    }
}

impl Microphone {
    /// A device as it joins the registry: idle when enabled, else off.
    pub fn new(name: String, enabled: bool) -> (r: Microphone)
        ensures
            r.name == name,
            enabled ==> r.state@ is WaitingForVoiceActivity,
            !enabled ==> r.state@ is Disabled,
    {
        Microphone {
            name,
            state: if enabled {
                MicrophoneState::WaitingForVoiceActivity
            } else {
                MicrophoneState::Disabled
            },
        }
    }
}

/// The consumers a transcription result is dispatched to.
#[derive(Debug, Clone, Copy, PartialEq, Eq, Structural)]
pub enum TranscriptionCallback {
    /// Append the result to the per-day transcript archive.
    WriteJsonLine,
    /// Hand the recognized text to the lights controller.
    ChatLights,
}

/// Whether the callback list has the lights consumer enabled.
pub open spec fn has_chat_lights(cbs: Seq<TranscriptionCallback>) -> bool {
    exists|i: int| 0 <= i < cbs.len() && cbs[i] is ChatLights
}

/// The state the event loop owns.
pub struct AppState {
    /// The loaded configuration.
    pub config: AppConfig,
    /// Enabled result consumers, dispatched in order.
    pub transcription_callbacks: Vec<TranscriptionCallback>,
    /// Lines shown in the activity pane, oldest first.
    pub activity_log: Vec<String>,
    /// Authentication state of the lights bridge.
    pub hue_auth_state: HueAuthState,
    /// The registered capture devices.
    pub microphones: Vec<Microphone>,
}

/// The index of the first registered device with this name.
pub open spec fn find_mic(mics: Seq<Microphone>, name: Seq<char>) -> Option<int> {
    if exists|i: int| 0 <= i < mics.len() && mics[i]@.name == name {
        Some(choose|i: int| 0 <= i < mics.len() && mics[i]@.name == name && forall|j: int|
            0 <= j < i ==> mics[j]@.name != name)
    } else {
        None
    }
}

/// What consuming one raw chunk did.
pub enum RouteOutcome {
    /// The chunk closed an utterance; here is its batch chunk.
    Batch(AudioChunk),
    /// The chunk was consumed without closing an utterance.
    NoBatch,
    /// No device of that name is registered; the chunk was dropped.
    UnknownMic,
}

impl AppState {
    /// A device state ready to consume a chunk of `add_len` samples at
    /// time `now`: well-formed, not in the reserved push-to-talk states,
    /// with a last-activity stamp not in the future and room to append.
    pub open spec fn mic_ready(st: MicStateView, now: u64, add_len: nat) -> bool {
        &&& st.wf()
        &&& !st.is_push_to_talk()
        &&& (st matches MicStateView::VoiceActivated(a) ==> a.last_activity <= now
            && a.data_so_far.len() + add_len <= usize::MAX)
    }

    /// A fresh state around a configuration: the archive consumer on, an
    /// empty log, no bridge authentication, no devices yet.
    pub fn new(config: AppConfig) -> (r: AppState)
        ensures
            r.config == config,
            r.transcription_callbacks@ =~= seq![TranscriptionCallback::WriteJsonLine],
            r.activity_log@.len() == 0,
            r.hue_auth_state is Unauthenticated,
            r.microphones@.len() == 0,
    {
        let mut callbacks: Vec<TranscriptionCallback> = Vec::new();
        callbacks.push(TranscriptionCallback::WriteJsonLine);
        AppState {
            config,
            transcription_callbacks: callbacks,
            activity_log: Vec::new(),
            hue_auth_state: HueAuthState::Unauthenticated,
            microphones: Vec::new(),
        }
    }

    /// Append one line to the activity log.
    pub fn push_activity_log(&mut self, entry: String)
        ensures
            final(self).activity_log@ == old(self).activity_log@.push(entry),
            final(self).config == old(self).config,
            final(self).transcription_callbacks == old(self).transcription_callbacks,
            final(self).hue_auth_state == old(self).hue_auth_state,
            final(self).microphones == old(self).microphones,
    {
        self.activity_log.push(entry);
    }

    /// Register a device: a device of the same name is replaced, a new
    /// name is appended.
    pub fn add_microphone(&mut self, mic: Microphone)
        ensures
            final(self).config == old(self).config,
            final(self).transcription_callbacks == old(self).transcription_callbacks,
            final(self).activity_log == old(self).activity_log,
            final(self).hue_auth_state == old(self).hue_auth_state,
            match find_mic(old(self).microphones@, mic@.name) {
                Some(i) => final(self).microphones@ == old(self).microphones@.update(i, mic),
                None => final(self).microphones@ == old(self).microphones@.push(mic),
            },
    {
        let mut i: usize = 0;
        while i < self.microphones.len()
            invariant
                i <= self.microphones@.len(),
                *self == *old(self),
                forall|j: int| 0 <= j < i ==> (#[trigger] self.microphones@[j])@.name != mic@.name,
            decreases self.microphones@.len() - i,
        {
            if self.microphones[i].name.eq(&mic.name) {
                proof {
                    let ghost mics = self.microphones@;
                    assert(mics[i as int]@.name == mic@.name);
                    assert(find_mic(mics, mic@.name) == Some(i as int)) by {
                        assert(exists|k: int| 0 <= k < mics.len() && mics[k]@.name == mic@.name);
                        let w = choose|k: int|
                            0 <= k < mics.len() && mics[k]@.name == mic@.name && forall|j: int|
                                0 <= j < k ==> mics[j]@.name != mic@.name;
                        assert(0 <= i < mics.len() && mics[i as int]@.name == mic@.name && forall|
                            j: int,
                        | 0 <= j < i ==> mics[j]@.name != mic@.name);
                        if w != i as int {
                            if w < i as int {
                                assert(mics[w]@.name == mic@.name);
                            } else {
                                assert(mics[i as int]@.name != mic@.name);
                            }
                        }
                    }
                }
                self.microphones.set(i, mic);
                return ;
            }
            i = i + 1;
        }
        proof {
            assert(find_mic(self.microphones@, mic@.name) is None);
        }
        self.microphones.push(mic);
    }

    /// Whether the lights consumer is enabled.
    pub fn wants_chat_lights(&self) -> (r: bool)
        ensures
            r == has_chat_lights(self.transcription_callbacks@),
    {
        let mut i: usize = 0;
        while i < self.transcription_callbacks.len()
            invariant
                i <= self.transcription_callbacks@.len(),
                forall|j: int|
                    0 <= j < i ==> !((#[trigger] self.transcription_callbacks@[j]) is ChatLights),
            decreases self.transcription_callbacks@.len() - i,
        {
            if matches!(self.transcription_callbacks[i], TranscriptionCallback::ChatLights) {
                return true;
            }
            i = i + 1;
        }
        false
    }

    /// Toggle the lights consumer: drop every ChatLights entry if one is
    /// enabled, keeping the others in order, else append one.
    pub fn toggle_chat_lights(&mut self)
        ensures
            final(self).config == old(self).config,
            final(self).activity_log == old(self).activity_log,
            final(self).hue_auth_state == old(self).hue_auth_state,
            final(self).microphones == old(self).microphones,
            has_chat_lights(final(self).transcription_callbacks@) == !has_chat_lights(
                old(self).transcription_callbacks@,
            ),
            !has_chat_lights(old(self).transcription_callbacks@) ==> final(self).transcription_callbacks@
                == old(self).transcription_callbacks@.push(TranscriptionCallback::ChatLights),
            has_chat_lights(old(self).transcription_callbacks@) ==> final(self).transcription_callbacks@
                == old(self).transcription_callbacks@.filter(
                (|c: TranscriptionCallback| !(c is ChatLights)),
            ),
    {
        if self.wants_chat_lights() {
            let mut kept: Vec<TranscriptionCallback> = Vec::new();
            let mut i: usize = 0;
            proof {
                assert(self.transcription_callbacks@.subrange(0, 0).filter(
                    |c: TranscriptionCallback| !(c is ChatLights),
                ) =~= Seq::<TranscriptionCallback>::empty());
            }
            while i < self.transcription_callbacks.len()
                invariant
                    i <= self.transcription_callbacks@.len(),
                    kept@ == self.transcription_callbacks@.subrange(0, i as int).filter(
                        |c: TranscriptionCallback| !(c is ChatLights),
                    ),
                decreases self.transcription_callbacks@.len() - i,
            {
                let cb = self.transcription_callbacks[i];
                proof {
                    let pred = |c: TranscriptionCallback| !(c is ChatLights);
                    let prefix = self.transcription_callbacks@.subrange(0, i as int);
                    let longer = self.transcription_callbacks@.subrange(0, i + 1 as int);
                    assert(longer =~= prefix.push(cb));
                    reveal(Seq::filter);
                    assert(longer.drop_last() =~= prefix);
                    assert(longer.last() == cb);
                    assert(longer.filter(pred) == if pred(cb) {
                        prefix.filter(pred).push(cb)
                    } else {
                        prefix.filter(pred)
                    });
                }
                if !matches!(cb, TranscriptionCallback::ChatLights) {
                    kept.push(cb);
                }
                i = i + 1;
            }
            proof {
                assert(self.transcription_callbacks@.subrange(
                    0,
                    self.transcription_callbacks@.len() as int,
                ) =~= self.transcription_callbacks@);
                lemma_filtered_has_no_chat_lights(self.transcription_callbacks@);
            }
            self.transcription_callbacks = kept;
        } else {
            self.transcription_callbacks.push(TranscriptionCallback::ChatLights);
            proof {
                let cbs = self.transcription_callbacks@;
                assert(cbs[cbs.len() - 1] is ChatLights);
            }
        }
    }

    /// Consume one raw chunk: find the device it came from, step that
    /// device's state machine, and hand back the batch chunk if this
    /// chunk closed an utterance.  A chunk from an unknown device is
    /// dropped; the caller logs a warning.
    pub fn route_raw_chunk(&mut self, chunk: AudioChunk, now: u64) -> (out: RouteOutcome)
        requires
            chunk.wf(),
            forall|i: int|
                0 <= i < old(self).microphones@.len() ==> Self::mic_ready(
                    (#[trigger] old(self).microphones@[i])@.state,
                    now,
                    chunk.data@.len(),
                ),
        ensures
            final(self).config == old(self).config,
            final(self).transcription_callbacks == old(self).transcription_callbacks,
            final(self).activity_log == old(self).activity_log,
            final(self).hue_auth_state == old(self).hue_auth_state,
            match find_mic(old(self).microphones@, chunk@.mic_name) {
                Some(i) => {
                    &&& final(self).microphones@.len() == old(self).microphones@.len()
                    &&& final(self).microphones@[i]@.name == old(self).microphones@[i]@.name
                    &&& final(self).microphones@[i]@.state == step_state(
                        old(self).microphones@[i]@.state,
                        chunk@,
                        now,
                    )
                    &&& forall|j: int|
                        0 <= j < old(self).microphones@.len() && j != i
                            ==> final(self).microphones@[j] == old(self).microphones@[j]
                    &&& (match out {
                        RouteOutcome::Batch(b) => step_batch(
                            old(self).microphones@[i]@.state,
                            chunk@,
                            now,
                        ) == Some(b@) && crate::chunk::samples_in_range(b.data@),
                        RouteOutcome::NoBatch => step_batch(
                            old(self).microphones@[i]@.state,
                            chunk@,
                            now,
                        ) is None,
                        RouteOutcome::UnknownMic => false,
                    })
                    &&& final(self).microphones@[i]@.state.wf()
                    &&& !final(self).microphones@[i]@.state.is_push_to_talk()
                    &&& (final(self).microphones@[i]@.state matches MicStateView::VoiceActivated(
                        a,
                    ) ==> a.last_activity <= now)
                },
                None => out is UnknownMic && final(self).microphones == old(self).microphones,
            },
    {
        let mut i: usize = 0;
        while i < self.microphones.len()
            invariant
                i <= self.microphones@.len(),
                *self == *old(self),
                chunk.wf(),
                forall|j: int|
                    0 <= j < self.microphones@.len() ==> Self::mic_ready(
                        (#[trigger] self.microphones@[j])@.state,
                        now,
                        chunk.data@.len(),
                    ),
                forall|j: int|
                    0 <= j < i ==> (#[trigger] self.microphones@[j])@.name != chunk@.mic_name,
            decreases self.microphones@.len() - i,
        {
            if self.microphones[i].name.eq(&chunk.mic_name) {
                let ghost mics = self.microphones@;
                proof {
                    assert(mics[i as int]@.name == chunk@.mic_name);
                    assert(find_mic(mics, chunk@.mic_name) == Some(i as int)) by {
                        assert(exists|k: int|
                            0 <= k < mics.len() && mics[k]@.name == chunk@.mic_name);
                        let w = choose|k: int|
                            0 <= k < mics.len() && mics[k]@.name == chunk@.mic_name && forall|
                                j: int,
                            | 0 <= j < k ==> mics[j]@.name != chunk@.mic_name;
                        assert(0 <= i < mics.len() && mics[i as int]@.name == chunk@.mic_name
                            && forall|j: int|
                            0 <= j < i ==> mics[j]@.name != chunk@.mic_name);
                        if w < i as int {
                            assert(mics[w]@.name == chunk@.mic_name);
                        } else if w > i as int {
                            assert(mics[i as int]@.name != chunk@.mic_name);
                        }
                    }
                }
                let ghost st0 = self.microphones@[i as int]@.state;
                let mut mic = self.microphones.remove(i);
                let batch = process_raw_audio(chunk, &mut mic.state, now);
                self.microphones.insert(i, mic);
                proof {
                    assert(self.microphones@ =~= mics.update(i as int, mic));
                    let stepped = step_state(st0, chunk@, now);
                    assert(mic.state@ == stepped);
                    assert(!stepped.is_push_to_talk()) by {
                        match st0 {
                            MicStateView::Disabled => {},
                            MicStateView::WaitingForVoiceActivity => {},
                            MicStateView::VoiceActivated(_) => {},
                            _ => {
                                assert(false);
                            },
                        }
                    }
                    assert(mic.state@ matches MicStateView::VoiceActivated(a) ==> a.last_activity
                        <= now) by {
                        match st0 {
                            MicStateView::Disabled => {},
                            MicStateView::WaitingForVoiceActivity => {},
                            MicStateView::VoiceActivated(_) => {},
                            _ => {
                                assert(false);
                            },
                        }
                    }
                }
                return match batch {
                    Some(b) => RouteOutcome::Batch(b),
                    None => RouteOutcome::NoBatch,
                };
            }
            i = i + 1;
        }
        proof {
            assert(find_mic(self.microphones@, chunk@.mic_name) is None);
        }
        RouteOutcome::UnknownMic
    }
}

/// Filtering out ChatLights leaves no ChatLights.
proof fn lemma_filtered_has_no_chat_lights(cbs: Seq<TranscriptionCallback>)
    ensures
        !has_chat_lights(cbs.filter(|c: TranscriptionCallback| !(c is ChatLights))),
{
    let pred = |c: TranscriptionCallback| !(c is ChatLights);
    let filtered = cbs.filter(pred);
    assert forall|i: int| 0 <= i < filtered.len() implies !((#[trigger] filtered[i]) is ChatLights)
        by {
        cbs.lemma_filter_pred(pred, i);
    }
}

/// The status line of one device in the microphone pane.
pub fn mic_status_label(state: &MicrophoneState) -> (r: String)
    ensures
        state@ is Disabled ==> r@ == "DISABLED"@,
        state@ is WaitingForPushToTalk ==> r@ == "IDLE - WaitingForPushToTalk"@,
        state@ is WaitingForVoiceActivity ==> r@ == "IDLE - WaitingForVoiceActivity"@,
        state@ matches MicStateView::VoiceActivated(a) ==> r@ == "LISTENING - Samples: "@
            + dec_digits(a.data_so_far.len()),
        state@ matches MicStateView::PushToTalkActivated(a) ==> r@ == "LISTENING - Samples: "@
            + dec_digits(a.data_so_far.len()),
{
    match state {
        MicrophoneState::Disabled => String::from_str("DISABLED"),
        MicrophoneState::WaitingForPushToTalk => String::from_str("IDLE - WaitingForPushToTalk"),
        MicrophoneState::WaitingForVoiceActivity => String::from_str(
            "IDLE - WaitingForVoiceActivity",
        ),
        MicrophoneState::VoiceActivated(a) => {
            let mut r = String::from_str("LISTENING - Samples: ");
            let n = u64_to_string(a.data_so_far.len() as u64);
            r.append(n.as_str());
            r
        },
        MicrophoneState::PushToTalkActivated(a) => {
            let mut r = String::from_str("LISTENING - Samples: ");
            let n = u64_to_string(a.data_so_far.len() as u64);
            r.append(n.as_str());
            r
        },
    }
}

/// The synthetic name of a device whose name the host cannot report, from
/// its position in the host's enumeration.
pub fn fallback_device_name(index: u64) -> (r: String)
    ensures
        r@ == "Unknown-"@ + dec_digits(index as nat),
{
    let mut r = String::from_str("Unknown-");
    let n = u64_to_string(index);
    r.append(n.as_str());
    r
}

} // verus!
