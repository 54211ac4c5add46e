//! The per-device voice-activity segmenter.
//!
//! One `MicrophoneState` per device, owned by the event loop, turns the
//! stream of raw chunks into batch chunks: an utterance opens on the
//! first active chunk, accumulates every chunk that arrives while it is
//! open, and closes once a silent chunk arrives more than one second
//! after the last active one.  The closing silent chunk is not included:
//! the deadline is checked before the chunk would be appended.
//!
//! If a device changes its reported sample rate mid-utterance, the rate
//! recorded when the utterance opened is kept and reported in the batch
//! chunk (carry-through policy).

use vstd::prelude::*;
use crate::chunk::{chunk_active_spec, chunk_is_active, samples_in_range, AudioChunk, ChunkView};

verus! {

/// Milliseconds of silence tolerated since the last active chunk; an
/// utterance closes only strictly after this much silence.
pub const HANG_TIME_MS: u64 = 1000;

/// Accumulator of an open utterance.
#[derive(Debug, Clone)]
pub struct ActiveMicrophoneState {
    /// When the utterance opened, in milliseconds.
    pub activity_started: u64,
    /// When the last active chunk arrived, in milliseconds.
    pub last_activity: u64,
    /// Concatenation of the samples of every chunk appended so far.
    pub data_so_far: Vec<u32>,
    /// Sample rate recorded when the utterance opened.
    pub sample_rate: u32,
}

/// The per-device segmentation state.
#[derive(Debug, Clone)]
pub enum MicrophoneState {
    /// The device is configured off: every chunk is discarded.
    Disabled,
    /// Reserved for a push-to-talk mode; never entered by this pipeline.
    WaitingForPushToTalk,
    /// Reserved for a push-to-talk mode; never entered by this pipeline.
    PushToTalkActivated(ActiveMicrophoneState),
    /// Idle, watching chunk amplitudes for the start of an utterance.
    WaitingForVoiceActivity,
    /// An utterance is open and accumulating samples.
    VoiceActivated(ActiveMicrophoneState),
}

/// The mathematical content of an open utterance.
pub struct ActiveStateView {
    pub activity_started: u64,
    pub last_activity: u64,
    pub data_so_far: Seq<u32>,
    pub sample_rate: u32,
}

/// The mathematical content of a microphone state.
pub enum MicStateView {
    Disabled,
    WaitingForPushToTalk,
    PushToTalkActivated(ActiveStateView),
    WaitingForVoiceActivity,
    VoiceActivated(ActiveStateView),
}

impl View for ActiveMicrophoneState {
    type V = ActiveStateView;

    open spec fn view(&self) -> ActiveStateView {
        ActiveStateView {
            activity_started: self.activity_started,
            last_activity: self.last_activity,
            data_so_far: self.data_so_far@,
            sample_rate: self.sample_rate,
        }
    }
}

impl View for MicrophoneState {
    type V = MicStateView;

    open spec fn view(&self) -> MicStateView {
        match self {
            MicrophoneState::Disabled => MicStateView::Disabled,
            MicrophoneState::WaitingForPushToTalk => MicStateView::WaitingForPushToTalk,
            MicrophoneState::PushToTalkActivated(a) => MicStateView::PushToTalkActivated(a@),
            MicrophoneState::WaitingForVoiceActivity => MicStateView::WaitingForVoiceActivity,
            MicrophoneState::VoiceActivated(a) => MicStateView::VoiceActivated(a@),
        }
    }
}

impl MicStateView {
    /// Accumulated samples stay within [-1.0, 1.0].
    pub open spec fn wf(&self) -> bool {
        match self {
            MicStateView::VoiceActivated(a) => samples_in_range(a.data_so_far),
            MicStateView::PushToTalkActivated(a) => samples_in_range(a.data_so_far),
            _ => true,
        }
    }

    /// The reserved push-to-talk states; the voice pipeline never enters
    /// them, and treats them as a programming error.
    pub open spec fn is_push_to_talk(&self) -> bool {
        self is WaitingForPushToTalk || self is PushToTalkActivated
    }
}

impl MicrophoneState {
    pub open spec fn wf(&self) -> bool {
        self@.wf()
    }

    pub open spec fn is_push_to_talk(&self) -> bool {
        self@.is_push_to_talk()
    }
}

/// The state after one raw chunk is consumed at time `now`.
///
/// Empty chunks are discarded before the amplitude is computed.  In an
/// open utterance a silent chunk first faces the hang-time check: if the
/// deadline has passed the utterance closes without it, otherwise it is
/// appended like an active chunk (but does not refresh `last_activity`).
pub open spec fn step_state(st: MicStateView, c: ChunkView, now: u64) -> MicStateView {
    match st {
        MicStateView::Disabled => MicStateView::Disabled,
        MicStateView::WaitingForPushToTalk => st,
        MicStateView::PushToTalkActivated(_) => st,
        MicStateView::WaitingForVoiceActivity => {
            if c.data.len() > 0 && chunk_active_spec(c.data) {
                MicStateView::VoiceActivated(
                    ActiveStateView {
                        activity_started: now,
                        last_activity: now,
                        data_so_far: c.data,
                        sample_rate: c.sample_rate,
                    },
                )
            } else {
                st
            }
        },
        MicStateView::VoiceActivated(a) => {
            if c.data.len() == 0 {
                st
            } else if chunk_active_spec(c.data) {
                MicStateView::VoiceActivated(
                    ActiveStateView {
                        activity_started: a.activity_started,
                        last_activity: now,
                        data_so_far: a.data_so_far + c.data,
                        sample_rate: a.sample_rate,
                    },
                )
            } else if now > a.last_activity + HANG_TIME_MS {
                MicStateView::WaitingForVoiceActivity
            } else {
                MicStateView::VoiceActivated(
                    ActiveStateView {
                        activity_started: a.activity_started,
                        last_activity: a.last_activity,
                        data_so_far: a.data_so_far + c.data,
                        sample_rate: a.sample_rate,
                    },
                )
            }
        },
    }
}

/// The batch chunk emitted when one raw chunk is consumed at time `now`:
/// the whole accumulated utterance, tagged with the device and channel
/// count of the closing chunk and the rate recorded when the utterance
/// opened.  Only a silent chunk past the hang deadline emits one.
pub open spec fn step_batch(st: MicStateView, c: ChunkView, now: u64) -> Option<ChunkView> {
    match st {
        MicStateView::VoiceActivated(a) => {
            if c.data.len() > 0 && !chunk_active_spec(c.data) && now > a.last_activity
                + HANG_TIME_MS {
                Some(
                    ChunkView {
                        mic_name: c.mic_name,
                        channels: c.channels,
                        sample_rate: a.sample_rate,
                        data: a.data_so_far,
                    },
                )
            } else {
                None
            }
        },
        _ => None,
    }
}

/// View of an optional chunk.
pub open spec fn option_chunk_view(o: Option<AudioChunk>) -> Option<ChunkView> {
    match o {
        Some(c) => Some(c@),
        None => None,
    }
}

/// Consume one raw chunk for one device: compute the chunk's voice
/// activity, advance the device's state machine, and return the batch
/// chunk of a closing utterance, if any.
pub fn process_raw_audio(chunk: AudioChunk, state: &mut MicrophoneState, now: u64) -> (batch: Option<
    AudioChunk,
>)
    requires
        chunk.wf(),
        old(state).wf(),
        !old(state).is_push_to_talk(),
        old(state)@ matches MicStateView::VoiceActivated(a) ==> a.last_activity <= now
            && a.data_so_far.len() + chunk.data@.len() <= usize::MAX,
    ensures
        final(state)@ == step_state(old(state)@, chunk@, now),
        option_chunk_view(batch) == step_batch(old(state)@, chunk@, now),
        final(state).wf(),
        batch matches Some(b) ==> samples_in_range(b.data@),
{
    let is_empty: bool = chunk.data.len() == 0;
    let active: bool = if is_empty {
        false
    } else {
        chunk_is_active(&chunk.data)
    };
    let mut cur = MicrophoneState::WaitingForVoiceActivity;
    core::mem::swap(state, &mut cur);
    match cur {
        MicrophoneState::Disabled => {
            *state = MicrophoneState::Disabled;
            None
        },
        MicrophoneState::WaitingForVoiceActivity => {
            if active {
                *state = MicrophoneState::VoiceActivated(
                    ActiveMicrophoneState {
                        activity_started: now,
                        last_activity: now,
                        data_so_far: chunk.data,
                        sample_rate: chunk.sample_rate,
                    },
                );
            } else {
                *state = MicrophoneState::WaitingForVoiceActivity;
            }
            None
        },
        MicrophoneState::VoiceActivated(a) => {
            if is_empty {
                *state = MicrophoneState::VoiceActivated(a);
                None
            } else if active {
                let mut data = a.data_so_far;
                let mut incoming = chunk.data;
                data.append(&mut incoming);
                *state = MicrophoneState::VoiceActivated(
                    ActiveMicrophoneState {
                        activity_started: a.activity_started,
                        last_activity: now,
                        data_so_far: data,
                        sample_rate: a.sample_rate,
                    },
                );
                None
            } else if now - a.last_activity > HANG_TIME_MS {
                let batch = AudioChunk {
                    mic_name: chunk.mic_name,
                    channels: chunk.channels,
                    sample_rate: a.sample_rate,
                    data: a.data_so_far,
                };
                *state = MicrophoneState::WaitingForVoiceActivity;
                Some(batch)
            } else {
                let mut data = a.data_so_far;
                let mut incoming = chunk.data;
                data.append(&mut incoming);
                *state = MicrophoneState::VoiceActivated(
                    ActiveMicrophoneState {
                        activity_started: a.activity_started,
                        last_activity: a.last_activity,
                        data_so_far: data,
                        sample_rate: a.sample_rate,
                    },
                );
                None
            }
        },
        MicrophoneState::WaitingForPushToTalk => {
            proof {
                assert(false);
            }
            *state = MicrophoneState::WaitingForPushToTalk;
            None
        },
        MicrophoneState::PushToTalkActivated(a) => {
            proof {
                assert(false);
            }
            *state = MicrophoneState::PushToTalkActivated(a);
            None
        },
    }
}

/// The state after a whole sequence of raw chunks, paired with arrival
/// times, and the batch chunks they emit, in order.
pub open spec fn run_steps(st: MicStateView, events: Seq<(ChunkView, u64)>) -> (MicStateView, Seq<
    ChunkView,
>)
    decreases events.len(),
{
    if events.len() == 0 {
        (st, Seq::empty())
    } else {
        let c = events[0].0;
        let now = events[0].1;
        let st1 = step_state(st, c, now);
        let rest = run_steps(st1, events.drop_first());
        let emitted = match step_batch(st, c, now) {
            Some(b) => seq![b] + rest.1,
            None => rest.1,
        };
        (rest.0, emitted)
    }
}

/// A disabled device emits no batch chunk, whatever arrives, and stays
/// disabled.
pub proof fn lemma_disabled_emits_nothing(events: Seq<(ChunkView, u64)>)
    ensures
        run_steps(MicStateView::Disabled, events).0 is Disabled,
        run_steps(MicStateView::Disabled, events).1 == Seq::<ChunkView>::empty(),
    decreases events.len(),
{
    if events.len() > 0 {
        lemma_disabled_emits_nothing(events.drop_first());
    }
}

/// If no chunk of the input strictly exceeds the 0.01 amplitude gate, an
/// idle device emits no batch chunk and stays idle.
pub proof fn lemma_all_silent_emits_nothing(events: Seq<(ChunkView, u64)>)
    requires
        forall|i: int| 0 <= i < events.len() ==> !chunk_active_spec(#[trigger] events[i].0.data),
    ensures
        run_steps(MicStateView::WaitingForVoiceActivity, events).0 is WaitingForVoiceActivity,
        run_steps(MicStateView::WaitingForVoiceActivity, events).1 == Seq::<ChunkView>::empty(),
    decreases events.len(),
{
    if events.len() > 0 {
        assert(!chunk_active_spec(events[0].0.data));
        lemma_all_silent_emits_nothing(events.drop_first());
    }
}

/// The samples one step appends to the open utterance: the chunk's
/// samples when it opens an utterance or arrives inside one before the
/// hang deadline, and nothing otherwise.
pub open spec fn appended_samples(st: MicStateView, c: ChunkView, now: u64) -> Seq<u32> {
    match st {
        MicStateView::WaitingForVoiceActivity => {
            if c.data.len() > 0 && chunk_active_spec(c.data) {
                c.data
            } else {
                Seq::empty()
            }
        },
        MicStateView::VoiceActivated(a) => {
            if c.data.len() == 0 {
                Seq::empty()
            } else if chunk_active_spec(c.data) {
                c.data
            } else if now > a.last_activity + HANG_TIME_MS {
                Seq::empty()
            } else {
                c.data
            }
        },
        _ => Seq::empty(),
    }
}

/// Concatenation of all samples appended over a run.
pub open spec fn run_appended(st: MicStateView, events: Seq<(ChunkView, u64)>) -> Seq<u32>
    decreases events.len(),
{
    if events.len() == 0 {
        Seq::empty()
    } else {
        appended_samples(st, events[0].0, events[0].1) + run_appended(
            step_state(st, events[0].0, events[0].1),
            events.drop_first(),
        )
    }
}

/// Samples of the utterance currently open, if one is.
pub open spec fn open_samples(st: MicStateView) -> Seq<u32> {
    match st {
        MicStateView::VoiceActivated(a) => a.data_so_far,
        _ => Seq::empty(),
    }
}

/// Concatenation of the samples of a sequence of batch chunks.
pub open spec fn concat_batch_samples(bs: Seq<ChunkView>) -> Seq<u32>
    decreases bs.len(),
{
    if bs.len() == 0 {
        Seq::empty()
    } else {
        bs[0].data + concat_batch_samples(bs.drop_first())
    }
}

/// Conservation of utterance samples: over any run, the samples of the
/// emitted batch chunks concatenated in order, followed by whatever is
/// still accumulating, are exactly the initial accumulator followed by
/// every sample observed while an utterance was open, in arrival order.
/// In particular a run that starts idle and ends idle emits batches whose
/// concatenated samples equal the concatenated samples of the chunks
/// observed between each utterance's opening and its close.
pub proof fn lemma_sample_conservation(st: MicStateView, events: Seq<(ChunkView, u64)>)
    ensures
        open_samples(st) + run_appended(st, events) == concat_batch_samples(
            run_steps(st, events).1,
        ) + open_samples(run_steps(st, events).0),
    decreases events.len(),
{
    if events.len() == 0 {
        assert(open_samples(st) + Seq::<u32>::empty() =~= open_samples(st));
        assert(concat_batch_samples(Seq::<ChunkView>::empty()) + open_samples(st) =~= open_samples(
            st,
        ));
    } else {
        let c = events[0].0;
        let now = events[0].1;
        let st1 = step_state(st, c, now);
        let rest = events.drop_first();
        lemma_sample_conservation(st1, rest);
        let run1 = run_steps(st1, rest);
        match step_batch(st, c, now) {
            Some(b) => {
                assert(b.data == open_samples(st));
                assert(open_samples(st1) =~= Seq::<u32>::empty());
                assert(appended_samples(st, c, now) =~= Seq::<u32>::empty());
                assert(concat_batch_samples(seq![b] + run1.1) == b.data + concat_batch_samples(
                    run1.1,
                )) by {
                    lemma_concat_batch_prepend(b, run1.1);
                }
                assert(open_samples(st) + run_appended(st, events) =~= b.data + (open_samples(st1)
                    + run_appended(st1, rest)));
                assert(b.data + (concat_batch_samples(run1.1) + open_samples(run1.0)) =~= (b.data
                    + concat_batch_samples(run1.1)) + open_samples(run1.0));
            },
            None => {
                assert(open_samples(st1) =~= open_samples(st) + appended_samples(st, c, now));
                assert(open_samples(st) + run_appended(st, events) =~= open_samples(st1)
                    + run_appended(st1, rest));
            },
        }
    }
}

/// A run that starts idle and ends idle has emitted, in order, exactly
/// the samples observed while an utterance was open.
pub proof fn lemma_idle_run_concat(events: Seq<(ChunkView, u64)>)
    requires
        run_steps(MicStateView::WaitingForVoiceActivity, events).0 is WaitingForVoiceActivity,
    ensures
        concat_batch_samples(run_steps(MicStateView::WaitingForVoiceActivity, events).1)
            == run_appended(MicStateView::WaitingForVoiceActivity, events),
{
    let st = MicStateView::WaitingForVoiceActivity;
    lemma_sample_conservation(st, events);
    assert(open_samples(st) + run_appended(st, events) =~= run_appended(st, events));
    assert(concat_batch_samples(run_steps(st, events).1) + open_samples(run_steps(st, events).0)
        =~= concat_batch_samples(run_steps(st, events).1));
}

/// Prepending one batch to a batch sequence prepends its samples.
proof fn lemma_concat_batch_prepend(b: ChunkView, bs: Seq<ChunkView>)
    ensures
        concat_batch_samples(seq![b] + bs) == b.data + concat_batch_samples(bs),
{
    assert((seq![b] + bs).drop_first() =~= bs);
    assert((seq![b] + bs)[0] == b);
}

/// At exactly the hang deadline (one second of silence, not more) the
/// utterance stays open and the silent chunk is appended; closing needs
/// strictly more.
pub proof fn lemma_hang_deadline_is_strict(a: ActiveStateView, c: ChunkView, now: u64)
    requires
        now == a.last_activity + HANG_TIME_MS,
        c.data.len() > 0,
        !chunk_active_spec(c.data),
    ensures
        step_batch(MicStateView::VoiceActivated(a), c, now) is None,
        step_state(MicStateView::VoiceActivated(a), c, now) matches MicStateView::VoiceActivated(
            a1,
        ) && a1.data_so_far == a.data_so_far + c.data,
{
}

/// While an utterance is open, each consumed chunk grows the accumulator
/// by exactly the chunk's length: the accumulator is unbounded, no cap is
/// applied.
pub proof fn lemma_open_utterance_grows(a: ActiveStateView, c: ChunkView, now: u64)
    requires
        c.data.len() > 0,
        step_batch(MicStateView::VoiceActivated(a), c, now) is None,
    ensures
        step_state(MicStateView::VoiceActivated(a), c, now) matches MicStateView::VoiceActivated(
            a1,
        ) && a1.data_so_far.len() == a.data_so_far.len() + c.data.len(),
{
}

} // verus!
