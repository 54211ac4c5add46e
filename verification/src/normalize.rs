//! Normalization of batch chunks to the canonical format: mono, 16 kHz.
//!
//! Downmixing replaces each frame of interleaved samples with its mean,
//! computed exactly in fixed point and truncated toward zero at 2^-32;
//! a mono chunk is left untouched.  Resampling to 16 kHz is done by an
//! FFT resampler (the rubato crate) that works on machine floats, which
//! Verus does not reason about, so the resampler itself runs in the
//! unverified binary: this module prepares its fixed-size, zero-padded
//! input chunks, reassembles its outputs, and checks the canonical-format
//! invariants of the final chunk.

use vstd::prelude::*;
use vstd::arithmetic::div_mod::{lemma_div_is_ordered, lemma_div_multiples_vanish,
    lemma_fundamental_div_mod};
use crate::chunk::{samples_in_range, AudioChunk, ChunkView};
use crate::sample::{fixed_encode, fixed_to_sample, sample_mag, sample_val_fixed};
use crate::MicError;

verus! {

/// The canonical sample rate every batch chunk is brought to.
pub const TARGET_SAMPLE_RATE: u32 = 16_000;

/// Input frames handed to the FFT resampler per call.
pub const RESAMPLER_CHUNK_SIZE: usize = 441;

/// Sum of the signed fixed-point values of a sample sequence.
pub open spec fn sum_val(s: Seq<u32>) -> int
    decreases s.len(),
{
    if s.len() == 0 {
        0
    } else {
        sum_val(s.drop_last()) + sample_val_fixed(s.last())
    }
}

/// Division truncating toward zero, as machine integer division does.
pub open spec fn trunc_div(a: int, b: int) -> int {
    if a >= 0 {
        a / b
    } else {
        -((-a) / b)
    }
}

/// Fixed-point mean of a frame, truncated toward zero.
pub open spec fn frame_mean(frame: Seq<u32>) -> int {
    trunc_div(sum_val(frame), frame.len() as int)
}

/// The mean of a frame, encoded back into a sample bit pattern.
pub open spec fn mean_sample_spec(frame: Seq<u32>) -> u32 {
    let m = frame_mean(frame);
    fixed_encode(
        m < 0,
        (if m < 0 {
            -m
        } else {
            m
        }) as nat,
    )
}

/// Frame i of an interleaved sequence with c channels.
pub open spec fn frame_of(s: Seq<u32>, c: nat, i: int) -> Seq<u32> {
    s.subrange(i * c, i * c + c)
}

/// The downmixed sample sequence: one encoded frame mean per frame.
pub open spec fn downmix_seq(s: Seq<u32>, c: nat) -> Seq<u32> {
    Seq::new(s.len() / c, |i: int| mean_sample_spec(frame_of(s, c, i)))
}

/// What downmixing makes of a chunk: mono is untouched, anything else is
/// folded frame-by-frame to one channel.
pub open spec fn downmix_view(c: ChunkView) -> ChunkView {
    ChunkView {
        mic_name: c.mic_name,
        channels: 1,
        sample_rate: c.sample_rate,
        data: if c.channels == 1 {
            c.data
        } else {
            downmix_seq(c.data, c.channels as nat)
        },
    }
}

/// Mean of one frame of samples, encoded as a sample.
fn mean_sample(data: &Vec<u32>, start: usize, c: usize) -> (b: u32)
    requires
        1 <= c <= 0xFFFF,
        start + c <= data@.len(),
        samples_in_range(data@),
    ensures
        b == mean_sample_spec(data@.subrange(start as int, start as int + c)),
        crate::sample::sample_in_range(b),
{
    let ghost frame = data@.subrange(start as int, start as int + c);
    let n: usize = data.len();
    let mut pos: u64 = 0;
    let mut neg: u64 = 0;
    let mut j: usize = 0;
    while j < c
        invariant
            j <= c <= 0xFFFF,
            start + c <= data@.len(),
            n == data@.len(),
            samples_in_range(data@),
            frame == data@.subrange(start as int, start as int + c),
            pos <= (j as nat) * 0x1_0000_0000,
            neg <= (j as nat) * 0x1_0000_0000,
            pos - neg == sum_val(frame.subrange(0, j as int)),
        decreases c - j,
    {
        let w: u32 = data[start + j];
        let m: u64 = sample_mag(w);
        proof {
            assert(frame.subrange(0, j + 1 as int).drop_last() =~= frame.subrange(0, j as int));
            assert(frame.subrange(0, j + 1 as int).last() == frame[j as int]);
            assert(frame[j as int] == data@[start + j]);
            assert((j as nat) * 0x1_0000_0000 + 0x1_0000_0000 == (j as nat + 1) * 0x1_0000_0000)
                by (nonlinear_arith)
            ;
            assert((j as nat + 1) * 0x1_0000_0000 <= 0x10000 * 0x1_0000_0000) by (nonlinear_arith)
                requires
                    j as nat + 1 <= 0x10000,
            ;
        }
        if w >= 0x8000_0000 {
            neg = neg + m;
        } else {
            pos = pos + m;
        }
        j = j + 1;
    }
    proof {
        assert(frame.subrange(0, c as int) =~= frame);
        assert(frame.len() == c);
    }
    let cw: u64 = c as u64;
    if pos >= neg {
        let d: u64 = (pos - neg) / cw;
        proof {
            lemma_div_is_ordered((pos - neg) as int, (c as nat * 0x1_0000_0000) as int, c as int);
            lemma_div_multiples_vanish(0x1_0000_0000, c as int);
            assert(frame_mean(frame) == d);
        }
        fixed_to_sample(false, d)
    } else {
        let d: u64 = (neg - pos) / cw;
        proof {
            lemma_div_is_ordered((neg - pos) as int, (c as nat * 0x1_0000_0000) as int, c as int);
            lemma_div_multiples_vanish(0x1_0000_0000, c as int);
            assert(frame_mean(frame) == -(d as int));
            if d == 0 {
                assert(fixed_encode(true, 0) == fixed_encode(false, 0));
            }
        }
        fixed_to_sample(true, d)
    }
}

impl AudioChunk {
    /// Downmix to mono: group the samples into frames of `channels`
    /// consecutive samples and replace each frame with its mean.  A mono
    /// chunk is returned unchanged; the sample rate and device tag are
    /// kept as they are.
    pub fn downmix(self) -> (r: AudioChunk)
        requires
            self.wf(),
        ensures
            r.wf(),
            r@ == downmix_view(self@),
            r@.channels == 1,
            self@.channels == 1 ==> r@.data == self@.data,
            r@.data.len() == self@.data.len() / (self@.channels as nat),
    {
        if self.channels == 1 {
            proof {
                assert(self@.data.len() as int / 1 == self@.data.len());
            }
            self
        } else {
            let c: usize = self.channels as usize;
            let total: usize = self.data.len();
            let nframes: usize = total / c;
            let ghost s = self.data@;
            let ghost cn = self.channels as nat;
            proof {
                lemma_fundamental_div_mod(s.len() as int, c as int);
                assert(s.len() == cn * (s.len() / cn));
            }
            let mut out: Vec<u32> = Vec::new();
            let mut i: usize = 0;
            while i < nframes
                invariant
                    i <= nframes,
                    1 <= c <= 0xFFFF,
                    nframes == s.len() / cn,
                    cn == c as nat,
                    s == self.data@,
                    samples_in_range(s),
                    s.len() == cn * nframes,
                    total == s.len(),
                    out@.len() == i,
                    forall|k: int| 0 <= k < i ==> out@[k] == downmix_seq(s, cn)[k],
                    forall|k: int|
                        0 <= k < i ==> crate::sample::sample_in_range(#[trigger] out@[k]),
                decreases nframes - i,
            {
                proof {
                    assert((i as int + 1) * (c as int) <= (nframes as int) * (c as int))
                        by (nonlinear_arith)
                        requires
                            i < nframes,
                            c >= 1,
                    ;
                    assert((nframes as int) * (c as int) == (cn * nframes) as int)
                        by (nonlinear_arith)
                        requires
                            cn == c as nat,
                    ;
                    assert((i as int + 1) * (c as int) == (i as int) * (c as int) + c)
                        by (nonlinear_arith);
                    assert((i as int) * (c as int) + c <= s.len());
                }
                let start: usize = i * c;
                let b: u32 = mean_sample(&self.data, start, c);
                proof {
                    assert(frame_of(s, cn, i as int) =~= s.subrange(
                        start as int,
                        start as int + c,
                    ));
                    assert(downmix_seq(s, cn)[i as int] == mean_sample_spec(
                        frame_of(s, cn, i as int),
                    ));
                }
                out.push(b);
                i = i + 1;
            }
            proof {
                assert(out@ =~= downmix_seq(s, cn));
                assert(out@.len() % 1nat == 0) by (nonlinear_arith);
            }
            AudioChunk {
                mic_name: self.mic_name,
                channels: 1,
                sample_rate: self.sample_rate,
                data: out,
            }
        }
    }
}

/// Whether a chunk at this rate must pass through the resampler.
pub fn needs_resample(sample_rate: u32) -> (r: bool)
    ensures
        r == (sample_rate != TARGET_SAMPLE_RATE),
{
    sample_rate != TARGET_SAMPLE_RATE
}

/// The resampler's fixed-size input chunks: the samples cut into
/// `size`-sample pieces, the last one zero-padded up to `size`.
pub fn resample_plan(data: &Vec<u32>, size: usize) -> (out: Vec<Vec<u32>>)
    requires
        size >= 1,
        data@.len() + size <= usize::MAX,
    ensures
        out@.len() == (data@.len() + size - 1) as nat / size as nat,
        forall|i: int| 0 <= i < out@.len() ==> (#[trigger] out@[i])@.len() == size,
        forall|i: int, j: int|
            0 <= i < out@.len() && 0 <= j < size ==> #[trigger] out@[i]@[j] == (if i * size + j
                < data@.len() {
                data@[i * size + j]
            } else {
                0u32
            }),
{
    let nchunks: usize = (data.len() + size - 1) / size;
    proof {
        lemma_fundamental_div_mod((data@.len() + size - 1) as int, size as int);
        assert(nchunks * size < data@.len() + size) by (nonlinear_arith)
            requires
                size >= 1,
                (data@.len() + size - 1) as int == (size as int) * (nchunks as int) + (data@.len()
                    + size - 1) as int % (size as int),
                0 <= (data@.len() + size - 1) as int % (size as int) < size as int,
        ;
    }
    let mut out: Vec<Vec<u32>> = Vec::new();
    let mut i: usize = 0;
    while i < nchunks
        invariant
            i <= nchunks,
            size >= 1,
            data@.len() + size <= usize::MAX,
            nchunks == (data@.len() + size - 1) as nat / size as nat,
            nchunks * size < data@.len() + size,
            out@.len() == i,
            forall|k: int| 0 <= k < i ==> (#[trigger] out@[k])@.len() == size,
            forall|k: int, j: int|
                0 <= k < i && 0 <= j < size ==> #[trigger] out@[k]@[j] == (if k * size + j
                    < data@.len() {
                    data@[k * size + j]
                } else {
                    0u32
                }),
        decreases nchunks - i,
    {
        proof {
            assert((i as int + 1) * (size as int) <= (nchunks as int) * (size as int))
                by (nonlinear_arith)
                requires
                    i < nchunks,
                    size >= 1,
            ;
            assert((i as int + 1) * (size as int) == (i as int) * (size as int) + size)
                by (nonlinear_arith);
            assert((i as int) * (size as int) + size < data@.len() + size);
        }
        let base: usize = i * size;
        let mut piece: Vec<u32> = Vec::new();
        let mut j: usize = 0;
        while j < size
            invariant
                j <= size,
                base == i * size,
                base + size < data@.len() + size,
                data@.len() + size <= usize::MAX,
                piece@.len() == j,
                forall|t: int|
                    0 <= t < j ==> piece@[t] == (if base + t < data@.len() {
                        data@[base as int + t]
                    } else {
                        0u32
                    }),
            decreases size - j,
        {
            if base + j < data.len() {
                piece.push(data[base + j]);
            } else {
                piece.push(0u32);
            }
            j = j + 1;
        }
        out.push(piece);
        i = i + 1;
    }
    out
}

/// Concatenation of a sequence of sample sequences.
pub open spec fn concat_all(parts: Seq<Seq<u32>>) -> Seq<u32>
    decreases parts.len(),
{
    if parts.len() == 0 {
        Seq::empty()
    } else {
        parts[0] + concat_all(parts.drop_first())
    }
}

/// Concatenate the resampler's output chunks in order.
pub fn concat_resampled(parts: &Vec<Vec<u32>>) -> (out: Vec<u32>)
    requires
        concat_all(parts.deep_view()).len() <= usize::MAX,
    ensures
        out@ == concat_all(parts.deep_view()),
{
    let mut out: Vec<u32> = Vec::new();
    let mut i: usize = 0;
    while i < parts.len()
        invariant
            i <= parts@.len(),
            concat_all(parts.deep_view()).len() <= usize::MAX,
            out@ == concat_all(parts.deep_view().subrange(0, i as int)),
            out@.len() <= concat_all(parts.deep_view()).len(),
        decreases parts@.len() - i,
    {
        let part: &Vec<u32> = &parts[i];
        let mut j: usize = 0;
        proof {
            lemma_concat_all_snoc(parts.deep_view(), i as int);
            lemma_concat_all_prefix_len(parts.deep_view(), i + 1);
        }
        while j < part.len()
            invariant
                j <= part@.len(),
                part@ == parts.deep_view()[i as int],
                i < parts.deep_view().len(),
                concat_all(parts.deep_view().subrange(0, i as int + 1)).len() <= usize::MAX,
                concat_all(parts.deep_view().subrange(0, i as int + 1)) == concat_all(
                    parts.deep_view().subrange(0, i as int),
                ) + parts.deep_view()[i as int],
                out@ == concat_all(parts.deep_view().subrange(0, i as int)) + part@.subrange(
                    0,
                    j as int,
                ),
            decreases part@.len() - j,
        {
            out.push(part[j]);
            proof {
                assert(part@.subrange(0, j + 1 as int) =~= part@.subrange(0, j as int).push(
                    part@[j as int],
                ));
            }
            j = j + 1;
        }
        proof {
            assert(part@.subrange(0, part@.len() as int) =~= part@);
            lemma_concat_all_prefix_len(parts.deep_view(), parts.deep_view().len() as int);
        }
        i = i + 1;
    }
    proof {
        assert(parts.deep_view().subrange(0, parts.deep_view().len() as int) =~= parts.deep_view());
    }
    out
}

/// Splitting a prefix one element later appends that element's samples.
proof fn lemma_concat_all_snoc(parts: Seq<Seq<u32>>, i: int)
    requires
        0 <= i < parts.len(),
    ensures
        concat_all(parts.subrange(0, i + 1)) == concat_all(parts.subrange(0, i)) + parts[i],
    decreases i,
{
    if i == 0 {
        assert(parts.subrange(0, 1).drop_first() =~= parts.subrange(0, 0));
        assert(concat_all(parts.subrange(0, 0)) =~= Seq::empty());
        assert(parts.subrange(0, 1)[0] == parts[0]);
        assert(concat_all(parts.subrange(0, 1)) =~= concat_all(parts.subrange(0, 0)) + parts[0]);
    } else {
        lemma_concat_all_snoc(parts.drop_first(), i - 1);
        assert(parts.subrange(0, i + 1).drop_first() =~= parts.drop_first().subrange(0, i));
        assert(parts.subrange(0, i).drop_first() =~= parts.drop_first().subrange(0, i - 1));
        assert(parts.drop_first().subrange(0, i - 1 + 1) =~= parts.drop_first().subrange(0, i));
        assert(parts.drop_first()[i - 1] == parts[i]);
        assert(parts.subrange(0, i + 1)[0] == parts[0]);
        assert(parts.subrange(0, i)[0] == parts[0]);
        assert(concat_all(parts.subrange(0, i + 1)) == parts[0] + concat_all(
            parts.drop_first().subrange(0, i),
        ));
        assert(concat_all(parts.subrange(0, i)) == parts[0] + concat_all(
            parts.drop_first().subrange(0, i - 1),
        ));
        assert(parts[0] + (concat_all(parts.drop_first().subrange(0, i - 1)) + parts[i]) =~= (
        parts[0] + concat_all(parts.drop_first().subrange(0, i - 1))) + parts[i]);
    }
}

/// A prefix's concatenation is no longer than the whole's.
proof fn lemma_concat_all_prefix_len(parts: Seq<Seq<u32>>, i: int)
    requires
        0 <= i <= parts.len(),
    ensures
        concat_all(parts.subrange(0, i)).len() <= concat_all(parts).len(),
    decreases parts.len() - i,
{
    if i == parts.len() {
        assert(parts.subrange(0, i) =~= parts);
    } else {
        lemma_concat_all_snoc(parts, i);
        lemma_concat_all_prefix_len(parts, i + 1);
    }
}

/// Assemble the resampler's concatenated output into the canonical batch
/// chunk: mono, 16 kHz.  Rejects with `InvalidFormat` exactly when some
/// output sample falls outside [-1.0, 1.0], so that every chunk this
/// returns is well-formed.
pub fn finish_resample(mic_name: String, resampled: Vec<u32>) -> (r: Result<AudioChunk, MicError>)
    ensures
        samples_in_range(resampled@) ==> (r matches Ok(c) && c@ == (ChunkView {
            mic_name: mic_name@,
            channels: 1,
            sample_rate: TARGET_SAMPLE_RATE,
            data: resampled@,
        }) && c.wf()),
        !samples_in_range(resampled@) ==> r == Err::<AudioChunk, MicError>(MicError::InvalidFormat),
{
    let mut i: usize = 0;
    while i < resampled.len()
        invariant
            i <= resampled@.len(),
            forall|k: int|
                0 <= k < i ==> crate::sample::sample_in_range(#[trigger] resampled@[k]),
        decreases resampled@.len() - i,
    {
        if !crate::sample::is_sample_in_range(resampled[i]) {
            return Err(MicError::InvalidFormat);
        }
        i = i + 1;
    }
    proof {
        assert(resampled@.len() as int % 1 == 0) by (nonlinear_arith);
    }
    Ok(
        AudioChunk {
            mic_name,
            channels: 1,
            sample_rate: TARGET_SAMPLE_RATE,
            data: resampled,
        },
    )
}

/// The ratio check of the resampling stage: with `before` input samples
/// at `from_rate` Hz and `after` output samples at 16 kHz, the observed
/// ratio before/after may deviate from from_rate/16000 by at most 1, else
/// the resampler broke its contract and the caller logs an error.  The
/// comparison |before/after - from_rate/16000| > 1 is evaluated exactly
/// over the integers.
pub fn resample_ratio_suspect(before: usize, after: usize, from_rate: u32) -> (r: bool)
    requires
        1 <= after <= 0xFFFF_FFFF,
        before <= 0xFFFF_FFFF,
        from_rate >= 1,
    ensures
        r == (if 16000 * before >= (from_rate as int) * after {
            16000 * before - (from_rate as int) * after > 16000 * after
        } else {
            (from_rate as int) * after - 16000 * before > 16000 * after
        }),
{
    proof {
        assert((from_rate as int) * (after as int) <= 0xFFFF_FFFF * 0xFFFF_FFFF)
            by (nonlinear_arith)
            requires
                from_rate <= 0xFFFF_FFFF,
                after <= 0xFFFF_FFFF,
        ;
    }
    let lhs: u128 = 16000u128 * (before as u128);
    let rhs: u128 = (from_rate as u128) * (after as u128);
    let bound: u128 = 16000u128 * (after as u128);
    if lhs >= rhs {
        lhs - rhs > bound
    } else {
        rhs - lhs > bound
    }
}

/// The next normalization step after downmixing.
pub enum NormalizePlan {
    /// The chunk is already at 16 kHz: it is canonical as it stands, its
    /// samples untouched by any resampler.
    Ready(AudioChunk),
    /// The chunk must be resampled: feed each piece to an FFT resampler
    /// from `from_rate` to 16 kHz in order, then reassemble with
    /// `concat_resampled` and `finish_resample`.
    Resample { mic_name: String, from_rate: u32, pieces: Vec<Vec<u32>> },
}

/// Downmix a batch chunk and decide whether it still needs resampling.
/// A chunk already at 16 kHz comes back canonical with its downmixed
/// samples untouched; any other rate yields the resampler's zero-padded
/// input pieces.
pub fn normalize_plan(chunk: AudioChunk) -> (r: NormalizePlan)
    requires
        chunk.wf(),
        chunk.data@.len() + RESAMPLER_CHUNK_SIZE <= usize::MAX,
    ensures
        ({
            let d = downmix_view(chunk@);
            match r {
                NormalizePlan::Ready(c) => d.sample_rate == TARGET_SAMPLE_RATE && c@ == d && c.wf(),
                NormalizePlan::Resample { mic_name, from_rate, pieces } => {
                    &&& d.sample_rate != TARGET_SAMPLE_RATE
                    &&& mic_name@ == d.mic_name
                    &&& from_rate == d.sample_rate
                    &&& pieces@.len() == (d.data.len() + RESAMPLER_CHUNK_SIZE - 1) as nat
                        / RESAMPLER_CHUNK_SIZE as nat
                    &&& forall|i: int|
                        0 <= i < pieces@.len() ==> (#[trigger] pieces@[i])@.len()
                            == RESAMPLER_CHUNK_SIZE
                    &&& forall|i: int, j: int|
                        0 <= i < pieces@.len() && 0 <= j < RESAMPLER_CHUNK_SIZE
                            ==> #[trigger] pieces@[i]@[j] == (if i * RESAMPLER_CHUNK_SIZE + j
                            < d.data.len() {
                            d.data[i * RESAMPLER_CHUNK_SIZE + j]
                        } else {
                            0u32
                        })
                },
            }
        }),
{
    let mono = chunk.downmix();
    if !needs_resample(mono.sample_rate) {
        NormalizePlan::Ready(mono)
    } else {
        let pieces = resample_plan(&mono.data, RESAMPLER_CHUNK_SIZE);
        NormalizePlan::Resample {
            mic_name: mono.mic_name,
            from_rate: mono.sample_rate,
            pieces,
        }
    }
}

/// Normalization is deterministic: any two chunks that satisfy the
/// downmix contract for the same input are bit-identical.
pub proof fn lemma_downmix_deterministic(c: ChunkView, r1: ChunkView, r2: ChunkView)
    requires
        r1 == downmix_view(c),
        r2 == downmix_view(c),
    ensures
        r1 == r2,
{
}

} // verus!
