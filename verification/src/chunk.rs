//! Raw and batch audio chunks.
//!
//! A chunk is one driver-callback-sized buffer (raw chunk) or one whole
//! utterance (batch chunk) of float samples, tagged with the device it
//! came from, its channel count and its sample rate.  Samples are bit
//! patterns, see the sample module.

use vstd::prelude::*;
use vstd::arithmetic::power2::{lemma2_to64, pow2};
use crate::sample::{sample_in_range, sample_mag, sample_mag_fixed};

verus! {

/// A buffer of float samples tagged with its source device and format.
#[derive(Debug, Clone)]
pub struct AudioChunk {
    /// Name of the device the samples came from.
    pub mic_name: String,
    /// Interleaved channel count; at least 1.
    pub channels: u16,
    /// Sample rate in Hz.
    pub sample_rate: u32,
    /// Interleaved samples, as binary32 bit patterns.
    pub data: Vec<u32>,
}

/// Every sample of the sequence encodes a magnitude of at most 1.0.
pub open spec fn samples_in_range(s: Seq<u32>) -> bool {
    forall|i: int| 0 <= i < s.len() ==> sample_in_range(#[trigger] s[i])
}

/// The mathematical content of a chunk.
pub struct ChunkView {
    pub mic_name: Seq<char>,
    pub channels: u16,
    pub sample_rate: u32,
    pub data: Seq<u32>,
}

impl ChunkView {
    /// Well-formedness of a chunk: at least one channel, frame-aligned
    /// sample count, and samples within [-1.0, 1.0].
    pub open spec fn wf(&self) -> bool {
        &&& self.channels >= 1
        &&& self.data.len() % (self.channels as nat) == 0
        &&& samples_in_range(self.data)
    }
}

impl View for AudioChunk {
    type V = ChunkView;

    open spec fn view(&self) -> ChunkView {
        ChunkView {
            mic_name: self.mic_name@,
            channels: self.channels,
            sample_rate: self.sample_rate,
            data: self.data@,
        }
    }
}

impl AudioChunk {
    /// Well-formedness of a chunk: at least one channel, frame-aligned
    /// sample count, and samples within [-1.0, 1.0].
    pub open spec fn wf(&self) -> bool {
        self@.wf()
    }

    /// Decide well-formedness, for callers that receive chunks from
    /// outside the library.
    pub fn check_wf(&self) -> (r: bool)
        ensures
            r == self.wf(),
    {
        if self.channels == 0 {
            return false;
        }
        if self.data.len() % (self.channels as usize) != 0 {
            return false;
        }
        let mut i: usize = 0;
        while i < self.data.len()
            invariant
                i <= self.data@.len(),
                forall|k: int|
                    0 <= k < i ==> crate::sample::sample_in_range(#[trigger] self.data@[k]),
            decreases self.data@.len() - i,
        {
            if !crate::sample::is_sample_in_range(self.data[i]) {
                return false;
            }
            i = i + 1;
        }
        true
    }
}

/// A well-formed chunk holds a whole number of frames.
pub proof fn lemma_chunk_frame_aligned(c: &AudioChunk)
    requires
        c.wf(),
    ensures
        c.data@.len() % (c.channels as nat) == 0,
{
}

/// Sum of the fixed-point magnitudes of a sample sequence.
pub open spec fn sum_mag(s: Seq<u32>) -> nat
    decreases s.len(),
{
    if s.len() == 0 {
        0
    } else {
        sum_mag(s.drop_last()) + sample_mag_fixed(s.last())
    }
}

/// Whether a sample sequence counts as voice activity: its mean absolute
/// amplitude strictly exceeds 0.01.  With magnitudes scaled by 2^32 the
/// comparison (sum / n) > 1/100 becomes 100 * sum > n * 2^32, which is
/// exact.  A mean of exactly 0.01 is silent, and so is an empty sequence.
pub open spec fn chunk_active_spec(s: Seq<u32>) -> bool {
    100 * sum_mag(s) > s.len() * 0x1_0000_0000
}

/// The activation threshold is strict: a mean absolute amplitude of
/// exactly 0.01 still counts as silent.
pub proof fn lemma_threshold_is_strict(s: Seq<u32>)
    requires
        100 * sum_mag(s) == s.len() * 0x1_0000_0000,
    ensures
        !chunk_active_spec(s),
{
}

/// The magnitude sum of an in-range sequence is at most len * 2^32.
pub proof fn lemma_sum_mag_bound(s: Seq<u32>)
    requires
        samples_in_range(s),
    ensures
        sum_mag(s) <= s.len() * 0x1_0000_0000,
    decreases s.len(),
{
    if s.len() > 0 {
        assert(samples_in_range(s.drop_last()));
        lemma_sum_mag_bound(s.drop_last());
        lemma_mag_fixed_bound(s.last());
    }
}

/// An in-range sample's fixed-point magnitude is at most 2^32.
pub proof fn lemma_mag_fixed_bound(b: u32)
    requires
        sample_in_range(b),
    ensures
        sample_mag_fixed(b) <= 0x1_0000_0000,
{
    lemma2_to64();
    let e = crate::sample::sample_exp(b);
    let f = crate::sample::sample_frac(b);
    if e == 0 {
    } else if e >= 118 {
        let sig = (0x80_0000 + f) as nat;
        if e == 127 {
            assert(f == 0);
            assert(sig * pow2(9) == 0x1_0000_0000) by (nonlinear_arith)
                requires
                    sig == 0x80_0000,
                    pow2(9) == 512,
            ;
        } else {
            assert(pow2((e - 118) as nat) <= pow2(8)) by {
                if e - 118 < 8 {
                    vstd::arithmetic::power2::lemma_pow2_strictly_increases((e - 118) as nat, 8);
                }
            }
            assert(sig * pow2((e - 118) as nat) <= 0x1_0000_0000) by (nonlinear_arith)
                requires
                    sig < 0x100_0000,
                    pow2((e - 118) as nat) <= 0x100,
            ;
        }
    } else {
        let sig = (0x80_0000 + f) as nat;
        let k = (118 - e) as nat;
        vstd::arithmetic::power2::lemma_pow2_pos(k);
        assert(sig / pow2(k) <= sig) by (nonlinear_arith)
            requires
                pow2(k) >= 1,
                sig >= 0,
        ;
    }
}

/// Voice-activity test of one buffer: the mean absolute amplitude
/// strictly exceeds the 0.01 activation threshold.
pub fn chunk_is_active(data: &Vec<u32>) -> (r: bool)
    requires
        samples_in_range(data@),
    ensures
        r == chunk_active_spec(data@),
{
    let mut acc: u128 = 0;
    let mut i: usize = 0;
    while i < data.len()
        invariant
            i <= data.len(),
            samples_in_range(data@),
            acc == sum_mag(data@.subrange(0, i as int)),
            acc <= (i as nat) * 0x1_0000_0000,
        decreases data.len() - i,
    {
        let m = sample_mag(data[i]);
        proof {
            assert(data@.subrange(0, i + 1 as int).drop_last() =~= data@.subrange(0, i as int));
            assert(data@.subrange(0, i + 1 as int).last() == data@[i as int]);
            assert(acc + m <= (i as nat) * 0x1_0000_0000 + 0x1_0000_0000);
            assert((i as nat) * 0x1_0000_0000 + 0x1_0000_0000 == (i as nat + 1) * 0x1_0000_0000)
                by (nonlinear_arith)
            ;
            assert((i as nat + 1) * 0x1_0000_0000 <= 0x1_0000_0000_0000_0000 * 0x1_0000_0000)
                by (nonlinear_arith)
                requires
                    i as nat + 1 <= 0x1_0000_0000_0000_0000,
            ;
        }
        acc = acc + m as u128;
        i = i + 1;
    }
    proof {
        assert(data@.subrange(0, data.len() as int) =~= data@);
        lemma_sum_mag_bound(data@);
        assert((data@.len() as nat) * 0x1_0000_0000 <= 0x1_0000_0000_0000_0000 * 0x1_0000_0000)
            by (nonlinear_arith)
            requires
                data@.len() as nat <= 0x1_0000_0000_0000_0000,
        ;
    }
    100u128 * acc > (data.len() as u128) * 0x1_0000_0000u128
}

/// Byte k (little-endian, k < 4) of a sample's bit pattern.
pub open spec fn le_byte(w: u32, k: nat) -> u8 {
    (((w as nat) / pow2(8 * k)) % 256) as u8
}

/// The little-endian byte serialization of a sample sequence: four bytes
/// per sample, no header.
pub open spec fn bytes_of_samples(s: Seq<u32>) -> Seq<u8> {
    Seq::new(4 * s.len(), |i: int| le_byte(s[i / 4], (i % 4) as nat))
}

impl AudioChunk {
    /// Serialize the samples as little-endian binary32 bytes, four bytes
    /// per sample and no framing; this is the transcription wire body.
    pub fn to_byte_slice(&self) -> (out: Vec<u8>)
        requires
            self.data@.len() * 4 <= usize::MAX,
        ensures
            out@ == bytes_of_samples(self.data@),
            out@.len() == 4 * self.data@.len(),
    {
        proof {
            lemma2_to64();
        }
        let mut out: Vec<u8> = Vec::new();
        let mut i: usize = 0;
        while i < self.data.len()
            invariant
                i <= self.data.len(),
                self.data@.len() * 4 <= usize::MAX,
                out@.len() == 4 * i,
                forall|j: int|
                    0 <= j < out@.len() ==> out@[j] == le_byte(
                        self.data@[j / 4],
                        (j % 4) as nat,
                    ),
                pow2(0) == 1 && pow2(8) == 0x100 && pow2(16) == 0x1_0000 && pow2(24) == 0x100_0000,
            decreases self.data.len() - i,
        {
            let w: u32 = self.data[i];
            out.push((w % 0x100) as u8);
            out.push(((w / 0x100) % 0x100) as u8);
            out.push(((w / 0x1_0000) % 0x100) as u8);
            out.push(((w / 0x100_0000) % 0x100) as u8);
            proof {
                let ii = i as int;
                assert((4 * ii) / 4 == ii && (4 * ii) % 4 == 0) by (nonlinear_arith);
                assert((4 * ii + 1) / 4 == ii && (4 * ii + 1) % 4 == 1) by (nonlinear_arith);
                assert((4 * ii + 2) / 4 == ii && (4 * ii + 2) % 4 == 2) by (nonlinear_arith);
                assert((4 * ii + 3) / 4 == ii && (4 * ii + 3) % 4 == 3) by (nonlinear_arith);
                assert((w as nat) / 1 == w as nat) by (nonlinear_arith);
                assert(out@[4 * i as int] == le_byte(w, 0));
                assert(out@[4 * i as int + 1] == le_byte(w, 1));
                assert(out@[4 * i as int + 2] == le_byte(w, 2));
                assert(out@[4 * i as int + 3] == le_byte(w, 3));
            }
            i = i + 1;
        }
        proof {
            assert(out@ =~= bytes_of_samples(self.data@));
        }
        out
    }
}

} // verus!
