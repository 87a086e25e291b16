//! Sample decoding: compressed audio bytes to mono integer samples.
//!
//! The compressed frames themselves are read by an outside decoder; this
//! module owns the verified part of decoding — rejecting frames without
//! channels and mixing interleaved channel samples down to mono by the mean
//! of the channels, with hardware (truncating) division.

use vstd::arithmetic::div_mod::{lemma_div_pos_is_pos, lemma_fundamental_div_mod};
use vstd::arithmetic::mul::{
    lemma_mul_inequality, lemma_mul_is_distributive_add, lemma_mul_is_distributive_add_other_way,
    lemma_mul_left_inequality,
};
use vstd::prelude::*;

use crate::errors::DecodeError;

verus! {

/// One compressed-audio frame as the outside decoder hands it over:
/// interleaved channel samples and the channel count.
pub struct RawFrame {
    /// Decoded samples, channels interleaved.
    pub data: Vec<i16>,
    /// Number of interleaved channels.
    pub channels: usize,
}

/// The plain values of a frame sequence: each frame's samples and channel
/// count.
pub open spec fn frame_views(frames: Seq<RawFrame>) -> Seq<(Seq<i16>, int)> {
    frames.map_values(|f: RawFrame| (f.data@, f.channels as int))
}

/// The frames that the outside decoder produces from a byte buffer; they
/// depend on the bytes alone.
pub uninterp spec fn mp3_frames_of(bytes: Seq<u8>) -> Seq<(Seq<i16>, int)>;

/// Relies on minimp3's `Decoder::new` and `Decoder::next_frame`: the frames
/// decoded depend on the bytes alone, and with an in-memory reader the call
/// can only yield a frame or the end-of-stream error — an input/output
/// failure is impossible and anything unreadable is skipped — so every
/// buffer decodes to its frame sequence.
#[verifier::external_body]
fn read_mp3_frames(bytes: &Vec<u8>) -> (frames: Vec<RawFrame>)
    ensures
        frame_views(frames@) == mp3_frames_of(bytes@),
{
    let mut decoder = minimp3::Decoder::new(std::io::Cursor::new(bytes.as_slice()));
    let mut frames = Vec::new();
    loop {
        match decoder.next_frame() {
            Ok(f) => frames.push(RawFrame { data: f.data, channels: f.channels }),
            Err(_) => return frames,
        }
    }
}

/// Truncating (toward-zero) division, the way Rust's `/` divides signed
/// integers.
pub open spec fn tdiv(x: int, c: int) -> int {
    if x >= 0 {
        x / c
    } else {
        -((-x) / c)
    }
}

/// The mono value of one interleaved chunk: the sum over its samples of each
/// sample divided by the channel count.
pub open spec fn mix_sum(chunk: Seq<i16>, c: int) -> int
    decreases chunk.len(),
{
    if chunk.len() == 0 {
        0int
    } else {
        mix_sum(chunk.drop_last(), c) + tdiv(chunk.last() as int, c)
    }
}

/// The mono samples of one frame: one mixed value per complete chunk of `c`
/// interleaved samples, trailing samples dropped.
pub open spec fn frame_mono(data: Seq<i16>, c: int) -> Seq<int> {
    Seq::new((data.len() as int / c) as nat, |k: int| mix_sum(data.subrange(k * c, (k + 1) * c), c))
}

/// Whether every decoded frame reports at least one channel.
pub open spec fn frames_ok(frames: Seq<(Seq<i16>, int)>) -> bool {
    forall|i: int| 0 <= i < frames.len() ==> (#[trigger] frames[i]).1 >= 1
}

/// The mono samples of a whole frame sequence, frame by frame, in order.
pub open spec fn mono_concat(frames: Seq<(Seq<i16>, int)>) -> Seq<int>
    decreases frames.len(),
{
    if frames.len() == 0 {
        Seq::empty()
    } else {
        mono_concat(frames.drop_last()) + frame_mono(frames.last().0, frames.last().1)
    }
}

/// A truncated quotient keeps the sign of its dividend and never grows past
/// it when scaled back by the divisor.
proof fn lemma_tdiv_bounds(x: int, c: int)
    requires
        c >= 1,
    ensures
        x >= 0 ==> 0 <= c * tdiv(x, c) <= x,
        x < 0 ==> x <= c * tdiv(x, c) <= 0,
{
    if x >= 0 {
        lemma_div_pos_is_pos(x, c);
        lemma_fundamental_div_mod(x, c);
        vstd::arithmetic::mul::lemma_mul_nonnegative(c, x / c);
    } else {
        let y = -x;
        lemma_div_pos_is_pos(y, c);
        lemma_fundamental_div_mod(y, c);
        vstd::arithmetic::mul::lemma_mul_nonnegative(c, y / c);
        vstd::arithmetic::mul::lemma_mul_unary_negation(c, y / c);
    }
}

/// The scaled mix sum of a chunk stays between the scaled sample bounds.
proof fn lemma_mix_sum_scaled_bounds(chunk: Seq<i16>, c: int)
    requires
        c >= 1,
    ensures
        -32768 * chunk.len() <= c * mix_sum(chunk, c) <= 32767 * chunk.len(),
    decreases chunk.len(),
{
    if chunk.len() > 0 {
        let a = mix_sum(chunk.drop_last(), c);
        let x = chunk.last() as int;
        let t = tdiv(x, c);
        lemma_mix_sum_scaled_bounds(chunk.drop_last(), c);
        lemma_tdiv_bounds(x, c);
        lemma_mul_is_distributive_add(c, a, t);
        assert(-32768 <= x <= 32767);
        assert(-32768 <= c * t <= 32767);
        assert(mix_sum(chunk, c) == a + t);
        assert(c * mix_sum(chunk, c) == c * a + c * t);
        assert(chunk.drop_last().len() == chunk.len() - 1);
        assert(-32768 * chunk.len() == -32768 * (chunk.len() - 1) + -32768);
        assert(32767 * chunk.len() == 32767 * (chunk.len() - 1) + 32767);
    }
}

/// The mix sum of a chunk no longer than the channel count fits a sample.
proof fn lemma_mix_sum_fits(chunk: Seq<i16>, c: int)
    requires
        c >= 1,
        chunk.len() <= c,
    ensures
        -32768 <= mix_sum(chunk, c) <= 32767,
{
    lemma_mix_sum_scaled_bounds(chunk, c);
    let s = mix_sum(chunk, c);
    assert(-32768 * c <= -32768 * chunk.len()) by (nonlinear_arith)
        requires
            chunk.len() <= c,
    ;
    assert(32767 * chunk.len() <= 32767 * c) by (nonlinear_arith)
        requires
            chunk.len() <= c,
    ;
    if s < -32768 {
        lemma_mul_left_inequality(c, s, -32769);
        assert(c * -32769 < -32768 * c) by (nonlinear_arith)
            requires
                c >= 1,
        ;
    }
    if s > 32767 {
        lemma_mul_left_inequality(c, 32768, s);
        assert(32767 * c < c * 32768) by (nonlinear_arith)
            requires
                c >= 1,
        ;
    }
}

/// Mixes one frame's interleaved samples down to mono: each complete chunk
/// of `channels` samples becomes the sum of its samples each divided by the
/// channel count, with truncating division; trailing samples that do not
/// fill a chunk are dropped.
#[verifier::loop_isolation(false)]
pub fn mix_to_mono(data: &Vec<i16>, channels: usize) -> (r: Vec<i16>)
    requires
        channels >= 1,
    ensures
        r@.len() == data@.len() as int / channels as int,
        forall|k: int|
            0 <= k < r@.len() ==> #[trigger] r@[k] as int == mix_sum(
                data@.subrange(k * channels as int, (k + 1) * channels as int),
                channels as int,
            ),
{
    let c = channels;
    let n = data.len();
    let count = n / c;
    proof {
        lemma_fundamental_div_mod(n as int, c as int);
        vstd::arithmetic::mul::lemma_mul_is_commutative(count as int, c as int);
    }
    let mut r: Vec<i16> = Vec::new();
    let mut k: usize = 0;
    while k < count
        invariant
            count * c <= n,
            k <= count,
            r@.len() == k,
            forall|v: int|
                0 <= v < k ==> #[trigger] r@[v] as int == mix_sum(
                    data@.subrange(v * c as int, (v + 1) * c as int),
                    c as int,
                ),
        decreases count - k,
    {
        proof {
            lemma_mul_inequality(k as int, count as int, c as int);
            lemma_mul_inequality(k as int + 1, count as int, c as int);
            lemma_mul_is_distributive_add_other_way(c as int, k as int, 1);
        }
        let base = k * c;
        let ghost chunk = data@.subrange(k * c as int, (k + 1) * c as int);
        let mut sum: i32 = 0;
        let mut j: usize = 0;
        while j < c
            invariant
                j <= c,
                base == k * c,
                base + c <= n,
                sum as int == mix_sum(chunk.take(j as int), c as int),
                -32768 <= sum as int <= 32767,
            decreases c - j,
        {
            let x = data[base + j];
            proof {
                assert(chunk.take(j as int + 1).drop_last() =~= chunk.take(j as int));
                assert(chunk.take(j as int + 1).last() == data@[base + j]);
                lemma_tdiv_bounds(x as int, c as int);
                lemma_mix_sum_fits(chunk.take(j as int + 1), c as int);
            }
            let xi: i32 = x as i32;
            let c64: u64 = c as u64;
            let t: i32 = if xi >= 0 {
                ((xi as u64) / c64) as i32
            } else {
                -((((-xi) as u64) / c64) as i32)
            };
            proof {
                assert(t as int == tdiv(x as int, c as int));
            }
            sum = sum + t;
            j += 1;
        }
        proof {
            assert(chunk.take(c as int) =~= chunk);
        }
        r.push(sum as i16);
        k += 1;
    }
    r
}

/// Decodes one self-contained buffer of compressed audio into mono samples,
/// a pure function of the byte content: decoding succeeds exactly when every
/// decoded frame reports at least one channel, and then every frame is mixed
/// down to mono in order; a frame without channels is the one error.
#[verifier::loop_isolation(false)]
pub fn decode_mp3_from_chunk(bytes: &Vec<u8>) -> (r: Result<Vec<i16>, DecodeError>)
    ensures
        r is Ok <==> frames_ok(mp3_frames_of(bytes@)),
        r matches Ok(samples) ==> samples@.map_values(|x: i16| x as int) == mono_concat(
            mp3_frames_of(bytes@),
        ),
        r matches Err(e) ==> e == DecodeError::InvalidChannels,
{
    let frames = read_mp3_frames(bytes);
    let ghost fviews = frame_views(frames@);
    let mut samples: Vec<i16> = Vec::new();
    let mut i: usize = 0;
    while i < frames.len()
        invariant
            i <= frames@.len(),
            forall|j: int| 0 <= j < i ==> (#[trigger] frames@[j]).channels >= 1,
            samples@.map_values(|x: i16| x as int) == mono_concat(fviews.take(i as int)),
        decreases frames@.len() - i,
    {
        let frame = &frames[i];
        if frame.channels == 0 {
            proof {
                assert(fviews[i as int].1 == 0);
                assert(!frames_ok(fviews));
            }
            return Err(DecodeError::InvalidChannels);
        }
        let mut mono = mix_to_mono(&frame.data, frame.channels);
        let ghost prev = samples@;
        let ghost mono_view = mono@;
        samples.append(&mut mono);
        proof {
            assert(fviews.take(i as int + 1).drop_last() =~= fviews.take(i as int));
            assert(fviews.take(i as int + 1).last() == fviews[i as int]);
            assert(mono_view.map_values(|x: i16| x as int) =~= frame_mono(
                frame.data@,
                frame.channels as int,
            ));
            assert(samples@.map_values(|x: i16| x as int) =~= prev.map_values(|x: i16| x as int)
                + mono_view.map_values(|x: i16| x as int));
        }
        i += 1;
    }
    proof {
        assert(fviews.take(frames@.len() as int) =~= fviews);
        assert forall|j: int| 0 <= j < fviews.len() implies (#[trigger] fviews[j]).1 >= 1 by {
            assert(fviews[j].1 == frames@[j].channels as int);
        }
    }
    Ok(samples)
}

} // verus!
