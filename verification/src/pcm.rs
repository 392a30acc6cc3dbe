//! Data movement between interleaved PCM and per-channel blocks.
//!
//! Sample values never participate in arithmetic here, so interleaved
//! 32-bit sample words are moved as opaque `u32` values (the bit
//! patterns of the caller's 32-bit floats); raw fallback samples are
//! moved as `i16`.
use vstd::prelude::*;
use vstd::pervasive::VecAdditionalExecFns;
use vstd::arithmetic::div_mod::*;
use vstd::arithmetic::mul::*;
use crate::FRAME_SIZE;
use crate::HOP_SIZE;
use crate::layout::ENCODER_DELAY;
use crate::layout::padded_len;
use crate::layout::padded_channel_len;
use crate::stream::CodecError;

verus! {

/// The samples of channel `c` of an interleaved buffer over `channels`
/// channels whose length is a multiple of `channels`.
pub open spec fn channel_of(samples: Seq<u32>, channels: nat, c: nat) -> Seq<u32> {
    Seq::new(samples.len() / channels, |j: int| samples[j * (channels as int) + c])
}

/// A channel with the encoder's padding: half a hop of zeros, the
/// channel, zeros up to the next hop boundary, half a hop of zeros.
pub open spec fn padded_channel(chan: Seq<u32>) -> Seq<u32> {
    Seq::new(
        padded_len(chan.len()),
        |i: int|
            if ENCODER_DELAY <= i < ENCODER_DELAY + chan.len() {
                chan[i - ENCODER_DELAY]
            } else {
                0u32
            },
    )
}

/// Deinterleave and pad: one padded stream per channel, all of the same
/// length.  Rejects a zero channel count and a sample count that is not
/// a multiple of the channel count.
#[verifier::loop_isolation(false)]
pub fn prepare_channels(samples: &Vec<u32>, channels: u16) -> (r: Result<
    Vec<Vec<u32>>,
    CodecError,
>)
    requires
        samples@.len() + 2 * (HOP_SIZE as nat) <= usize::MAX,
    ensures
        r is Ok <==> channels >= 1 && samples@.len() % (channels as nat) == 0,
        r matches Err(e) ==> e == CodecError::InvalidInput,
        r matches Ok(chans) ==> {
            &&& chans@.len() == channels as nat
            &&& forall|c: int|
                0 <= c < channels as int ==> (#[trigger] chans@[c])@ == padded_channel(
                    channel_of(samples@, channels as nat, c as nat),
                )
        },
{
    if channels == 0 {
        return Err(CodecError::InvalidInput);
    }
    let ch = channels as usize;
    if samples.len() % ch != 0 {
        return Err(CodecError::InvalidInput);
    }
    let l = samples.len() / ch;
    proof {
        lemma_fundamental_div_mod(samples@.len() as int, ch as int);
    }
    let mut chans: Vec<Vec<u32>> = Vec::new();
    let mut c: usize = 0;
    while c < ch
        invariant
            chans@.len() == c,
            c <= ch,
            forall|ci: int|
                0 <= ci < c ==> (#[trigger] chans@[ci])@ == padded_channel(
                    channel_of(samples@, channels as nat, ci as nat),
                ),
        decreases ch - c,
    {
        let ghost chan = channel_of(samples@, channels as nat, c as nat);
        let mut v: Vec<u32> = Vec::new();
        let mut z: usize = 0;
        while z < ENCODER_DELAY
            invariant
                v@.len() == z,
                z <= ENCODER_DELAY,
                forall|i: int| 0 <= i < z ==> v@[i] == 0u32,
            decreases ENCODER_DELAY - z,
        {
            v.push(0u32);
            z += 1;
        }
        let mut j: usize = 0;
        while j < l
            invariant
                v@.len() == ENCODER_DELAY + j,
                j <= l,
                forall|i: int| 0 <= i < ENCODER_DELAY ==> v@[i] == 0u32,
                forall|i: int|
                    ENCODER_DELAY <= i < ENCODER_DELAY + j ==> #[trigger] v@[i] == samples@[(i
                        - ENCODER_DELAY) * (channels as int) + c as int],
            decreases l - j,
        {
            proof {
                assert(j * (channels as int) + c < samples@.len()) by {
                    lemma_mul_inequality(j as int + 1, l as int, ch as int);
                    lemma_mul_is_distributive_add_other_way(ch as int, j as int, 1);
                }
                assert(j * (channels as int) >= 0) by {
                    lemma_mul_nonnegative(j as int, channels as int);
                }
            }
            v.push(samples[j * ch + c]);
            j += 1;
        }
        let p = padded_channel_len(l);
        while v.len() < p
            invariant
                ENCODER_DELAY + l <= v@.len() <= p,
                forall|i: int| 0 <= i < ENCODER_DELAY ==> v@[i] == 0u32,
                forall|i: int|
                    ENCODER_DELAY <= i < ENCODER_DELAY + l ==> #[trigger] v@[i] == samples@[(i
                        - ENCODER_DELAY) * (channels as int) + c as int],
                forall|i: int| ENCODER_DELAY + l <= i < v@.len() ==> v@[i] == 0u32,
            decreases p - v@.len(),
        {
            v.push(0u32);
        }
        proof {
            assert(chan.len() == l);
            assert(v@ =~= padded_channel(chan));
        }
        chans.push(v);
        c += 1;
    }
    Ok(chans)
}

/// The analysis block of frame `fi`: one block length starting at the
/// frame's hop, zero-extended where the channel ends inside the block
/// (which happens only when the whole padded channel is shorter than one
/// block).
pub open spec fn block_of(chan: Seq<u32>, fi: nat) -> Seq<u32> {
    Seq::new(
        FRAME_SIZE as nat,
        |i: int|
            if fi * (HOP_SIZE as nat) + i < chan.len() {
                chan[fi * (HOP_SIZE as nat) + i]
            } else {
                0u32
            },
    )
}

/// Extract the analysis block of frame `fi` from a padded channel.
#[verifier::loop_isolation(false)]
pub fn frame_block(chan: &Vec<u32>, fi: usize) -> (out: Vec<u32>)
    requires
        fi * HOP_SIZE <= usize::MAX - FRAME_SIZE,
    ensures
        out@ == block_of(chan@, fi as nat),
        out@.len() == FRAME_SIZE,
{
    let start = fi * HOP_SIZE;
    let mut out: Vec<u32> = Vec::new();
    let mut i: usize = 0;
    while i < FRAME_SIZE
        invariant
            i <= FRAME_SIZE,
            out@.len() == i,
            forall|k: int| 0 <= k < i ==> out@[k] == block_of(chan@, fi as nat)[k],
        decreases FRAME_SIZE - i,
    {
        if start + i < chan.len() {
            out.push(chan[start + i]);
        } else {
            out.push(0u32);
        }
        i += 1;
    }
    proof {
        assert(out@ =~= block_of(chan@, fi as nat));
    }
    out
}

/// Gapless trim: drop the first `delay` samples (or all if fewer), then
/// truncate to `orig`.
pub fn trim_decoded(samples: Vec<u32>, delay: usize, orig: usize) -> (out: Vec<u32>)
    ensures
        out@ == {
            let start = if delay <= samples@.len() {
                delay as int
            } else {
                samples@.len() as int
            };
            let end = if start + orig <= samples@.len() {
                start + orig
            } else {
                samples@.len() as int
            };
            samples@.subrange(start, end)
        },
        out@.len() == crate::layout::trim_len(samples@.len(), delay as nat, orig as nat),
{
    let mut v = samples;
    let start = if delay <= v.len() {
        delay
    } else {
        v.len()
    };
    let mut out = v.split_off(start);
    out.truncate(orig);
    proof {
        assert(out@ =~= {
            let start = if delay <= samples@.len() {
                delay as int
            } else {
                samples@.len() as int
            };
            let end = if start + orig <= samples@.len() {
                start + orig
            } else {
                samples@.len() as int
            };
            samples@.subrange(start, end)
        });
    }
    out
}

/// Interleave one frame's per-channel windowed blocks into the raw
/// fallback payload: sample `i` of channel `c` lands at `i * ch + c`.
#[verifier::loop_isolation(false)]
pub fn pack_raw_payload(blocks: &Vec<Vec<i16>>) -> (out: Vec<i16>)
    requires
        1 <= blocks@.len() <= u16::MAX,
        forall|c: int| 0 <= c < blocks@.len() ==> (#[trigger] blocks@[c])@.len() == FRAME_SIZE,
    ensures
        out@.len() == (FRAME_SIZE as nat) * blocks@.len(),
        forall|t: int|
            0 <= t < out@.len() ==> #[trigger] out@[t] == blocks@[t % (blocks@.len() as int)]@[t
                / (blocks@.len() as int)],
{
    let ch = blocks.len();
    let mut out: Vec<i16> = Vec::new();
    let mut i: usize = 0;
    while i < FRAME_SIZE
        invariant
            i <= FRAME_SIZE,
            out@.len() == i * ch,
            forall|t: int|
                0 <= t < out@.len() ==> #[trigger] out@[t] == blocks@[t % (ch as int)]@[t / (
                ch as int)],
        decreases FRAME_SIZE - i,
    {
        let mut c: usize = 0;
        proof {
            lemma_mul_inequality(i as int + 1, FRAME_SIZE as int, ch as int);
            lemma_mul_is_distributive_add_other_way(ch as int, i as int, 1);
            lemma_mul_nonnegative(i as int, ch as int);
        }
        while c < ch
            invariant
                c <= ch,
                out@.len() == i * ch + c,
                forall|t: int|
                    0 <= t < out@.len() ==> #[trigger] out@[t] == blocks@[t % (ch as int)]@[t / (
                    ch as int)],
            decreases ch - c,
        {
            out.push(blocks[c][i]);
            proof {
                lemma_fundamental_div_mod_converse(
                    i * ch + c,
                    ch as int,
                    i as int,
                    c as int,
                );
            }
            c += 1;
        }
        i += 1;
        proof {
            lemma_mul_is_distributive_add_other_way(ch as int, i as int - 1, 1);
        }
    }
    proof {
        lemma_mul_is_commutative(FRAME_SIZE as int, ch as int);
    }
    out
}

/// One channel's block of a raw fallback payload.
pub open spec fn deinterleaved_block(pcm: Seq<i16>, channels: nat, c: nat) -> Seq<i16> {
    Seq::new(FRAME_SIZE as nat, |i: int| pcm[i * (channels as int) + c])
}

/// Split a raw fallback payload back into per-channel blocks.
#[verifier::loop_isolation(false)]
pub fn unpack_raw_payload(pcm: &Vec<i16>, channels: u16) -> (r: Vec<Vec<i16>>)
    requires
        channels >= 1,
        pcm@.len() == (FRAME_SIZE as nat) * (channels as nat),
    ensures
        r@.len() == channels as nat,
        forall|c: int|
            0 <= c < channels as int ==> (#[trigger] r@[c])@ == deinterleaved_block(
                pcm@,
                channels as nat,
                c as nat,
            ),
{
    let ch = channels as usize;
    let mut r: Vec<Vec<i16>> = Vec::new();
    let mut c: usize = 0;
    while c < ch
        invariant
            c <= ch,
            r@.len() == c,
            forall|cc: int|
                0 <= cc < c ==> (#[trigger] r@[cc])@ == deinterleaved_block(
                    pcm@,
                    channels as nat,
                    cc as nat,
                ),
        decreases ch - c,
    {
        let mut block: Vec<i16> = Vec::new();
        let mut i: usize = 0;
        while i < FRAME_SIZE
            invariant
                i <= FRAME_SIZE,
                c < ch,
                block@.len() == i,
                forall|ii: int|
                    0 <= ii < i ==> block@[ii] == pcm@[ii * (channels as int) + c as int],
            decreases FRAME_SIZE - i,
        {
            proof {
                assert(i * (channels as int) + c < pcm@.len()) by {
                    lemma_mul_inequality(i as int + 1, FRAME_SIZE as int, ch as int);
                    lemma_mul_is_distributive_add_other_way(ch as int, i as int, 1);
                    lemma_mul_is_commutative(FRAME_SIZE as int, ch as int);
                }
                assert(i * (channels as int) >= 0) by {
                    lemma_mul_nonnegative(i as int, channels as int);
                }
            }
            block.push(pcm[i * ch + c]);
            i += 1;
        }
        proof {
            assert(block@ =~= deinterleaved_block(pcm@, channels as nat, c as nat));
        }
        r.push(block);
        c += 1;
    }
    r
}

/// The dense coefficient row that a sparse pair list denotes: zero
/// everywhere except at the listed bins, a later pair overriding an
/// earlier one with the same bin.
pub open spec fn scatter(ps: Seq<(u16, i16)>, k: int) -> i16
    decreases ps.len(),
{
    if ps.len() == 0 {
        0i16
    } else if ps.last().0 == k {
        ps.last().1
    } else {
        scatter(ps.drop_last(), k)
    }
}

/// Expand one channel's sparse pair list to the dense row of quantized
/// coefficients.
#[verifier::loop_isolation(false)]
pub fn spectral_to_dense(pairs: &Vec<(u16, i16)>) -> (out: Vec<i16>)
    requires
        forall|j: int| 0 <= j < pairs@.len() ==> (#[trigger] pairs@[j]).0 < HOP_SIZE,
    ensures
        out@.len() == HOP_SIZE,
        forall|k: int| 0 <= k < HOP_SIZE ==> out@[k] == scatter(pairs@, k),
{
    let mut out: Vec<i16> = vec![0i16; HOP_SIZE];
    let mut j: usize = 0;
    while j < pairs.len()
        invariant
            j <= pairs@.len(),
            out@.len() == HOP_SIZE,
            forall|k: int| 0 <= k < HOP_SIZE ==> out@[k] == scatter(pairs@.take(j as int), k),
        decreases pairs@.len() - j,
    {
        let (bin, q) = pairs[j];
        out.set(bin as usize, q);
        proof {
            assert(pairs@.take(j as int + 1).drop_last() =~= pairs@.take(j as int));
            assert(pairs@.take(j as int + 1).last() == pairs@[j as int]);
        }
        j += 1;
    }
    proof {
        assert(pairs@.take(pairs@.len() as int) =~= pairs@);
    }
    out
}

} // verus!
