//! Padding, frame-count and trim arithmetic.
//!
//! The encoder pads every channel the same way: half a hop of leading
//! silence (the encoder delay), the channel's samples, zeros up to the
//! next hop boundary, and half a hop of trailing silence.  The decoder
//! emits one hop per frame plus one final hop of overlap, drops the
//! encoder delay and truncates to the original length.  The lemmas here
//! show that this always returns exactly the original sample count.
use vstd::prelude::*;
use vstd::arithmetic::div_mod::*;
use vstd::arithmetic::mul::*;
use crate::FRAME_SIZE;
use crate::HOP_SIZE;

verus! {

/// Samples of leading silence per channel (half a hop).
pub const ENCODER_DELAY: usize = 512;

/// `l` rounded up to the next multiple of the hop size.
pub open spec fn round_up_hop(l: nat) -> nat {
    if l % (HOP_SIZE as nat) == 0 {
        l
    } else {
        (l + (HOP_SIZE as nat) - l % (HOP_SIZE as nat)) as nat
    }
}

/// Per-channel length after padding.
pub open spec fn padded_len(l: nat) -> nat {
    round_up_hop(l) + (HOP_SIZE as nat)
}

/// Number of frames covering a padded channel of length `p`:
/// `max(1, (p - FRAME_SIZE) / HOP_SIZE + 1)`.
pub open spec fn frame_count(p: nat) -> nat {
    if p < FRAME_SIZE as nat {
        1
    } else {
        ((p - FRAME_SIZE as nat) as nat) / (HOP_SIZE as nat) + 1
    }
}

/// Interleaved samples the overlap-add decoder emits for a stream of
/// `f` frames over `ch` channels: one hop per frame plus the final hop.
pub open spec fn decoded_total(f: nat, ch: nat) -> nat {
    (f * (HOP_SIZE as nat) + (HOP_SIZE as nat)) * ch
}

/// Length after the gapless trim: drop the first `delay` samples (or all
/// of them if fewer), then truncate to `orig`.
pub open spec fn trim_len(total: nat, delay: nat, orig: nat) -> nat {
    let kept = if total >= delay {
        (total - delay) as nat
    } else {
        0
    };
    if kept >= orig {
        orig
    } else {
        kept
    }
}

/// Per-channel length after padding.
pub fn padded_channel_len(l: usize) -> (p: usize)
    requires
        l + 2 * HOP_SIZE <= usize::MAX,
    ensures
        p == padded_len(l as nat),
        p % HOP_SIZE == 0,
        p >= l + HOP_SIZE,
{
    let rem = l % HOP_SIZE;
    let rounded = if rem == 0 {
        l
    } else {
        l + (HOP_SIZE - rem)
    };
    assert(rounded % HOP_SIZE == 0) by {
        if rem != 0 {
            lemma_fundamental_div_mod(l as int, HOP_SIZE as int);
            let q = l as int / HOP_SIZE as int;
            assert(rounded as int == (q + 1) * HOP_SIZE as int) by {
                assert((q + 1) * HOP_SIZE as int == q * HOP_SIZE as int + HOP_SIZE as int)
                    by (nonlinear_arith);
            }
            lemma_mod_multiples_basic(q + 1, HOP_SIZE as int);
        }
    }
    rounded + HOP_SIZE
}

/// Number of frames covering a padded channel of length `p`.
pub fn num_frames(p: usize) -> (f: usize)
    ensures
        f == frame_count(p as nat),
        f >= 1,
{
    if p < FRAME_SIZE {
        1
    } else {
        (p - FRAME_SIZE) / HOP_SIZE + 1
    }
}

/// Trailing padding recorded in the gapless metadata:
/// padded length minus the channel length minus the encoder delay.
pub fn padding_amount(l: usize) -> (pad: usize)
    requires
        l + 2 * HOP_SIZE <= usize::MAX,
    ensures
        pad + l + ENCODER_DELAY == padded_len(l as nat),
{
    let p = padded_channel_len(l);
    p - l - ENCODER_DELAY
}

/// The padded length is a whole number of hops and exceeds the channel
/// length by at least one hop.
pub proof fn lemma_padded_len_props(l: nat)
    ensures
        padded_len(l) % (HOP_SIZE as nat) == 0,
        padded_len(l) >= l + HOP_SIZE as nat,
{
    let h = HOP_SIZE as nat;
    if l % h != 0 {
        lemma_fundamental_div_mod(l as int, h as int);
        let q = l as int / h as int;
        assert(round_up_hop(l) as int == (q + 1) * h as int) by {
            assert((q + 1) * h as int == q * h as int + h as int) by (nonlinear_arith);
        }
        lemma_mod_multiples_basic(q + 1, h as int);
    }
    lemma_add_mod_noop(round_up_hop(l) as int, h as int, h as int);
    lemma_mod_self_0(h as int);
    lemma_small_mod(0, h);
}

/// The decoder output is long enough that dropping the encoder delay and
/// truncating to the original interleaved length returns exactly that
/// length: the gapless property's arithmetic core.
pub proof fn lemma_decode_preserves_length(l: nat, ch: nat)
    requires
        ch >= 1,
    ensures
        decoded_total(frame_count(padded_len(l)), ch) >= (ENCODER_DELAY as nat) * ch + l * ch,
        trim_len(
            decoded_total(frame_count(padded_len(l)), ch),
            (ENCODER_DELAY as nat) * ch,
            l * ch,
        ) == l * ch,
{
    let h = HOP_SIZE as nat;
    let r = round_up_hop(l);
    let p = padded_len(l);
    let f = frame_count(p);
    lemma_padded_len_props(l);
    let per_channel = f * h + h;
    assert(per_channel >= (ENCODER_DELAY as nat) + l) by {
        if p < FRAME_SIZE as nat {
            // r < HOP_SIZE and r is a multiple of it, so r == 0 and l == 0.
            assert(f == 1);
        } else {
            // p == r + h with r a positive multiple of the hop size.
            lemma_fundamental_div_mod(l as int, h as int);
            let m = r / h;
            lemma_fundamental_div_mod_converse((p - FRAME_SIZE as nat) as int, h as int, m as int - 1, 0);
            assert(f == m);
            assert(m * h == r) by {
                lemma_fundamental_div_mod(r as int, h as int);
            }
        }
    }
    assert(decoded_total(f, ch) >= ((ENCODER_DELAY as nat) + l) * ch) by {
        lemma_mul_inequality(((ENCODER_DELAY as nat) + l) as int, per_channel as int, ch as int);
    }
    assert(((ENCODER_DELAY as nat) + l) * ch == (ENCODER_DELAY as nat) * ch + l * ch) by {
        lemma_mul_is_distributive_add_other_way(ch as int, ENCODER_DELAY as int, l as int);
    }
}

} // verus!
