//! Critical-band partition of the MDCT bins (simplified Bark scale).
//!
//! Starting at 0 Hz the band edges advance by 50 Hz below 500 Hz, by
//! 100 Hz below 2 kHz, by 250 Hz below 8 kHz and by 500 Hz above; each
//! edge frequency is mapped to its bin `f * 2n / sample_rate` and kept
//! when strictly above the previous edge, capped at 50 bands, with `n`
//! appended as the final edge.
use vstd::prelude::*;

verus! {

/// The next band-edge frequency after `f`.
pub open spec fn next_edge_freq(f: nat) -> nat {
    if f < 500 {
        f + 50
    } else if f < 2000 {
        f + 100
    } else if f < 8000 {
        f + 250
    } else {
        f + 500
    }
}

/// The edge list that the scan produces from frequency `freq` onward,
/// having already collected `bands`.
pub open spec fn edges_from(freq: nat, bands: Seq<usize>, n: nat, sr: nat) -> Seq<usize>
    recommends
        bands.len() >= 1,
    decreases (if 2 * freq < sr {
        (sr - 2 * freq) as nat
    } else {
        0
    }),
{
    if 2 * freq < sr && bands.len() < 50 {
        let bin = freq * 2 * n / sr;
        let nb = if bin > bands.last() as nat && bin < n {
            bands.push(bin as usize)
        } else {
            bands
        };
        edges_from(next_edge_freq(freq), nb, n, sr)
    } else {
        bands
    }
}

/// The critical-band edges for `n` bins at sample rate `sr`.
pub open spec fn critical_bands_spec(n: nat, sr: nat) -> Seq<usize> {
    edges_from(0, seq![0usize], n, sr).push(n as usize)
}

/// Compute the critical-band edges.
#[verifier::loop_isolation(false)]
pub fn compute_critical_bands(n: usize, sample_rate: u32) -> (r: Vec<usize>)
    requires
        1 <= n <= 0x100000,
        sample_rate >= 1,
    ensures
        r@ == critical_bands_spec(n as nat, sample_rate as nat),
        r@.len() >= 2,
        r@.len() <= 51,
        r@[0] == 0,
        r@.last() == n,
        forall|i: int, j: int| 0 <= i < j < r@.len() ==> r@[i] < r@[j],
        forall|i: int| 0 <= i < r@.len() ==> (#[trigger] r@[i]) <= n,
{
    let sr = sample_rate;
    let mut bands: Vec<usize> = Vec::new();
    bands.push(0);
    let mut freq: u32 = 0;
    while 2 * (freq as u64) < sr as u64 && bands.len() < 50
        invariant
            1 <= bands@.len() <= 50,
            bands@[0] == 0,
            forall|i: int, j: int| 0 <= i < j < bands@.len() ==> bands@[i] < bands@[j],
            forall|i: int| 0 <= i < bands@.len() ==> (#[trigger] bands@[i]) < n,
            edges_from(freq as nat, bands@, n as nat, sr as nat) == edges_from(
                0,
                seq![0usize],
                n as nat,
                sr as nat,
            ),
        decreases (if 2 * (freq as nat) < sr as nat {
            (sr as nat - 2 * (freq as nat)) as nat
        } else {
            0nat
        }),
    {
        proof {
            vstd::arithmetic::mul::lemma_mul_upper_bound(
                freq as int * 2,
                0x100000000int,
                n as int,
                0x100000int,
            );
        }
        let bin_wide: u64 = (freq as u64) * 2 * (n as u64) / (sr as u64);
        let last = bands[bands.len() - 1];
        if bin_wide > last as u64 && bin_wide < n as u64 {
            bands.push(bin_wide as usize);
        }
        freq = if freq < 500 {
            freq + 50
        } else if freq < 2000 {
            freq + 100
        } else if freq < 8000 {
            freq + 250
        } else {
            freq + 500
        };
    }
    proof {
        assert(edges_from(freq as nat, bands@, n as nat, sr as nat) == bands@);
    }
    bands.push(n);
    bands
}

} // verus!
