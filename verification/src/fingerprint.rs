//! Fingerprint engine: turns per-window spectra into noise-resistant integer
//! fingerprints.
//!
//! A sample buffer is split into non-overlapping windows of a fixed size.
//! Each window is transformed into a spectrum of per-bin magnitudes (the
//! transform itself is a swappable numeric primitive that runs outside this
//! library); the engine then scans the configured frequency bands, records
//! the loudest bin of each band, and encodes the eight record bins into one
//! integer, quantizing each by the fuzz factor to absorb small spectral
//! noise.

use vstd::arithmetic::div_mod::{
    lemma_basic_div, lemma_div_pos_is_pos, lemma_fundamental_div_mod, lemma_multiply_divide_lt,
};
use vstd::arithmetic::mul::lemma_mul_inequality;
use vstd::prelude::*;

use crate::errors::ConfigError;

verus! {

/// Number of frequency bands that one fingerprint summarizes.
pub const NUM_BANDS: usize = 8;

/// Holds when `n` is a power of two.
pub open spec fn is_pow2(n: int) -> bool
    decreases n,
{
    if n <= 0 {
        false
    } else if n == 1 {
        true
    } else {
        n % 2 == 0 && is_pow2(n / 2)
    }
}

/// Holds when each band boundary is strictly below the next one.
pub open spec fn bands_ascending(bins: Seq<usize>) -> bool {
    forall|i: int| 0 <= i < bins.len() - 1 ==> #[trigger] bins[i] < bins[i + 1]
}

/// Holds when a band table is usable together with the given window size and
/// fuzz factor: eight strictly ascending boundaries, all inside the spectrum,
/// with quantized peaks small enough for the positional weights of the
/// encoding.
pub open spec fn bands_ok(bins: Seq<usize>, window_size: usize, fuzz_factor: u64) -> bool {
    &&& bins.len() == NUM_BANDS
    &&& bands_ascending(bins)
    &&& (bins[NUM_BANDS - 1] as int) < window_size as int
    &&& (bins[NUM_BANDS - 1] as int) < 100 * (fuzz_factor as int)
}

/// High score and record bin of a left-to-right scan of the magnitudes in
/// the half-open bin range `[lo, hi)`, starting from a high score of zero and
/// a record bin of zero. A bin only becomes the record when its magnitude is
/// strictly greater than every magnitude before it in the range.
pub open spec fn scan_band(mags: Seq<u64>, lo: int, hi: int) -> (u64, int)
    decreases hi - lo,
{
    if hi <= lo {
        (0u64, 0int)
    } else {
        let prev = scan_band(mags, lo, hi - 1);
        if mags[hi - 1] > prev.0 {
            (mags[hi - 1], hi - 1)
        } else {
            prev
        }
    }
}

/// The record bin of a scan is zero or lies inside the scanned range.
pub proof fn lemma_scan_band_bounds(mags: Seq<u64>, lo: int, hi: int)
    requires
        0 <= lo,
    ensures
        scan_band(mags, lo, hi).1 == 0 || lo <= scan_band(mags, lo, hi).1 < hi,
        0 <= scan_band(mags, lo, hi).1,
    decreases hi - lo,
{
    if hi > lo {
        lemma_scan_band_bounds(mags, lo, hi - 1);
    }
}

/// In any pair of ascending band boundaries, the earlier one is at most the
/// later one.
pub proof fn lemma_ascending_chain(bins: Seq<usize>, i: int, j: int)
    requires
        bands_ascending(bins),
        0 <= i <= j < bins.len(),
    ensures
        bins[i] <= bins[j],
    decreases j - i,
{
    if i < j {
        lemma_ascending_chain(bins, i, j - 1);
        assert(bins[j - 1] < bins[j]);
    }
}

/// Configuration of the fingerprint engine: window size, band table and fuzz
/// factor, fixed at construction and shared read-only by all windows.
pub struct FingerprintHandle {
    /// Number of samples per analysis window; also the transform size.
    pub window_size: usize,
    /// Ascending spectral bin boundaries; band `i` covers the bins after
    /// boundary `i - 1` up to and including boundary `i`, and band `0` covers
    /// exactly its own boundary bin.
    pub freq_bins: Vec<usize>,
    /// Quantization divisor applied to record bins before encoding.
    pub fuzz_factor: u64,
}

impl FingerprintHandle {
    /// Validity of an engine configuration.
    pub open spec fn well_formed(self) -> bool {
        &&& is_pow2(self.window_size as int)
        &&& self.fuzz_factor >= 1
        &&& bands_ok(self.freq_bins@, self.window_size, self.fuzz_factor)
    }

    /// The fuzz bucket that a record bin falls into.
    pub open spec fn quantize(self, p: int) -> int {
        p / (self.fuzz_factor as int)
    }

    /// The fingerprint encoded from eight record bins: each band's quantized
    /// record accumulates at a fixed positional weight, the highest band at
    /// the most significant position.
    pub open spec fn encode_spec(self, pts: Seq<int>) -> int {
        self.quantize(pts[7]) * 10000000000000000
            + self.quantize(pts[6]) * 100000000000000
            + self.quantize(pts[5]) * 1000000000000
            + self.quantize(pts[4]) * 10000000000
            + self.quantize(pts[3]) * 100000000
            + self.quantize(pts[2]) * 1000000
            + self.quantize(pts[1]) * 100
            + self.quantize(pts[0])
    }

    /// First spectral bin of a band's scan range.
    pub open spec fn band_lo(self, band: int) -> int {
        if band == 0 {
            self.freq_bins@[0] as int
        } else {
            self.freq_bins@[band - 1] + 1
        }
    }

    /// One past the last spectral bin of a band's scan range.
    pub open spec fn band_hi(self, band: int) -> int {
        self.freq_bins@[band] + 1
    }

    /// The record bin of one band: the bin with the greatest magnitude in the
    /// band's range, the lowest such bin on ties, or zero when no magnitude
    /// in the range beats the initial zero.
    pub open spec fn record_point(self, mags: Seq<u64>, band: int) -> int {
        scan_band(mags, self.band_lo(band), self.band_hi(band)).1
    }

    /// The record bins of all bands of one window.
    pub open spec fn record_points_spec(self, mags: Seq<u64>) -> Seq<int> {
        Seq::new(NUM_BANDS as nat, |band: int| self.record_point(mags, band))
    }

    /// The fingerprint of one window's magnitude spectrum.
    pub open spec fn fingerprint_spec(self, mags: Seq<u64>) -> int {
        self.encode_spec(self.record_points_spec(mags))
    }

    /// Builds an engine after validating the configuration: the window size
    /// must be a power of two (so a radix-2 transform of exactly that size
    /// exists), the fuzz factor must be nonzero, and the band table must be
    /// usable with both. Checks run in that order and the first failure names
    /// the error.
    #[verifier::loop_isolation(false)]
    pub fn new(window_size: usize, freq_bins: Vec<usize>, fuzz_factor: u64) -> (r: Result<
        FingerprintHandle,
        ConfigError,
    >)
        ensures
            match r {
                Ok(h) => {
                    &&& h.window_size == window_size
                    &&& h.freq_bins@ == freq_bins@
                    &&& h.fuzz_factor == fuzz_factor
                    &&& h.well_formed()
                },
                Err(e) => {
                    &&& !(is_pow2(window_size as int) && fuzz_factor >= 1 && bands_ok(
                        freq_bins@,
                        window_size,
                        fuzz_factor,
                    ))
                    &&& (e == ConfigError::WindowSize <==> !is_pow2(window_size as int))
                    &&& (e == ConfigError::FuzzFactor <==> is_pow2(window_size as int)
                        && fuzz_factor == 0)
                    &&& (e == ConfigError::BandTable <==> is_pow2(window_size as int)
                        && fuzz_factor >= 1 && !bands_ok(freq_bins@, window_size, fuzz_factor))
                },
            },
    {
        if window_size == 0 {
            return Err(ConfigError::WindowSize);
        }
        let mut w = window_size;
        while w > 1
            invariant
                1 <= w,
                is_pow2(window_size as int) <==> is_pow2(w as int),
            decreases w,
        {
            if w % 2 == 1 {
                return Err(ConfigError::WindowSize);
            }
            w = w / 2;
        }
        if fuzz_factor == 0 {
            return Err(ConfigError::FuzzFactor);
        }
        if freq_bins.len() != NUM_BANDS {
            return Err(ConfigError::BandTable);
        }
        let mut i: usize = 1;
        while i < NUM_BANDS
            invariant
                1 <= i <= NUM_BANDS,
                freq_bins@.len() == NUM_BANDS,
                forall|j: int| 0 <= j < i - 1 ==> #[trigger] freq_bins@[j] < freq_bins@[j + 1],
            decreases NUM_BANDS - i,
        {
            if freq_bins[i - 1] >= freq_bins[i] {
                assert(!bands_ascending(freq_bins@));
                return Err(ConfigError::BandTable);
            }
            i += 1;
        }
        let last = freq_bins[NUM_BANDS - 1];
        if last >= window_size {
            return Err(ConfigError::BandTable);
        }
        if (last as u128) >= 100u128 * (fuzz_factor as u128) {
            return Err(ConfigError::BandTable);
        }
        Ok(FingerprintHandle { window_size, freq_bins, fuzz_factor })
    }

    /// Encodes the eight record bins of one window into a single fingerprint,
    /// quantizing each by the fuzz factor and accumulating at fixed
    /// positional weights, the highest band first. Each record bin must
    /// quantize below its positional weight, which also keeps the sum in
    /// range; the band scan always delivers that.
    pub fn encode(&self, record_points: &Vec<usize>) -> (fp: u64)
        requires
            self.well_formed(),
            record_points@.len() == NUM_BANDS,
            forall|b: int|
                0 <= b < NUM_BANDS ==> (#[trigger] record_points@[b] as int) < 100 * (
                self.fuzz_factor as int),
        ensures
            fp as int == self.encode_spec(record_points@.map_values(|p: usize| p as int)),
    {
        proof {
            let f = self.fuzz_factor as int;
            assert forall|b: int| 0 <= b < NUM_BANDS implies 0 <= self.quantize(
                #[trigger] record_points@[b] as int,
            ) <= 99 by {
                let p = record_points@[b] as int;
                lemma_div_pos_is_pos(p, f);
                lemma_multiply_divide_lt(p, f, 100);
            }
        }
        let f = self.fuzz_factor;
        let q0 = (record_points[0] as u64) / f;
        let q1 = (record_points[1] as u64) / f;
        let q2 = (record_points[2] as u64) / f;
        let q3 = (record_points[3] as u64) / f;
        let q4 = (record_points[4] as u64) / f;
        let q5 = (record_points[5] as u64) / f;
        let q6 = (record_points[6] as u64) / f;
        let q7 = (record_points[7] as u64) / f;
        q7 * 10000000000000000 + q6 * 100000000000000 + q5 * 1000000000000 + q4 * 10000000000
            + q3 * 100000000 + q2 * 1000000 + q1 * 100 + q0
    }

    /// Computes the fingerprint of one window from its magnitude spectrum:
    /// scans each band's bin range for the loudest bin, then encodes the
    /// eight record bins.
    #[verifier::loop_isolation(false)]
    pub fn calculate_fingerprint(&self, mags: &Vec<u64>) -> (fp: u64)
        requires
            self.well_formed(),
            mags@.len() == self.window_size,
        ensures
            fp as int == self.fingerprint_spec(mags@),
    {
        let mut record_points: Vec<usize> = Vec::new();
        let mut band: usize = 0;
        while band < NUM_BANDS
            invariant
                self.well_formed(),
                mags@.len() == self.window_size,
                band <= NUM_BANDS,
                record_points@.len() == band,
                forall|b: int|
                    0 <= b < band ==> #[trigger] record_points@[b] as int == self.record_point(
                        mags@,
                        b,
                    ),
                forall|b: int|
                    0 <= b < band ==> #[trigger] record_points@[b]
                        <= self.freq_bins@[NUM_BANDS - 1],
            decreases NUM_BANDS - band,
        {
            proof {
                lemma_ascending_chain(self.freq_bins@, band as int, NUM_BANDS - 1);
            }
            let lo: usize = if band == 0 {
                self.freq_bins[0]
            } else {
                proof {
                    lemma_ascending_chain(self.freq_bins@, band - 1, NUM_BANDS - 1);
                }
                self.freq_bins[band - 1] + 1
            };
            let hi: usize = self.freq_bins[band] + 1;
            let mut high: u64 = 0;
            let mut record: usize = 0;
            let mut bin: usize = lo;
            while bin < hi
                invariant
                    lo <= bin <= hi,
                    hi <= mags@.len(),
                    (high, record as int) == scan_band(mags@, lo as int, bin as int),
                decreases hi - bin,
            {
                let m = mags[bin];
                if m > high {
                    high = m;
                    record = bin;
                }
                bin += 1;
            }
            proof {
                lemma_scan_band_bounds(mags@, lo as int, hi as int);
            }
            record_points.push(record);
            band += 1;
        }
        let fp = self.encode(&record_points);
        proof {
            assert(record_points@.map_values(|p: usize| p as int) =~= self.record_points_spec(
                mags@,
            ));
        }
        fp
    }

    /// Splits a sample buffer into non-overlapping windows of the configured
    /// size, in order; trailing samples that do not fill a whole window are
    /// dropped. A buffer shorter than one window yields no windows at all —
    /// never an error.
    #[verifier::loop_isolation(false)]
    pub fn split_windows(&self, samples: &Vec<i16>) -> (windows: Vec<Vec<i16>>)
        requires
            self.well_formed(),
        ensures
            windows@.len() == samples@.len() as int / self.window_size as int,
            forall|w: int|
                0 <= w < windows@.len() ==> #[trigger] windows@[w]@ == samples@.subrange(
                    w * self.window_size as int,
                    (w + 1) * self.window_size as int,
                ),
            samples@.len() < self.window_size ==> windows@.len() == 0,
    {
        let ws = self.window_size;
        proof {
            if ws as int <= 0 {
                assert(!is_pow2(ws as int));
            }
        }
        let n = samples.len();
        let count = n / ws;
        proof {
            lemma_fundamental_div_mod(n as int, ws as int);
            if n < ws {
                lemma_basic_div(n as int, ws as int);
            }
        }
        let mut windows: Vec<Vec<i16>> = Vec::new();
        let mut w: usize = 0;
        while w < count
            invariant
                1 <= ws,
                n == samples@.len(),
                count == n as int / ws as int,
                count * ws <= n,
                w <= count,
                windows@.len() == w,
                forall|v: int|
                    0 <= v < w ==> #[trigger] windows@[v]@ == samples@.subrange(
                        v * ws as int,
                        (v + 1) * ws as int,
                    ),
            decreases count - w,
        {
            proof {
                lemma_mul_inequality(w as int, count as int, ws as int);
                lemma_mul_inequality(w as int + 1, count as int, ws as int);
                vstd::arithmetic::mul::lemma_mul_is_distributive_add_other_way(
                    ws as int,
                    w as int,
                    1,
                );
            }
            let base = w * ws;
            let mut window: Vec<i16> = Vec::new();
            let mut k: usize = 0;
            while k < ws
                invariant
                    k <= ws,
                    base == w * ws,
                    base + ws <= n,
                    n == samples@.len(),
                    window@.len() == k,
                    forall|j: int| 0 <= j < k ==> #[trigger] window@[j] == samples@[base + j],
                decreases ws - k,
            {
                window.push(samples[base + k]);
                k += 1;
            }
            proof {
                assert(window@ =~= samples@.subrange(
                    w as int * ws as int,
                    (w as int + 1) * ws as int,
                ));
            }
            windows.push(window);
            w += 1;
        }
        windows
    }

    /// Computes the fingerprint collection of a sample buffer whose windows
    /// have already been transformed into magnitude spectra, one fingerprint
    /// per window, preserving window order.
    #[verifier::loop_isolation(false)]
    pub fn calc_fingerprint_collection(&self, spectra: &Vec<Vec<u64>>) -> (fps: Vec<u64>)
        requires
            self.well_formed(),
            forall|i: int|
                0 <= i < spectra@.len() ==> (#[trigger] spectra@[i])@.len() == self.window_size,
        ensures
            fps@.len() == spectra@.len(),
            forall|i: int|
                0 <= i < spectra@.len() ==> #[trigger] fps@[i] as int == self.fingerprint_spec(
                    spectra@[i]@,
                ),
    {
        let mut fps: Vec<u64> = Vec::new();
        let mut i: usize = 0;
        while i < spectra.len()
            invariant
                self.well_formed(),
                i <= spectra@.len(),
                forall|j: int|
                    0 <= j < spectra@.len() ==> (#[trigger] spectra@[j])@.len()
                        == self.window_size,
                fps@.len() == i,
                forall|j: int|
                    0 <= j < i ==> #[trigger] fps@[j] as int == self.fingerprint_spec(
                        spectra@[j]@,
                    ),
            decreases spectra@.len() - i,
        {
            let fp = self.calculate_fingerprint(&spectra[i]);
            fps.push(fp);
            i += 1;
        }
        fps
    }
}

/// Law: encoding is deterministic. Any two results that the encode step can
/// produce for the same record-bin vector are the same fingerprint.
pub proof fn lemma_encode_deterministic(
    h: FingerprintHandle,
    pts: Vec<usize>,
    fp1: u64,
    fp2: u64,
)
    requires
        call_ensures(FingerprintHandle::encode, (&h, &pts), fp1),
        call_ensures(FingerprintHandle::encode, (&h, &pts), fp2),
    ensures
        fp1 == fp2,
{
}

/// Law: encoding is fuzz-tolerant. Two band-peak vectors whose record bins
/// fall into the same fuzz bucket in every band — in particular, vectors that
/// differ by less than the fuzz factor without crossing a bucket boundary —
/// encode to the same fingerprint.
pub proof fn lemma_fuzz_tolerance(h: FingerprintHandle, a: Seq<int>, b: Seq<int>)
    requires
        h.well_formed(),
        a.len() == NUM_BANDS,
        b.len() == NUM_BANDS,
        forall|i: int| 0 <= i < NUM_BANDS ==> #[trigger] h.quantize(a[i]) == h.quantize(b[i]),
    ensures
        h.encode_spec(a) == h.encode_spec(b),
{
    assert(h.quantize(a[0]) == h.quantize(b[0]));
    assert(h.quantize(a[1]) == h.quantize(b[1]));
    assert(h.quantize(a[2]) == h.quantize(b[2]));
    assert(h.quantize(a[3]) == h.quantize(b[3]));
    assert(h.quantize(a[4]) == h.quantize(b[4]));
    assert(h.quantize(a[5]) == h.quantize(b[5]));
    assert(h.quantize(a[6]) == h.quantize(b[6]));
    assert(h.quantize(a[7]) == h.quantize(b[7]));
}

} // verus!
