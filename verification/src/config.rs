//! Calibration of the three plausibility ranges and classification of a
//! parsed digit run. A [`Reformatter`] is built once from a reference instant
//! (`now`) and a year threshold; the ranges are `[now - delta, now + delta)`
//! expressed in seconds, milliseconds, and nanoseconds, where `delta` is the
//! threshold in years approximated as 365 days per year.

use vstd::prelude::*;

use crate::digits::{dec_len, spec_dec_len};
use crate::timefmt::now_epoch_seconds;

verus! {

/// Which calibrated range a digit run's value fell in, and so how it is
/// interpreted and how many fractional digits its rendering carries.
#[derive(Clone, Copy, Debug, PartialEq, Eq, Structural)]
pub enum Resolution {
    Secs,
    Millis,
    Nanos,
}

/// Largest magnitude, in seconds, whose nanosecond count still fits in `i64`.
/// The calibrated second bounds are kept within this magnitude so that every
/// scaling performed by the classifier stays in range.
pub const MAX_CALIBRATED_SECONDS: i64 = 9_223_372_036;

/// The timestamp reformatter: calibrated plausibility bounds plus the two
/// rendering options. Built once, then used per line with no further state.
pub struct Reformatter {
    /// Character length of the decimal rendering of `lower_s`, sign included:
    /// a digit run shorter than this cannot be in any of the three ranges.
    pub min_len: usize,
    /// Lower bound (inclusive) of the seconds range.
    pub lower_s: i64,
    /// Upper bound (exclusive) of the seconds range.
    pub upper_s: i64,
    /// Lower bound (inclusive) of the milliseconds range.
    pub lower_ms: i64,
    /// Upper bound (exclusive) of the milliseconds range.
    pub upper_ms: i64,
    /// Lower bound (inclusive) of the nanoseconds range.
    pub lower_ns: i64,
    /// Upper bound (exclusive) of the nanoseconds range.
    pub upper_ns: i64,
    /// Render in the host-local offset instead of UTC.
    pub localize: bool,
    /// Wrap each rendered timestamp in double quotes.
    pub quote: bool,
}

/// The calibration half-width in seconds: `|threshold_years|` years of 365
/// days each. The sign of the threshold is ignored.
pub open spec fn year_seconds(threshold_years: i32) -> int {
    (if threshold_years < 0 {
        -(threshold_years as int)
    } else {
        threshold_years as int
    }) * 31_536_000
}

/// The calibration window around `now_s` stays within the magnitude whose
/// nanosecond count fits in `i64`.
pub open spec fn calibration_fits(now_s: i64, threshold_years: i32) -> bool {
    &&& -(MAX_CALIBRATED_SECONDS as int) <= now_s - year_seconds(threshold_years)
    &&& now_s + year_seconds(threshold_years) <= MAX_CALIBRATED_SECONDS as int
}

/// The reformatter calibrated at reference instant `now_s`.
pub open spec fn spec_with_now(
    now_s: i64,
    threshold_years: i32,
    localize: bool,
    quote: bool,
) -> Reformatter {
    let lower = now_s - year_seconds(threshold_years);
    let upper = now_s + year_seconds(threshold_years);
    Reformatter {
        min_len: spec_dec_len(lower) as usize,
        lower_s: lower as i64,
        upper_s: upper as i64,
        lower_ms: (lower * 1000) as i64,
        upper_ms: (upper * 1000) as i64,
        lower_ns: (lower * 1_000_000_000) as i64,
        upper_ns: (upper * 1_000_000_000) as i64,
        localize,
        quote,
    }
}

impl Reformatter {
    /// The structural invariant every calibrated reformatter satisfies: the
    /// bounds are ordered, small enough to scale, the scaled bounds agree
    /// with the second bounds, and `min_len` is the print length of the
    /// lower second bound.
    pub open spec fn wf(self) -> bool {
        &&& -(MAX_CALIBRATED_SECONDS as int) <= self.lower_s <= self.upper_s
            <= MAX_CALIBRATED_SECONDS as int
        &&& self.lower_ms == self.lower_s * 1000
        &&& self.upper_ms == self.upper_s * 1000
        &&& self.lower_ns == self.lower_s * 1_000_000_000
        &&& self.upper_ns == self.upper_s * 1_000_000_000
        &&& self.min_len == spec_dec_len(self.lower_s as int)
        &&& 1 <= self.min_len <= 20
    }

    /// Classification of an already-parsed digit-run value `n`: the
    /// nanosecond instant it denotes and its resolution, or `None` when no
    /// calibrated range contains it. The ranges are tested seconds first,
    /// then milliseconds, then nanoseconds; the first match wins, which makes
    /// the outcome deterministic even under a calibration so wide that the
    /// ranges overlap.
    pub open spec fn classify_spec(self, n: int) -> Option<(int, Resolution)> {
        if self.lower_s <= n < self.upper_s {
            Some((n * 1_000_000_000, Resolution::Secs))
        } else if self.lower_ms <= n < self.upper_ms {
            Some((n * 1_000_000, Resolution::Millis))
        } else if self.lower_ns <= n < self.upper_ns {
            Some((n, Resolution::Nanos))
        } else {
            None
        }
    }

    /// Calibrates a reformatter around an explicit reference instant,
    /// given in seconds since the Unix epoch.
    pub fn with_now(now_s: i64, threshold_years: i32, localize: bool, quote: bool) -> (r: Self)
        requires
            calibration_fits(now_s, threshold_years),
        ensures
            r == spec_with_now(now_s, threshold_years, localize, quote),
            r.wf(),
    {
        let years: i64 = if threshold_years < 0 {
            -(threshold_years as i64)
        } else {
            threshold_years as i64
        };
        let delta: i64 = years * 31_536_000;
        let lower: i64 = now_s - delta;
        let upper: i64 = now_s + delta;
        Reformatter {
            min_len: dec_len(lower),
            lower_s: lower,
            upper_s: upper,
            lower_ms: lower * 1000,
            upper_ms: upper * 1000,
            lower_ns: lower * 1_000_000_000,
            upper_ns: upper * 1_000_000_000,
            localize,
            quote,
        }
    }

    /// Like [`Reformatter::with_now`], but checks the calibration bounds at
    /// run time: `None` exactly when the window around `now_s` is too wide
    /// for its nanosecond count to fit in `i64`.
    pub fn checked_with_now(now_s: i64, threshold_years: i32, localize: bool, quote: bool) -> (r:
        Option<Self>)
        ensures
            r is Some <==> calibration_fits(now_s, threshold_years),
            r matches Some(f) ==> f == spec_with_now(now_s, threshold_years, localize, quote)
                && f.wf(),
    {
        let years: i64 = if threshold_years < 0 {
            -(threshold_years as i64)
        } else {
            threshold_years as i64
        };
        let delta: i64 = years * 31_536_000;
        let lower = now_s.checked_sub(delta);
        let upper = now_s.checked_add(delta);
        match (lower, upper) {
            (Some(l), Some(u)) => {
                if -MAX_CALIBRATED_SECONDS <= l && u <= MAX_CALIBRATED_SECONDS {
                    Some(Self::with_now(now_s, threshold_years, localize, quote))
                } else {
                    None
                }
            },
            _ => None,
        }
    }

    /// Calibrates a reformatter from the wall clock at the moment of the
    /// call. `None` exactly when the window around the current instant is
    /// too wide to calibrate, which a realistic threshold never triggers.
    pub fn new(threshold_years: i32, localize: bool, quote: bool) -> (r: Option<Self>)
        ensures
            r matches Some(f) ==> {
                &&& f.wf()
                &&& f.localize == localize
                &&& f.quote == quote
                &&& exists|now_s: i64| f == spec_with_now(now_s, threshold_years, localize, quote)
            },
    {
        let now_s = now_epoch_seconds();
        let r = Self::checked_with_now(now_s, threshold_years, localize, quote);
        proof {
            if r is Some {
                assert(r->Some_0 == spec_with_now(now_s, threshold_years, localize, quote));
            }
        }
        r
    }

    /// Executable classifier; agrees exactly with [`Reformatter::classify_spec`].
    pub fn classify(&self, n: i64) -> (r: Option<(i64, Resolution)>)
        requires
            self.wf(),
        ensures
            ({
                let c = self.classify_spec(n as int);
                match r {
                    Some(p) => c == Some((p.0 as int, p.1)),
                    None => c is None,
                }
            }),
    {
        if self.lower_s <= n && n < self.upper_s {
            Some((n * 1_000_000_000, Resolution::Secs))
        } else if self.lower_ms <= n && n < self.upper_ms {
            Some((n * 1_000_000, Resolution::Millis))
        } else if self.lower_ns <= n && n < self.upper_ns {
            Some((n, Resolution::Nanos))
        } else {
            None
        }
    }
}

} // verus!
