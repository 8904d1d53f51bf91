//! RFC 3339 rendering of a classified instant. The calendar arithmetic (from
//! an epoch instant to year-month-day hour:minute:second, and to the host's
//! local offset) is done by chrono behind trusted wrappers; the fractional
//! second field and the final assembly are built and verified here, so the
//! fraction always has exactly the digit count its resolution calls for.

use vstd::prelude::*;

use chrono::TimeZone;

use crate::config::{Reformatter, Resolution};
use crate::digits::{is_digit, lemma_pad_spec_len, pad_spec, push_padded};

verus! {

/// The characters chrono prints for the UTC instant `ns` nanoseconds from the
/// epoch under the pattern `%Y-%m-%dT%H:%M:%S`: a function of `ns` alone.
pub uninterp spec fn utc_base_chars(ns: int) -> Seq<char>;

/// Relies on chrono's `TimeZone::timestamp_nanos`, documented never to fail
/// for any `i64`, and on `DateTime::format` with the fixed pattern
/// `%Y-%m-%dT%H:%M:%S`: for UTC the rendering depends on `ns` alone, each
/// field is zero-padded (so at least `YYYY-MM-DDTHH:MM:SS`, 19 characters),
/// and the pattern emits only digits and the separators `-`, `T`, `:`,
/// never a dot.
#[verifier::external_body]
fn utc_base(ns: i64) -> (r: String)
    ensures
        r@ == utc_base_chars(ns as int),
        r@.len() >= 19,
        forall|k: int| 0 <= k < r@.len() ==> r@[k] != '.',
{
    chrono::Utc.timestamp_nanos(ns).format("%Y-%m-%dT%H:%M:%S").to_string()
}

/// Relies on chrono's `TimeZone::timestamp_nanos` and `DateTime::format` with
/// the fixed pattern `%Y-%m-%dT%H:%M:%S`, after conversion to the host-local
/// offset. The offset depends on the host's time zone, so only the shape is
/// stated: the zero-padded pattern prints at least 19 characters.
#[verifier::external_body]
fn local_base(ns: i64) -> (r: String)
    ensures
        r@.len() >= 19,
{
    chrono::DateTime::<chrono::Local>::from(chrono::Utc.timestamp_nanos(ns))
        .format("%Y-%m-%dT%H:%M:%S")
        .to_string()
}

/// Relies on chrono's `DateTime::format` with the pattern `%Z` on a
/// host-local time: for `Local`, whose offset type is `FixedOffset`, `%Z`
/// prints that offset's display form `+HH:MM` / `-HH:MM` (with an optional
/// `:SS`), which is nonempty and ends in a digit — never in `Z`.
#[verifier::external_body]
fn local_offset(ns: i64) -> (r: String)
    ensures
        r@.len() > 0,
        r@[r@.len() - 1] != 'Z',
{
    chrono::DateTime::<chrono::Local>::from(chrono::Utc.timestamp_nanos(ns)).format("%Z").to_string()
}

/// Relies on chrono's `Utc::now` and `DateTime::timestamp`: the current wall
/// clock in whole seconds since the Unix epoch. Nothing is assumed of the
/// value; callers must cope with any clock reading.
#[verifier::external_body]
pub(crate) fn now_epoch_seconds() -> i64 {
    chrono::Utc::now().timestamp()
}

/// Relies on `String: FromIterator<char>`: collecting characters yields the
/// string of exactly those characters in order.
#[verifier::external_body]
pub(crate) fn chars_to_string(v: &Vec<char>) -> (r: String)
    ensures
        r@ == v@,
{
    v.iter().collect()
}

/// The sub-second part of the instant `ns`, in nanoseconds, in
/// `0..1_000_000_000` (Euclidean remainder, so correct before the epoch too).
pub open spec fn subsecond_nanos(ns: int) -> int {
    ns % 1_000_000_000
}

fn subsecond_nanos_exec(ns: i64) -> (r: i64)
    ensures
        r == subsecond_nanos(ns as int),
        0 <= r < 1_000_000_000,
{
    match ns.checked_rem_euclid(1_000_000_000) {
        Some(r) => r,
        None => {
            proof {
                assert(false);
            }
            0
        },
    }
}

/// The fractional-second field for a resolution: empty for seconds, `.` plus
/// exactly three digits for milliseconds, `.` plus exactly nine digits for
/// nanoseconds.
pub open spec fn frac_chars(ns: int, res: Resolution) -> Seq<char> {
    match res {
        Resolution::Secs => Seq::empty(),
        Resolution::Millis => seq!['.'] + pad_spec(subsecond_nanos(ns) / 1_000_000, 3),
        Resolution::Nanos => seq!['.'] + pad_spec(subsecond_nanos(ns), 9),
    }
}

/// Wraps a rendered timestamp in double quotes when the option asks for it.
pub open spec fn quote_wrap(q: bool, s: Seq<char>) -> Seq<char> {
    if q {
        seq!['"'] + s + seq!['"']
    } else {
        s
    }
}

/// The full UTC rendering of a classified instant: calendar part, fractional
/// field, `Z` suffix, and optional quoting.
pub open spec fn utc_render(cfg: Reformatter, ns: int, res: Resolution) -> Seq<char> {
    quote_wrap(cfg.quote, utc_base_chars(ns) + frac_chars(ns, res) + seq!['Z'])
}

fn push_frac(out: &mut Vec<char>, ns: i64, res: Resolution)
    ensures
        final(out)@ == old(out)@ + frac_chars(ns as int, res),
{
    match res {
        Resolution::Secs => {
            proof {
                assert(out@ =~= old(out)@ + frac_chars(ns as int, Resolution::Secs));
            }
        },
        Resolution::Millis => {
            out.push('.');
            let sub = subsecond_nanos_exec(ns);
            push_padded(out, sub / 1_000_000, 3);
            proof {
                assert(out@ =~= old(out)@ + frac_chars(ns as int, Resolution::Millis));
            }
        },
        Resolution::Nanos => {
            out.push('.');
            let sub = subsecond_nanos_exec(ns);
            push_padded(out, sub, 9);
            proof {
                assert(out@ =~= old(out)@ + frac_chars(ns as int, Resolution::Nanos));
            }
        },
    }
}

pub(crate) fn push_str_chars(out: &mut Vec<char>, s: &str)
    ensures
        final(out)@ == old(out)@ + s@,
{
    let n = s.unicode_len();
    let mut i: usize = 0;
    while i < n
        invariant
            0 <= i <= n,
            n == s@.len(),
            out@ == old(out)@ + s@.subrange(0, i as int),
        decreases n - i,
    {
        let c = s.get_char(i);
        out.push(c);
        proof {
            assert(out@ =~= old(out)@ + s@.subrange(0, i as int + 1));
        }
        i += 1;
    }
    proof {
        assert(s@.subrange(0, n as int) =~= s@);
    }
}

impl Reformatter {
    /// Renders a classified instant. In UTC mode the result is exactly the
    /// rendering [`utc_render`] describes; in localized mode the host's
    /// offset designator replaces the `Z` suffix, so the unquoted result
    /// never ends in `Z`.
    pub fn format_instant(&self, ns: i64, res: Resolution) -> (out: Vec<char>)
        ensures
            !self.localize ==> out@ == utc_render(*self, ns as int, res),
            out@.len() > 0,
            self.localize && !self.quote ==> out@[out@.len() - 1] != 'Z',
            self.quote ==> out@[0] == '"' && out@[out@.len() - 1] == '"',
    {
        let mut out: Vec<char> = Vec::new();
        if self.quote {
            out.push('"');
        }
        if self.localize {
            let base = local_base(ns);
            push_str_chars(&mut out, base.as_str());
            push_frac(&mut out, ns, res);
            let off = local_offset(ns);
            push_str_chars(&mut out, off.as_str());
        } else {
            let base = utc_base(ns);
            push_str_chars(&mut out, base.as_str());
            push_frac(&mut out, ns, res);
            out.push('Z');
        }
        if self.quote {
            out.push('"');
            proof {
                if !self.localize {
                    assert(out@ =~= utc_render(*self, ns as int, res));
                }
            }
        } else {
            proof {
                if !self.localize {
                    assert(out@ =~= utc_render(*self, ns as int, res));
                }
            }
        }
        out
    }
}

/// Round-trip resolution selection: a value inside the seconds range is
/// classified at second resolution and rendered with no fractional digits; a
/// value that only the milliseconds range contains gets a fraction of exactly
/// three digits; a value that only the nanoseconds range contains gets a
/// fraction of exactly nine digits. Each fraction is a dot followed by
/// digits only.
pub proof fn lemma_resolution_fraction_digits(cfg: Reformatter, v: int)
    requires
        cfg.wf(),
    ensures
        cfg.lower_s <= v < cfg.upper_s ==> cfg.classify_spec(v) == Some(
            (v * 1_000_000_000, Resolution::Secs),
        ) && frac_chars(v * 1_000_000_000, Resolution::Secs).len() == 0,
        !(cfg.lower_s <= v < cfg.upper_s) && cfg.lower_ms <= v < cfg.upper_ms
            ==> cfg.classify_spec(v) == Some((v * 1_000_000, Resolution::Millis)) && is_fraction(
            frac_chars(v * 1_000_000, Resolution::Millis),
            3,
        ),
        !(cfg.lower_s <= v < cfg.upper_s) && !(cfg.lower_ms <= v < cfg.upper_ms) && cfg.lower_ns
            <= v < cfg.upper_ns ==> cfg.classify_spec(v) == Some((v, Resolution::Nanos))
            && is_fraction(frac_chars(v, Resolution::Nanos), 9),
{
    lemma_pad_spec_len(subsecond_nanos(v * 1_000_000) / 1_000_000, 3);
    lemma_pad_spec_len(subsecond_nanos(v), 9);
}

/// A dot followed by exactly `width` decimal digits.
pub open spec fn is_fraction(s: Seq<char>, width: nat) -> bool {
    &&& s.len() == width + 1
    &&& s[0] == '.'
    &&& forall|k: int| 1 <= k < s.len() ==> is_digit(#[trigger] s[k])
}

} // verus!
