//! The single-pass scanner: splits a line of text into fragments — literal
//! spans and detected timestamp candidates — working over characters, never
//! bytes, so multi-byte text around a digit run is preserved exactly.
//!
//! A step of the scan finds the next maximal run of ASCII decimal digits,
//! keeps the single character that follows it (or nothing at the end of the
//! line) as the lookahead, and either classifies the run as a timestamp or
//! passes it through as literal text. The spans emitted by the scan cover the
//! whole line, with no character lost or duplicated.

use vstd::prelude::*;

use crate::config::{Reformatter, Resolution};
use crate::digits::{digits_value, is_digit, is_digit_char, parse_digits};

verus! {

/// One span of a scanned line: either literal text emitted verbatim, or a
/// digit run classified as a timestamp, kept with the instant it denotes (in
/// nanoseconds since the epoch) and its detected resolution.
pub enum Fragment {
    Literal(Vec<char>),
    Stamp { digits: Vec<char>, ns: i64, res: Resolution },
}

/// The mathematical image of a [`Fragment`].
pub enum FragView {
    Literal(Seq<char>),
    Stamp { digits: Seq<char>, ns: int, res: Resolution },
}

impl View for Fragment {
    type V = FragView;

    open spec fn view(&self) -> FragView {
        match self {
            Fragment::Literal(text) => FragView::Literal(text@),
            Fragment::Stamp { digits, ns, res } => FragView::Stamp {
                digits: digits@,
                ns: *ns as int,
                res: *res,
            },
        }
    }
}

/// The views of a fragment sequence.
pub open spec fn views_of(frags: Seq<Fragment>) -> Seq<FragView> {
    frags.map_values(|f: Fragment| f@)
}

/// The span of the original line a fragment stands for: its text for a
/// literal, the digit run for a timestamp.
pub open spec fn frag_source(f: FragView) -> Seq<char> {
    match f {
        FragView::Literal(text) => text,
        FragView::Stamp { digits, .. } => digits,
    }
}

/// The concatenated source spans of a fragment sequence.
pub open spec fn frags_source(fs: Seq<FragView>) -> Seq<char>
    decreases fs.len(),
{
    if fs.len() == 0 {
        Seq::empty()
    } else {
        frag_source(fs[0]) + frags_source(fs.drop_first())
    }
}

/// Index of the first ASCII digit at or after `i`, or the line length.
pub open spec fn find_digit(line: Seq<char>, i: int) -> int
    decreases line.len() - i,
{
    if i < 0 || i >= line.len() {
        line.len() as int
    } else if is_digit(line[i]) {
        i
    } else {
        find_digit(line, i + 1)
    }
}

/// Index of the first non-digit character at or after `i`, or the line length.
pub open spec fn find_non_digit(line: Seq<char>, i: int) -> int
    decreases line.len() - i,
{
    if i < 0 || i >= line.len() {
        line.len() as int
    } else if !is_digit(line[i]) {
        i
    } else {
        find_non_digit(line, i + 1)
    }
}

pub proof fn lemma_find_digit(line: Seq<char>, i: int)
    requires
        0 <= i <= line.len(),
    ensures
        i <= find_digit(line, i) <= line.len(),
        forall|k: int| i <= k < find_digit(line, i) ==> !is_digit(#[trigger] line[k]),
        find_digit(line, i) < line.len() ==> is_digit(line[find_digit(line, i)]),
    decreases line.len() - i,
{
    if i < line.len() && !is_digit(line[i]) {
        lemma_find_digit(line, i + 1);
    }
}

pub proof fn lemma_find_non_digit(line: Seq<char>, i: int)
    requires
        0 <= i <= line.len(),
    ensures
        i <= find_non_digit(line, i) <= line.len(),
        forall|k: int| i <= k < find_non_digit(line, i) ==> is_digit(#[trigger] line[k]),
        find_non_digit(line, i) < line.len() ==> !is_digit(line[find_non_digit(line, i)]),
    decreases line.len() - i,
{
    if i < line.len() && is_digit(line[i]) {
        lemma_find_non_digit(line, i + 1);
    }
}

/// Whether a digit run is accepted as a timestamp: it must be at least
/// `min_len` characters (shorter runs cannot reach the lower second bound),
/// its value must fit in an `i64` (overflowing runs pass through silently),
/// and one of the calibrated ranges must contain the value.
pub open spec fn candidate_spec(cfg: Reformatter, run: Seq<char>) -> Option<(int, Resolution)> {
    if run.len() < cfg.min_len {
        None
    } else if digits_value(run) > i64::MAX {
        None
    } else {
        cfg.classify_spec(digits_value(run))
    }
}

/// The cursor position after handling the digit run that ends at `e`: one
/// past the lookahead character, clamped to the line length.
pub open spec fn next_cursor(line: Seq<char>, e: int) -> int {
    if e < line.len() {
        e + 1
    } else {
        line.len() as int
    }
}

/// The fragments the scan emits from cursor position `i` to the end of the
/// line. Each step skips to the next digit run; a classified run becomes the
/// literal text before it, the timestamp, and its one-character lookahead,
/// while an unclassified run is passed through literally together with the
/// text around it.
pub open spec fn scan_spec_from(cfg: Reformatter, line: Seq<char>, i: int) -> Seq<FragView>
    decreases line.len() - i,
    when 0 <= i
{
    if i >= line.len() {
        Seq::empty()
    } else {
        let d = find_digit(line, i);
        if d >= line.len() {
            seq![FragView::Literal(line.subrange(i, line.len() as int))]
        } else {
            let e = find_non_digit(line, d);
            let next = next_cursor(line, e);
            let run = line.subrange(d, e);
            proof {
                lemma_find_digit(line, i);
                lemma_find_non_digit(line, d);
            }
            match candidate_spec(cfg, run) {
                Some((ns, res)) => seq![
                    FragView::Literal(line.subrange(i, d)),
                    FragView::Stamp { digits: run, ns, res },
                    FragView::Literal(line.subrange(e, next)),
                ] + scan_spec_from(cfg, line, next),
                None => seq![FragView::Literal(line.subrange(i, next))] + scan_spec_from(
                    cfg,
                    line,
                    next,
                ),
            }
        }
    }
}

/// The fragments the scan emits for a whole line.
pub open spec fn scan_spec(cfg: Reformatter, line: Seq<char>) -> Seq<FragView> {
    scan_spec_from(cfg, line, 0)
}

/// Copies the character span `line[from..to]` into a fresh vector.
fn subvec(line: &Vec<char>, from: usize, to: usize) -> (v: Vec<char>)
    requires
        from <= to <= line@.len(),
    ensures
        v@ == line@.subrange(from as int, to as int),
{
    let mut v: Vec<char> = Vec::new();
    let mut k: usize = from;
    while k < to
        invariant
            from <= k <= to <= line@.len(),
            v@ == line@.subrange(from as int, k as int),
        decreases to - k,
    {
        v.push(line[k]);
        proof {
            assert(v@ =~= line@.subrange(from as int, k as int + 1));
        }
        k += 1;
    }
    v
}

impl Reformatter {
    /// Scans one line of text, given as characters, into its fragments:
    /// exactly the sequence [`scan_spec`] describes.
    pub fn scan_chars(&self, line: &Vec<char>) -> (frags: Vec<Fragment>)
        requires
            self.wf(),
        ensures
            views_of(frags@) == scan_spec(*self, line@),
    {
        let n = line.len();
        let mut frags: Vec<Fragment> = Vec::new();
        let mut i: usize = 0;
        while i < n
            invariant
                self.wf(),
                0 <= i <= n,
                n == line@.len(),
                scan_spec(*self, line@) == views_of(frags@) + scan_spec_from(
                    *self,
                    line@,
                    i as int,
                ),
            decreases n - i,
        {
            let ghost i0 = i as int;
            // Skip to the next digit.
            let mut d: usize = i;
            while d < n && !is_digit_char(line[d])
                invariant
                    i <= d <= n,
                    n == line@.len(),
                    find_digit(line@, i as int) == find_digit(line@, d as int),
                decreases n - d,
            {
                d += 1;
            }
            proof {
                assert(find_digit(line@, i0) == d as int);
            }
            if d == n {
                let ghost frags0 = frags@;
                let text = subvec(line, i, n);
                frags.push(Fragment::Literal(text));
                proof {
                    assert(views_of(frags@) =~= views_of(frags0) + seq![
                        FragView::Literal(line@.subrange(i0, n as int)),
                    ]);
                    assert(views_of(frags@) + scan_spec_from(*self, line@, n as int)
                        =~= views_of(frags0) + scan_spec_from(*self, line@, i0));
                }
                i = n;
            } else {
                // Extend over the maximal digit run.
                let mut e: usize = d + 1;
                while e < n && is_digit_char(line[e])
                    invariant
                        d < e <= n,
                        n == line@.len(),
                        is_digit(line@[d as int]),
                        find_non_digit(line@, d as int) == find_non_digit(line@, e as int),
                    decreases n - e,
                {
                    e += 1;
                }
                proof {
                    assert(find_non_digit(line@, d as int) == e as int);
                    lemma_find_non_digit(line@, d as int);
                }
                let next: usize = if e < n {
                    e + 1
                } else {
                    n
                };
                let cand: Option<(i64, Resolution)> = if e - d >= self.min_len {
                    match parse_digits(line, d, e) {
                        Some(v) => self.classify(v),
                        None => None,
                    }
                } else {
                    None
                };
                let ghost run = line@.subrange(d as int, e as int);
                proof {
                    match cand {
                        Some(p) => {
                            assert(candidate_spec(*self, run) == Some((p.0 as int, p.1)));
                        },
                        None => {
                            assert(candidate_spec(*self, run) is None);
                        },
                    }
                }
                let ghost frags0 = frags@;
                match cand {
                    Some((ns, res)) => {
                        let before = subvec(line, i, d);
                        let digits = subvec(line, d, e);
                        let after = subvec(line, e, next);
                        frags.push(Fragment::Literal(before));
                        frags.push(Fragment::Stamp { digits, ns, res });
                        frags.push(Fragment::Literal(after));
                        proof {
                            assert(views_of(frags@) =~= views_of(frags0) + seq![
                                FragView::Literal(line@.subrange(i0, d as int)),
                                FragView::Stamp { digits: run, ns: ns as int, res },
                                FragView::Literal(line@.subrange(e as int, next as int)),
                            ]);
                            assert(views_of(frags@) + scan_spec_from(*self, line@, next as int)
                                =~= views_of(frags0) + scan_spec_from(*self, line@, i0));
                        }
                    },
                    None => {
                        let text = subvec(line, i, next);
                        frags.push(Fragment::Literal(text));
                        proof {
                            assert(views_of(frags@) =~= views_of(frags0) + seq![
                                FragView::Literal(line@.subrange(i0, next as int)),
                            ]);
                            assert(views_of(frags@) + scan_spec_from(*self, line@, next as int)
                                =~= views_of(frags0) + scan_spec_from(*self, line@, i0));
                        }
                    },
                }
                i = next;
            }
        }
        proof {
            assert(scan_spec(*self, line@) =~= views_of(frags@));
        }
        frags
    }
}

/// A maximal digit run of the line: all characters in `[d, e)` are digits,
/// and the run can be extended in neither direction.
pub open spec fn is_max_run(line: Seq<char>, d: int, e: int) -> bool {
    &&& 0 <= d < e <= line.len()
    &&& forall|k: int| d <= k < e ==> is_digit(#[trigger] line[k])
    &&& (d == 0 || !is_digit(line[d - 1]))
    &&& (e == line.len() || !is_digit(line[e]))
}

/// No maximal digit run of the line is accepted as a timestamp: each is too
/// short, overflows, or lies outside all three calibrated ranges.
pub open spec fn all_runs_non_candidate(cfg: Reformatter, line: Seq<char>) -> bool {
    forall|d: int, e: int|
        #[trigger] is_max_run(line, d, e) ==> candidate_spec(cfg, line.subrange(d, e)) is None
}

/// Every fragment is literal text.
pub open spec fn all_literals(fs: Seq<FragView>) -> bool {
    forall|k: int| 0 <= k < fs.len() ==> (#[trigger] fs[k]) is Literal
}

proof fn lemma_frags_source_cons(f: FragView, fs: Seq<FragView>)
    ensures
        frags_source(seq![f] + fs) == frag_source(f) + frags_source(fs),
{
    let c = seq![f] + fs;
    assert(c[0] == f);
    assert(c.drop_first() =~= fs);
}

proof fn lemma_scan_coverage_from(cfg: Reformatter, line: Seq<char>, i: int)
    requires
        0 <= i <= line.len(),
    ensures
        frags_source(scan_spec_from(cfg, line, i)) == line.subrange(i, line.len() as int),
    decreases line.len() - i,
{
    let len = line.len() as int;
    if i == len {
        assert(line.subrange(i, len) =~= Seq::<char>::empty());
    } else {
        let d = find_digit(line, i);
        lemma_find_digit(line, i);
        let fs = scan_spec_from(cfg, line, i);
        if d >= len {
            let f = FragView::Literal(line.subrange(i, len));
            assert(fs =~= seq![f] + Seq::<FragView>::empty());
            lemma_frags_source_cons(f, Seq::empty());
            assert(frags_source(Seq::<FragView>::empty()) == Seq::<char>::empty());
            assert(frags_source(fs) =~= line.subrange(i, len));
        } else {
            let e = find_non_digit(line, d);
            lemma_find_non_digit(line, d);
            let next = next_cursor(line, e);
            let run = line.subrange(d, e);
            lemma_scan_coverage_from(cfg, line, next);
            let tail = scan_spec_from(cfg, line, next);
            match candidate_spec(cfg, run) {
                Some((ns, res)) => {
                    let f0 = FragView::Literal(line.subrange(i, d));
                    let f1 = FragView::Stamp { digits: run, ns, res };
                    let f2 = FragView::Literal(line.subrange(e, next));
                    assert(fs =~= seq![f0] + (seq![f1] + (seq![f2] + tail)));
                    lemma_frags_source_cons(f2, tail);
                    lemma_frags_source_cons(f1, seq![f2] + tail);
                    lemma_frags_source_cons(f0, seq![f1] + (seq![f2] + tail));
                    assert(frags_source(fs) =~= line.subrange(i, d) + run + line.subrange(e, next)
                        + line.subrange(next, len));
                    assert(frags_source(fs) =~= line.subrange(i, len));
                },
                None => {
                    let f = FragView::Literal(line.subrange(i, next));
                    assert(fs =~= seq![f] + tail);
                    lemma_frags_source_cons(f, tail);
                    assert(frags_source(fs) =~= line.subrange(i, next) + line.subrange(next, len));
                    assert(frags_source(fs) =~= line.subrange(i, len));
                },
            }
        }
    }
}

/// Coverage: the source spans of the scan of a line, concatenated in order,
/// are exactly the line. No character is lost or duplicated.
pub proof fn lemma_scan_coverage(cfg: Reformatter, line: Seq<char>)
    ensures
        frags_source(scan_spec(cfg, line)) == line,
{
    lemma_scan_coverage_from(cfg, line, 0);
    assert(line.subrange(0, line.len() as int) =~= line);
}

proof fn lemma_non_candidate_literals_from(cfg: Reformatter, line: Seq<char>, i: int)
    requires
        0 <= i <= line.len(),
        all_runs_non_candidate(cfg, line),
        i == line.len() || i == 0 || !is_digit(line[i - 1]),
    ensures
        all_literals(scan_spec_from(cfg, line, i)),
    decreases line.len() - i,
{
    let len = line.len() as int;
    if i < len {
        let d = find_digit(line, i);
        lemma_find_digit(line, i);
        if d < len {
            let e = find_non_digit(line, d);
            lemma_find_non_digit(line, d);
            let next = next_cursor(line, e);
            let run = line.subrange(d, e);
            assert(is_max_run(line, d, e));
            assert(candidate_spec(cfg, run) is None);
            lemma_non_candidate_literals_from(cfg, line, next);
            let fs = scan_spec_from(cfg, line, i);
            let tail = scan_spec_from(cfg, line, next);
            assert forall|k: int| 0 <= k < fs.len() implies (#[trigger] fs[k]) is Literal by {
                if k > 0 {
                    assert(fs[k] == tail[k - 1]);
                }
            }
        }
    }
}

/// Idempotence of non-candidates: when no maximal digit run of the line is
/// accepted, the scan is all literal text and reproduces the line exactly.
pub proof fn lemma_non_candidates_literal(cfg: Reformatter, line: Seq<char>)
    requires
        all_runs_non_candidate(cfg, line),
    ensures
        all_literals(scan_spec(cfg, line)),
        frags_source(scan_spec(cfg, line)) == line,
{
    lemma_non_candidate_literals_from(cfg, line, 0);
    lemma_scan_coverage(cfg, line);
}

} // verus!
