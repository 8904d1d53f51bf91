//! Reassembly of a scanned line: literal fragments are emitted verbatim and
//! classified timestamps are rendered in place, reproducing every other
//! character of the line exactly.

use vstd::prelude::*;

use crate::config::Reformatter;
use crate::scan::{all_literals, frags_source, lemma_non_candidates_literal};
use crate::scan::{all_runs_non_candidate, scan_spec, views_of, FragView, Fragment};
use crate::timefmt::{chars_to_string, push_str_chars, utc_render};

verus! {

/// What one fragment contributes to the UTC output: its text for a literal,
/// the rendering of its instant for a timestamp.
pub open spec fn render_frag_utc(cfg: Reformatter, f: FragView) -> Seq<char> {
    match f {
        FragView::Literal(text) => text,
        FragView::Stamp { digits, ns, res } => utc_render(cfg, ns, res),
    }
}

/// The UTC output for a fragment sequence, in order.
pub open spec fn render_frags_utc(cfg: Reformatter, fs: Seq<FragView>) -> Seq<char>
    decreases fs.len(),
{
    if fs.len() == 0 {
        Seq::empty()
    } else {
        render_frag_utc(cfg, fs[0]) + render_frags_utc(cfg, fs.drop_first())
    }
}

/// The complete UTC output for a line: its scan, rendered.
pub open spec fn line_render(cfg: Reformatter, line: Seq<char>) -> Seq<char> {
    render_frags_utc(cfg, scan_spec(cfg, line))
}

fn push_all(out: &mut Vec<char>, src: &Vec<char>)
    ensures
        final(out)@ == old(out)@ + src@,
{
    let n = src.len();
    let mut i: usize = 0;
    while i < n
        invariant
            0 <= i <= n,
            n == src@.len(),
            out@ == old(out)@ + src@.subrange(0, i as int),
        decreases n - i,
    {
        out.push(src[i]);
        proof {
            assert(out@ =~= old(out)@ + src@.subrange(0, i as int + 1));
        }
        i += 1;
    }
    proof {
        assert(src@.subrange(0, n as int) =~= src@);
    }
}

impl Reformatter {
    /// Emits the output for a scanned fragment sequence. In UTC mode the
    /// result is exactly [`render_frags_utc`]; in any mode, a sequence of
    /// literal fragments alone is reproduced verbatim.
    pub fn render_fragments(&self, frags: &Vec<Fragment>) -> (out: Vec<char>)
        ensures
            !self.localize ==> out@ == render_frags_utc(*self, views_of(frags@)),
            all_literals(views_of(frags@)) ==> out@ == frags_source(views_of(frags@)),
    {
        let ghost views = views_of(frags@);
        let mut out: Vec<char> = Vec::new();
        proof {
            assert(views.skip(0) =~= views);
            assert(out@ + render_frags_utc(*self, views) =~= render_frags_utc(*self, views));
            assert(out@ + frags_source(views) =~= frags_source(views));
        }
        let n = frags.len();
        let mut i: usize = 0;
        while i < n
            invariant
                0 <= i <= n,
                n == frags@.len(),
                views == views_of(frags@),
                !self.localize ==> out@ + render_frags_utc(*self, views.skip(i as int))
                    == render_frags_utc(*self, views),
                all_literals(views) ==> out@ + frags_source(views.skip(i as int)) == frags_source(
                    views,
                ),
            decreases n - i,
        {
            let ghost rest = views.skip(i as int);
            proof {
                assert(rest[0] == views[i as int]);
                assert(rest.drop_first() =~= views.skip(i as int + 1));
            }
            match &frags[i] {
                Fragment::Literal(text) => {
                    push_all(&mut out, text);
                },
                Fragment::Stamp { digits, ns, res } => {
                    let rendered = self.format_instant(*ns, *res);
                    push_all(&mut out, &rendered);
                    proof {
                        if all_literals(views) {
                            assert(!(views[i as int] is Literal));
                            assert(false);
                        }
                    }
                },
            }
            i += 1;
        }
        proof {
            assert(views.skip(n as int) =~= Seq::<FragView>::empty());
        }
        out
    }

    /// Rewrites one line of text: every digit run that one of the calibrated
    /// ranges accepts is replaced by its rendered timestamp, and every other
    /// character is reproduced exactly. In UTC mode the output is precisely
    /// [`line_render`]; in every mode, a line none of whose digit runs is
    /// accepted comes back unchanged.
    pub fn reformat_line(&self, line: &str) -> (out: String)
        requires
            self.wf(),
        ensures
            !self.localize ==> out@ == line_render(*self, line@),
            all_runs_non_candidate(*self, line@) ==> out@ == line@,
    {
        let mut chars: Vec<char> = Vec::new();
        push_str_chars(&mut chars, line);
        let frags = self.scan_chars(&chars);
        let rendered = self.render_fragments(&frags);
        let out = chars_to_string(&rendered);
        proof {
            if all_runs_non_candidate(*self, line@) {
                lemma_non_candidates_literal(*self, line@);
            }
        }
        out
    }
}

} // verus!
