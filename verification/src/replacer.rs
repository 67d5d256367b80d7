//! The replacer: produces the fully rewritten text. For each span found by
//! the scanner, in order, the untouched slice before it is copied verbatim,
//! then the span's replacement markup is appended; after the last span the
//! remaining tail is copied unchanged.

use crate::scanner::find_mathematics;
use crate::scanner::lemma_scan_from_wf;
use crate::scanner::scan_from;
use crate::spans::Span;
use crate::spans::math_matches_span;
use crate::spans::replacement_spec;
use crate::spans::span_inner;
use crate::spans::span_wf;
use crate::spans::spans_wf;
use vstd::prelude::*;
use vstd::string::StrSliceExecFns;
use vstd::string::StringExecFns;

verus! {

/// The rewritten text from position `prev` on, given the spans that remain
/// to be replaced: the gap before each span is copied verbatim, the span
/// becomes its replacement markup, and the tail after the last span is
/// copied verbatim.
pub open spec fn replace_from(s: Seq<char>, spans: Seq<Span>, prev: int) -> Seq<char>
    decreases spans.len(),
{
    if spans.len() == 0 {
        s.subrange(prev, s.len() as int)
    } else {
        s.subrange(prev, spans[0].start) + replacement_spec(
            spans[0].kind,
            span_inner(s, spans[0]),
        ) + replace_from(s, spans.drop_first(), spans[0].end)
    }
}

/// What the transformation returns for an input text: every span the scan
/// finds is replaced by its wrapper markup, everything else is kept.
pub open spec fn transform_spec(s: Seq<char>) -> Seq<char> {
    replace_from(s, scan_from(s, 0), 0)
}

/// Law: when the scanner finds no span, the transformation is the identity.
pub proof fn lemma_identity_on_absence(s: Seq<char>)
    requires
        scan_from(s, 0).len() == 0,
    ensures
        transform_spec(s) == s,
{
    assert(transform_spec(s) =~= s);
}

/// Splicing the gaps and the spans' own delimited text back together, in
/// scan order, starting from position `prev`.
pub open spec fn stitch(s: Seq<char>, spans: Seq<Span>, prev: int) -> Seq<char>
    decreases spans.len(),
{
    if spans.len() == 0 {
        s.subrange(prev, s.len() as int)
    } else {
        s.subrange(prev, spans[0].start) + s.subrange(spans[0].start, spans[0].end) + stitch(
            s,
            spans.drop_first(),
            spans[0].end,
        )
    }
}

proof fn lemma_stitch_tiles(s: Seq<char>, spans: Seq<Span>, prev: int)
    requires
        0 <= prev <= s.len(),
        spans_wf(s, spans),
        forall|k: int| 0 <= k < spans.len() ==> prev <= (#[trigger] spans[k]).start,
    ensures
        stitch(s, spans, prev) == s.subrange(prev, s.len() as int),
    decreases spans.len(),
{
    if spans.len() > 0 {
        let sp = spans[0];
        let rest = spans.drop_first();
        assert(span_wf(s, spans[0]));
        assert forall|k: int|
            0 <= k < rest.len() implies span_wf(s, #[trigger] rest[k]) && sp.end
            <= rest[k].start by {
            assert(rest[k] == spans[k + 1]);
        }
        assert forall|j: int, k: int| 0 <= j < k < rest.len() implies (#[trigger] rest[j]).end <= (
        #[trigger] rest[k]).start by {
            assert(rest[j] == spans[j + 1]);
            assert(rest[k] == spans[k + 1]);
        }
        lemma_stitch_tiles(s, rest, sp.end);
        assert(stitch(s, spans, prev) =~= s.subrange(prev, s.len() as int));
    }
}

/// Law (order and coverage): the spans the scan finds are well-formed,
/// ordered and non-overlapping, and together with the untouched gaps they
/// tile the input exactly. The transformation's output is this same tiling
/// with each span's delimited text exchanged for its replacement markup.
pub proof fn lemma_order_and_coverage(s: Seq<char>)
    ensures
        spans_wf(s, scan_from(s, 0)),
        stitch(s, scan_from(s, 0), 0) == s,
{
    lemma_scan_from_wf(s, 0);
    lemma_stitch_tiles(s, scan_from(s, 0), 0);
    assert(s.subrange(0, s.len() as int) =~= s);
}

/// Rewrite every matched mathematical span of `content` into its wrapper
/// markup, copying everything outside the matched spans through verbatim.
pub fn replace_all_mathematics(content: &str) -> (replaced: String)
    ensures
        replaced@ == transform_spec(content@),
{
    let maths = find_mathematics(content);
    let ghost spans = scan_from(content@, 0);
    proof {
        lemma_scan_from_wf(content@, 0);
    }
    let n = content.unicode_len();
    let mut replaced = String::new();
    let mut previous_end_index: usize = 0;
    let mut i: usize = 0;
    proof {
        assert(spans.skip(0) =~= spans);
        assert(replaced@ + replace_from(content@, spans, 0) =~= replace_from(content@, spans, 0));
    }
    while i < maths.len()
        invariant
            maths@.len() == spans.len(),
            spans == scan_from(content@, 0),
            spans_wf(content@, spans),
            forall|k: int|
                0 <= k < spans.len() ==> math_matches_span(
                    content@,
                    #[trigger] maths@[k],
                    spans[k],
                ),
            n == content@.len(),
            i <= maths@.len(),
            previous_end_index as int == (if i == 0 {
                0int
            } else {
                spans[i - 1].end
            }),
            previous_end_index <= n,
            replaced@ + replace_from(content@, spans.skip(i as int), previous_end_index as int)
                == transform_spec(content@),
        decreases maths@.len() - i,
    {
        let ghost acc = replaced@;
        let ghost prev = previous_end_index as int;
        let ghost rem = spans.skip(i as int);
        proof {
            assert(math_matches_span(content@, maths@[i as int], spans[i as int]));
            assert(span_wf(content@, spans[i as int]));
            assert(rem[0] == spans[i as int]);
            assert(rem.drop_first() =~= spans.skip(i as int + 1));
            if i > 0 {
                // the previous span ends at or before this one's start
                assert(spans[i - 1].end <= spans[i as int].start);
            }
        }
        let math = &maths[i];
        let gap = content.substring_char(previous_end_index, math.start_index);
        replaced.append(gap);
        let rep = math.replacement();
        replaced.append(rep.as_str());
        previous_end_index = math.end_index;
        i = i + 1;
        proof {
            let tail_spec = replace_from(content@, spans.skip(i as int), previous_end_index as int);
            // one unfolding of `replace_from` on the spans that remained
            assert(replace_from(content@, rem, prev) == gap@ + rep@ + replace_from(
                content@,
                rem.drop_first(),
                rem[0].end,
            ));
            assert(replaced@ + tail_spec =~= acc + (gap@ + rep@ + tail_spec));
        }
    }
    let tail = content.substring_char(previous_end_index, n);
    replaced.append(tail);
    proof {
        assert(spans.skip(maths@.len() as int) =~= Seq::<Span>::empty());
        assert(replaced@ =~= transform_spec(content@));
    }
    replaced
}

} // verus!
