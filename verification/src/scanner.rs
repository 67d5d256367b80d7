//! The scanner: finds every maximal, non-overlapping occurrence of one of
//! the four delimiter conventions in a text, left to right, skipping
//! anything that does not form a complete, correctly-closed pair.
//!
//! The matching rules mirror a left-to-right alternation with leftmost-first
//! semantics: at each position the two-dollar Block reading is attempted
//! before the single-dollar Inline reading, then the two legacy tokens; the
//! next search resumes immediately after a match's end.

use crate::spans::Kind;
use crate::spans::Mathematics;
use crate::spans::Span;
use crate::spans::math_matches_span;
use crate::spans::span_inner;
use crate::spans::span_wf;
use crate::spans::spans_wf;
use crate::spans::strip_delimiters_from_delimited_text;
use vstd::prelude::*;
use vstd::string::StrSliceExecFns;

verus! {

/// Where the `$`-family content rule, whose inner text begins at `first`,
/// first reaches its closing delimiter when scanning from `q`.
///
/// The inner text is one or more characters, each either a non-dollar
/// character or part of an escaped dollar sign `\$`. A bare `$` therefore
/// stops the scan: for Block it closes the span when a second `$` follows,
/// is stepped over when it is escaped by a preceding `\`, and otherwise
/// kills the match; for Inline the first `$` after the opening closes the
/// span. An empty inner text (a delimiter immediately after the opening)
/// never matches.
pub open spec fn dollar_close(s: Seq<char>, first: int, q: int, block: bool) -> Option<int>
    decreases s.len() - q,
{
    if q < 0 || q >= s.len() {
        None
    } else if s[q] == '$' {
        if q == first {
            None
        } else if !block {
            Some(q)
        } else if q + 1 < s.len() && s[q + 1] == '$' {
            Some(q)
        } else if s[q - 1] == '\\' {
            dollar_close(s, first, q + 1, block)
        } else {
            None
        }
    } else {
        dollar_close(s, first, q + 1, block)
    }
}

/// The first position at or after `q` where a three-character legacy closing
/// token (`\`, `\`, then `close_ch`) begins. The legacy content rule is
/// lazy: the first closing token found terminates the span.
pub open spec fn legacy_close(s: Seq<char>, q: int, close_ch: char) -> Option<int>
    decreases s.len() - q,
{
    if q < 0 || q + 2 >= s.len() {
        None
    } else if s[q] == '\\' && s[q + 1] == '\\' && s[q + 2] == close_ch {
        Some(q)
    } else {
        legacy_close(s, q + 1, close_ch)
    }
}

/// The match attempted at position `i`: the first convention in priority
/// order (Block, Inline, LegacyInline, LegacyBlock) whose opening delimiter
/// stands at `i` and whose closing delimiter is reached.
///
/// When the two-dollar Block reading fails, the Inline reading cannot start
/// at the same position either: its inner text would have to begin with a
/// bare `$`, which the content rule refuses.
pub open spec fn match_at(s: Seq<char>, i: int) -> Option<Span>
    recommends
        0 <= i < s.len(),
{
    if s[i] == '$' {
        if i + 1 < s.len() && s[i + 1] == '$' {
            match dollar_close(s, i + 2, i + 2, true) {
                Some(q) => Some((Span { start: i, end: q + 2, kind: Kind::Block })),
                None => None,
            }
        } else {
            match dollar_close(s, i + 1, i + 1, false) {
                Some(q) => Some((Span { start: i, end: q + 1, kind: Kind::Inline })),
                None => None,
            }
        }
    } else if i + 2 < s.len() && s[i] == '\\' && s[i + 1] == '\\' && s[i + 2] == '(' {
        match legacy_close(s, i + 4, ')') {
            Some(q) => Some((Span { start: i, end: q + 3, kind: Kind::LegacyInline })),
            None => None,
        }
    } else if i + 2 < s.len() && s[i] == '\\' && s[i + 1] == '\\' && s[i + 2] == '[' {
        match legacy_close(s, i + 4, ']') {
            Some(q) => Some((Span { start: i, end: q + 3, kind: Kind::LegacyBlock })),
            None => None,
        }
    } else {
        None
    }
}

/// All matches from position `pos` on, in document order: the leftmost
/// position at which some convention matches yields the next span, and the
/// scan resumes at that span's end.
pub open spec fn scan_from(s: Seq<char>, pos: int) -> Seq<Span>
    decreases s.len() - pos,
    when 0 <= pos
    via scan_from_decreases
{
    if pos >= s.len() {
        Seq::empty()
    } else {
        match match_at(s, pos) {
            Some(sp) => seq![sp] + scan_from(s, sp.end),
            None => scan_from(s, pos + 1),
        }
    }
}

#[via_fn]
proof fn scan_from_decreases(s: Seq<char>, pos: int) {
    if 0 <= pos < s.len() {
        lemma_match_at_bounds(s, pos);
    }
}

proof fn lemma_dollar_close_bounds(s: Seq<char>, first: int, q0: int, block: bool)
    requires
        0 <= first <= q0,
    ensures
        (match dollar_close(s, first, q0, block) {
            Some(q) => q0 <= q < s.len() && first < q && s[q] == '$' && (block ==> q + 1 < s.len()
                && s[q + 1] == '$'),
            None => true,
        }),
    decreases s.len() - q0,
{
    if q0 < 0 || q0 >= s.len() {
    } else if s[q0] == '$' {
        if q0 != first && block && !(q0 + 1 < s.len() && s[q0 + 1] == '$') && s[q0 - 1] == '\\' {
            lemma_dollar_close_bounds(s, first, q0 + 1, block);
        }
    } else {
        lemma_dollar_close_bounds(s, first, q0 + 1, block);
    }
}

proof fn lemma_legacy_close_bounds(s: Seq<char>, q0: int, close_ch: char)
    requires
        0 <= q0,
    ensures
        (match legacy_close(s, q0, close_ch) {
            Some(q) => q0 <= q && q + 2 < s.len(),
            None => true,
        }),
    decreases s.len() - q0,
{
    if q0 < 0 || q0 + 2 >= s.len() {
    } else if s[q0] == '\\' && s[q0 + 1] == '\\' && s[q0 + 2] == close_ch {
    } else {
        lemma_legacy_close_bounds(s, q0 + 1, close_ch);
    }
}

/// A match found at `i` starts at `i` and is a well-formed span: it lies
/// inside the text and its inner text is non-empty.
pub proof fn lemma_match_at_bounds(s: Seq<char>, i: int)
    requires
        0 <= i < s.len(),
    ensures
        (match match_at(s, i) {
            Some(sp) => sp.start == i && span_wf(s, sp),
            None => true,
        }),
{
    if s[i] == '$' {
        if i + 1 < s.len() && s[i + 1] == '$' {
            lemma_dollar_close_bounds(s, i + 2, i + 2, true);
        } else {
            lemma_dollar_close_bounds(s, i + 1, i + 1, false);
        }
    } else {
        lemma_legacy_close_bounds(s, i + 4, ')');
        lemma_legacy_close_bounds(s, i + 4, ']');
    }
}

/// The scanner's output invariant, for any starting position: every span is
/// well-formed, no span starts before `pos`, and the spans are ordered and
/// non-overlapping.
pub proof fn lemma_scan_from_wf(s: Seq<char>, pos: int)
    requires
        0 <= pos,
    ensures
        spans_wf(s, scan_from(s, pos)),
        forall|k: int|
            0 <= k < scan_from(s, pos).len() ==> pos <= (#[trigger] scan_from(s, pos)[k]).start,
    decreases s.len() - pos,
{
    if pos >= s.len() {
    } else {
        match match_at(s, pos) {
            Some(sp) => {
                lemma_match_at_bounds(s, pos);
                lemma_scan_from_wf(s, sp.end);
                let rest = scan_from(s, sp.end);
                let whole = scan_from(s, pos);
                assert(whole =~= seq![sp] + rest);
                assert forall|k: int| 0 <= k < whole.len() implies span_wf(
                    s,
                    #[trigger] whole[k],
                ) && pos <= whole[k].start by {
                    if k > 0 {
                        assert(whole[k] == rest[k - 1]);
                    }
                }
                assert forall|j: int, k: int| 0 <= j < k < whole.len() implies (
                #[trigger] whole[j]).end <= (#[trigger] whole[k]).start by {
                    assert(whole[k] == rest[k - 1]);
                    if j > 0 {
                        assert(whole[j] == rest[j - 1]);
                    }
                }
            },
            None => {
                lemma_scan_from_wf(s, pos + 1);
            },
        }
    }
}

/// The characters of a text, one vector element per character.
fn to_char_vec(s: &str) -> (chars: Vec<char>)
    ensures
        chars@ == s@,
{
    let n = s.unicode_len();
    let mut chars: Vec<char> = Vec::new();
    let mut i: usize = 0;
    while i < n
        invariant
            n == s@.len(),
            i <= n,
            chars@ == s@.subrange(0, i as int),
        decreases n - i,
    {
        let c = s.get_char(i);
        chars.push(c);
        i = i + 1;
        proof {
            assert(chars@ =~= s@.subrange(0, i as int));
        }
    }
    proof {
        assert(chars@ =~= s@);
    }
    chars
}

/// Scan for the `$`-family closing delimiter, implementing `dollar_close`.
fn find_dollar_close(chars: &Vec<char>, first: usize, block: bool) -> (r: Option<usize>)
    requires
        first <= chars@.len(),
    ensures
        (match r {
            Some(q) => first <= q < chars@.len() && dollar_close(
                chars@,
                first as int,
                first as int,
                block,
            ) == Some(q as int),
            None => dollar_close(chars@, first as int, first as int, block) is None,
        }),
{
    let n = chars.len();
    let mut q: usize = first;
    while q < n
        invariant
            n == chars@.len(),
            first <= q <= n,
            dollar_close(chars@, first as int, q as int, block) == dollar_close(
                chars@,
                first as int,
                first as int,
                block,
            ),
        decreases n - q,
    {
        if chars[q] == '$' {
            if q == first {
                return None;
            } else if !block {
                return Some(q);
            } else if q + 1 < n && chars[q + 1] == '$' {
                return Some(q);
            } else if chars[q - 1] == '\\' {
                q = q + 1;
            } else {
                return None;
            }
        } else {
            q = q + 1;
        }
    }
    None
}

/// Scan for the first legacy closing token, implementing `legacy_close`.
fn find_legacy_close(chars: &Vec<char>, from: usize, close_ch: char) -> (r: Option<usize>)
    requires
        from <= chars@.len(),
    ensures
        (match r {
            Some(q) => from <= q && q + 2 < chars@.len() && legacy_close(
                chars@,
                from as int,
                close_ch,
            ) == Some(q as int),
            None => legacy_close(chars@, from as int, close_ch) is None,
        }),
{
    let n = chars.len();
    if n < 3 {
        return None;
    }
    let mut q: usize = from;
    while q < n - 2
        invariant
            n == chars@.len(),
            3 <= n,
            from <= q <= n,
            legacy_close(chars@, q as int, close_ch) == legacy_close(chars@, from as int, close_ch),
        decreases n - q,
    {
        if chars[q] == '\\' && chars[q + 1] == '\\' && chars[q + 2] == close_ch {
            return Some(q);
        }
        q = q + 1;
    }
    None
}

/// Attempt a match at position `i`, implementing `match_at`: the result
/// carries the convention and the end of the preferred match.
fn try_match_at(chars: &Vec<char>, i: usize) -> (r: Option<(Kind, usize)>)
    requires
        i < chars@.len(),
    ensures
        (match r {
            Some(m) => i < m.1 <= chars@.len() && match_at(chars@, i as int) == Some(
                (Span { start: i as int, end: m.1 as int, kind: m.0 }),
            ),
            None => match_at(chars@, i as int) is None,
        }),
{
    let n = chars.len();
    if chars[i] == '$' {
        if i + 1 < n && chars[i + 1] == '$' {
            proof {
                lemma_dollar_close_bounds(chars@, i + 2, i + 2, true);
            }
            match find_dollar_close(chars, i + 2, true) {
                Some(q) => Some((Kind::Block, q + 2)),
                None => None,
            }
        } else {
            match find_dollar_close(chars, i + 1, false) {
                Some(q) => Some((Kind::Inline, q + 1)),
                None => None,
            }
        }
    } else if n - i >= 3 && chars[i] == '\\' && chars[i + 1] == '\\' && (chars[i + 2] == '(' || chars[i + 2] == '[') {
        let inline_style = chars[i + 2] == '(';
        let close_ch = if inline_style {
            ')'
        } else {
            ']'
        };
        let kind = if inline_style {
            Kind::LegacyInline
        } else {
            Kind::LegacyBlock
        };
        if n - i >= 7 {
            match find_legacy_close(chars, i + 4, close_ch) {
                Some(q) => Some((kind, q + 3)),
                None => None,
            }
        } else {
            proof {
                // the closing-token search would begin within the last six
                // characters, where no room for a closing token is left
                assert(legacy_close(chars@, i + 4, close_ch) is None);
            }
            None
        }
    } else {
        None
    }
}

/// Build the record for a matched span: slice the delimited text out of the
/// content and strip the convention's delimiters.
fn make_mathematics<'a>(content: &'a str, start: usize, end: usize, kind: Kind) -> (m:
    Mathematics<'a>)
    requires
        span_wf(content@, (Span { start: start as int, end: end as int, kind: kind })),
    ensures
        math_matches_span(content@, m, (Span { start: start as int, end: end as int, kind: kind })),
{
    let delimited_text = content.substring_char(start, end);
    let text = strip_delimiters_from_delimited_text(&kind, delimited_text);
    proof {
        let ghost sp = Span { start: start as int, end: end as int, kind: kind };
        assert(text@ =~= span_inner(content@, sp));
    }
    Mathematics { start_index: start, end_index: end, kind: kind, text: text }
}

/// Every matched expression span of a text, in document order. The result
/// lists exactly the spans that the specification scan finds, each with its
/// character range, convention, and inner text.
pub fn find_mathematics<'a>(content: &'a str) -> (result: Vec<Mathematics<'a>>)
    ensures
        result@.len() == scan_from(content@, 0).len(),
        forall|k: int|
            0 <= k < result@.len() ==> math_matches_span(
                content@,
                #[trigger] result@[k],
                scan_from(content@, 0)[k],
            ),
{
    let chars = to_char_vec(content);
    let n = chars.len();
    let mut result: Vec<Mathematics<'a>> = Vec::new();
    let ghost mut done: Seq<Span> = Seq::empty();
    let mut pos: usize = 0;
    while pos < n
        invariant
            chars@ == content@,
            n == chars@.len(),
            pos <= n,
            scan_from(content@, 0) == done + scan_from(content@, pos as int),
            result@.len() == done.len(),
            forall|k: int|
                0 <= k < done.len() ==> math_matches_span(content@, #[trigger] result@[k], done[k]),
        decreases n - pos,
    {
        match try_match_at(&chars, pos) {
            Some((kind, end)) => {
                proof {
                    lemma_match_at_bounds(content@, pos as int);
                }
                let m = make_mathematics(content, pos, end, kind);
                result.push(m);
                proof {
                    let sp = Span { start: pos as int, end: end as int, kind: kind };
                    assert(scan_from(content@, pos as int) =~= seq![sp] + scan_from(
                        content@,
                        end as int,
                    ));
                    done = done.push(sp);
                    assert(scan_from(content@, 0) =~= done + scan_from(content@, end as int));
                }
                pos = end;
            },
            None => {
                pos = pos + 1;
            },
        }
    }
    proof {
        assert(scan_from(content@, pos as int) =~= Seq::empty());
        assert(scan_from(content@, 0) =~= done);
    }
    result
}

} // verus!
