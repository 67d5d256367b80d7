//! The data carried for one recognized expression span: its delimiter
//! convention, its position in the text, and its inner text, together with
//! the specification-level view of a span and the replacement markup rule.

use vstd::prelude::*;
use vstd::string::StrSliceExecFns;
use vstd::string::StringExecFns;

verus! {

/// The four delimiter conventions a span can use.
#[derive(Debug, PartialEq, Eq, Clone, Copy)]
pub enum Kind {
    Inline,
    Block,
    LegacyInline,
    LegacyBlock,
}

/// Character count of a convention's opening delimiter; the closing
/// delimiter has the same length.
pub open spec fn delimiter_len(kind: Kind) -> int {
    match kind {
        Kind::Inline => 1,
        Kind::Block => 2,
        Kind::LegacyInline => 3,
        Kind::LegacyBlock => 3,
    }
}

/// A matched span as the specification sees it: the half-open character
/// range `[start, end)` of the full delimited text, and its convention.
pub ghost struct Span {
    pub start: int,
    pub end: int,
    pub kind: Kind,
}

/// The inner text of a span: its delimited range with the opening and
/// closing delimiter stripped.
pub open spec fn span_inner(s: Seq<char>, sp: Span) -> Seq<char> {
    s.subrange(sp.start + delimiter_len(sp.kind), sp.end - delimiter_len(sp.kind))
}

/// A span is well-formed for a text when it lies inside the text and is long
/// enough that stripping both delimiters leaves at least one inner character.
pub open spec fn span_wf(s: Seq<char>, sp: Span) -> bool {
    &&& 0 <= sp.start
    &&& sp.start + 2 * delimiter_len(sp.kind) < sp.end
    &&& sp.end <= s.len()
}

/// A span sequence is well-formed for a text when every span is, and the
/// spans are ordered and non-overlapping.
pub open spec fn spans_wf(s: Seq<char>, spans: Seq<Span>) -> bool {
    &&& forall|k: int| 0 <= k < spans.len() ==> span_wf(s, #[trigger] spans[k])
    &&& forall|j: int, k: int|
        0 <= j < k < spans.len() ==> (#[trigger] spans[j]).end <= (#[trigger] spans[k]).start
}

/// A single recognized expression occurrence: the character offsets of the
/// full delimited range `[start_index, end_index)` in the source text, its
/// convention, and the inner text with the delimiters stripped.
#[derive(Debug, PartialEq, Eq)]
pub struct Mathematics<'a> {
    pub start_index: usize,
    pub end_index: usize,
    pub kind: Kind,
    pub text: &'a str,
}

/// The record `m` carries exactly the data of the specification span `sp`.
pub open spec fn math_matches_span(s: Seq<char>, m: Mathematics, sp: Span) -> bool {
    &&& m.start_index == sp.start
    &&& m.end_index == sp.end
    &&& m.kind == sp.kind
    &&& m.text@ == span_inner(s, sp)
}

/// The replacement markup for a span: block conventions become a math-class
/// `div` wrapping `$$ ... $$`, inline conventions an inline-math `span`
/// wrapping `$ ... $`, with the inner text unchanged in the middle.
pub open spec fn replacement_spec(kind: Kind, text: Seq<char>) -> Seq<char> {
    match kind {
        Kind::Block | Kind::LegacyBlock => ("<div class=\"math\">$$")@ + text + ("$$</div>")@,
        Kind::Inline | Kind::LegacyInline => ("<span class=\"inline math\">$")@ + text
            + ("$</span>")@,
    }
}

impl<'a> Mathematics<'a> {
    /// The wrapper markup that stands in for this occurrence in the output.
    pub fn replacement(&self) -> (r: String)
        ensures
            r@ == replacement_spec(self.kind, self.text@),
    {
        let mut replacement = String::new();
        match self.kind {
            Kind::Block | Kind::LegacyBlock => {
                replacement.append("<div class=\"math\">$$");
                replacement.append(self.text);
                replacement.append("$$</div>");
            },
            Kind::Inline | Kind::LegacyInline => {
                replacement.append("<span class=\"inline math\">$");
                replacement.append(self.text);
                replacement.append("$</span>");
            },
        }
        proof {
            assert(replacement@ =~= replacement_spec(self.kind, self.text@));
        }
        replacement
    }
}

/// Strip a convention's opening and closing delimiters from text that starts
/// and ends with them, leaving the inner text.
pub fn strip_delimiters_from_delimited_text<'a>(kind: &Kind, delimited_text: &'a str) -> (r:
    &'a str)
    requires
        2 * delimiter_len(*kind) <= delimited_text@.len(),
    ensures
        r@ == delimited_text@.subrange(
            delimiter_len(*kind),
            delimited_text@.len() - delimiter_len(*kind),
        ),
{
    let end = delimited_text.unicode_len();
    match *kind {
        Kind::Block => delimited_text.substring_char(2, end - 2),
        Kind::Inline => delimited_text.substring_char(1, end - 1),
        Kind::LegacyBlock => delimited_text.substring_char(3, end - 3),
        Kind::LegacyInline => delimited_text.substring_char(3, end - 3),
    }
}

} // verus!
