//! A text-transformation pass that finds mathematical-expression spans
//! delimited by `$`-pairs, `$$`-pairs, or the legacy `\\(`/`\\)` and
//! `\\[`/`\\]` tokens, and rewrites each span into wrapper markup that a
//! markdown renderer passes through to a mathematics renderer unmangled.
//! Everything outside a matched span is copied through verbatim.

use vstd::prelude::*;

pub mod replacer;
pub mod scanner;
pub mod spans;

pub use replacer::replace_all_mathematics;
pub use scanner::find_mathematics;
pub use spans::Kind;
pub use spans::Mathematics;
pub use spans::strip_delimiters_from_delimited_text;

verus! {

/// A preprocessor for expanding `$`- and `$$`-pairs into MathJax-ready markup.
pub struct MathJaxPreprocessor;

impl MathJaxPreprocessor {
    /// Create a `MathJaxPreprocessor`.
    pub fn new() -> MathJaxPreprocessor {
        MathJaxPreprocessor
    }

    /// The name under which this preprocessor is known to its host.
    pub fn name(&self) -> (r: &'static str)
        ensures
            r@ == "mathjax"@,
    {
        "mathjax"
    }
}

} // verus!
