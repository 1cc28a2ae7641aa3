use vstd::prelude::*;

verus! {

/// Span of an item in the parsed source: its verbatim text and its
/// 1-based start and end positions.
#[derive(Debug, Clone, PartialEq, Eq, Default)]
pub struct SourceSpan {
    pub text: String,
    pub start_line: usize,
    pub end_line: usize,
    pub start_column: usize,
    pub end_column: usize,
}

impl SourceSpan {
    pub fn new(
        text: String,
        start_line: usize,
        end_line: usize,
        start_column: usize,
        end_column: usize,
    ) -> (r: Self)
        ensures
            r.text@ == text@,
            r.start_line == start_line,
            r.end_line == end_line,
            r.start_column == start_column,
            r.end_column == end_column,
    {
        SourceSpan { text, start_line, end_line, start_column, end_column }
    }
}

} // verus!
