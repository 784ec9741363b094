use vstd::prelude::*;

use crate::bytes::push_all;

verus! {

/// Severity of one reported diagnostic.
#[derive(Clone, Copy, Debug, PartialEq, Eq, Structural)]
pub enum Severity {
    Error,
    Warning,
    Advice,
}

/// The analyzer a diagnostic came from; decides the tool tag in its header.
#[derive(Clone, Copy, Debug, PartialEq, Eq, Structural)]
pub enum Tool {
    Pyright,
    Flake8,
}

/// Where a diagnostic's range ends.  Tools that report a point rather than a
/// span get the whole trailing line, so their end is resolved against the
/// start line's length at render time.
#[derive(Clone, Copy, Debug, PartialEq, Eq, Structural)]
pub enum SpanEnd {
    /// An explicit zero-based (line, character) position.
    Position { line: usize, character: usize },
    /// The end of the line the range starts on, including its newline.
    StartLineEnd,
}

/// One normalized problem report: the uniform model every adapter produces.
/// Positions are zero-based; characters count bytes within their line.
pub struct Diagnostic {
    pub file: Vec<u8>,
    pub severity: Severity,
    pub message: Vec<u8>,
    pub start_line: usize,
    pub start_character: usize,
    pub end: SpanEnd,
    pub rule: Option<Vec<u8>>,
    pub tool: Tool,
}

/// Why an adapter rejected its tool's output.
#[derive(Debug)]
pub enum AdapterError {
    /// A severity string that is none of the ones the tool documents,
    /// at this index of the diagnostics array.
    UnknownSeverity { index: usize },
    /// A line of tool output that does not have the expected shape;
    /// carries the offending line.
    MalformedLine { index: usize, line: Vec<u8> },
}

/// The bytes of `"[pyright] "`.
pub open spec fn pyright_tag() -> Seq<u8> {
    seq![91u8, 112u8, 121u8, 114u8, 105u8, 103u8, 104u8, 116u8, 93u8, 32u8]
}

/// The bytes of `"[flake8]"`.
pub open spec fn flake8_tag() -> Seq<u8> {
    seq![91u8, 102u8, 108u8, 97u8, 107u8, 101u8, 56u8, 93u8]
}

/// Header of a rendered report: the tool tag, and for pyright the rule
/// identifier (or nothing) after it.
pub open spec fn spec_header(tool: Tool, rule: Option<Seq<u8>>) -> Seq<u8> {
    match tool {
        Tool::Pyright => pyright_tag() + match rule {
            Some(r) => r,
            None => Seq::empty(),
        },
        Tool::Flake8 => flake8_tag(),
    }
}

/// View of an optional byte vector.
pub open spec fn opt_view(o: Option<Vec<u8>>) -> Option<Seq<u8>> {
    match o {
        Some(v) => Some(v@),
        None => None,
    }
}

/// Build the header for a rendered report.
pub fn build_header(tool: Tool, rule: &Option<Vec<u8>>) -> (r: Vec<u8>)
    ensures
        r@ == spec_header(tool, opt_view(*rule)),
{
    match tool {
        Tool::Pyright => {
            let mut v: Vec<u8> = vec![91u8, 112u8, 121u8, 114u8, 105u8, 103u8, 104u8, 116u8, 93u8,
                32u8];
            proof {
                assert(v@ =~= pyright_tag());
            }
            match rule {
                Some(rl) => {
                    push_all(&mut v, rl);
                },
                None => {
                    proof {
                        assert(v@ =~= pyright_tag() + Seq::<u8>::empty());
                    }
                },
            }
            v
        },
        Tool::Flake8 => {
            let v: Vec<u8> = vec![91u8, 102u8, 108u8, 97u8, 107u8, 101u8, 56u8, 93u8];
            proof {
                assert(v@ =~= flake8_tag());
            }
            v
        },
    }
}

} // verus!
