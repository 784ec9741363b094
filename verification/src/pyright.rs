use vstd::prelude::*;

use crate::bytes::{bytes_eq, copy_bytes};
use crate::diag::{AdapterError, Diagnostic, Severity, SpanEnd, Tool};

verus! {

/// One element of pyright's `generalDiagnostics` array, reduced to plain
/// values: strings as bytes, positions as zero-based integers.
pub struct PyrightRaw {
    pub file: Vec<u8>,
    pub severity: Vec<u8>,
    pub message: Vec<u8>,
    pub start_line: usize,
    pub start_character: usize,
    pub end_line: usize,
    pub end_character: usize,
    pub rule: Option<Vec<u8>>,
}

/// The bytes of `"error"`.
pub open spec fn error_name() -> Seq<u8> {
    seq![101u8, 114u8, 114u8, 111u8, 114u8]
}

/// The bytes of `"warning"`.
pub open spec fn warning_name() -> Seq<u8> {
    seq![119u8, 97u8, 114u8, 110u8, 105u8, 110u8, 103u8]
}

/// The bytes of `"information"`.
pub open spec fn information_name() -> Seq<u8> {
    seq![105u8, 110u8, 102u8, 111u8, 114u8, 109u8, 97u8, 116u8, 105u8, 111u8, 110u8]
}

/// The severity named by a pyright severity string: `information` maps to
/// `Advice`, anything but the three documented strings to nothing.
pub open spec fn spec_severity_name(s: Seq<u8>) -> Option<Severity> {
    if s == error_name() {
        Some(Severity::Error)
    } else if s == warning_name() {
        Some(Severity::Warning)
    } else if s == information_name() {
        Some(Severity::Advice)
    } else {
        None
    }
}

/// Map a pyright severity string to a severity.
pub fn severity_from_name(s: &Vec<u8>) -> (r: Option<Severity>)
    ensures
        r == spec_severity_name(s@),
{
    let error_v: Vec<u8> = vec![101u8, 114u8, 114u8, 111u8, 114u8];
    let warning_v: Vec<u8> = vec![119u8, 97u8, 114u8, 110u8, 105u8, 110u8, 103u8];
    let information_v: Vec<u8> = vec![105u8, 110u8, 102u8, 111u8, 114u8, 109u8, 97u8, 116u8, 105u8,
        111u8, 110u8];
    proof {
        assert(error_v@ =~= error_name());
        assert(warning_v@ =~= warning_name());
        assert(information_v@ =~= information_name());
    }
    if bytes_eq(s, &error_v) {
        Some(Severity::Error)
    } else if bytes_eq(s, &warning_v) {
        Some(Severity::Warning)
    } else if bytes_eq(s, &information_v) {
        Some(Severity::Advice)
    } else {
        None
    }
}

/// The diagnostic `d` is the normalization of the raw pyright record `raw`.
pub open spec fn diag_matches_pyright(d: Diagnostic, raw: PyrightRaw) -> bool {
    &&& d.file@ == raw.file@
    &&& Some(d.severity) == spec_severity_name(raw.severity@)
    &&& d.message@ == raw.message@
    &&& d.start_line == raw.start_line
    &&& d.start_character == raw.start_character
    &&& d.end == (SpanEnd::Position { line: raw.end_line, character: raw.end_character })
    &&& match (d.rule, raw.rule) {
        (Some(a), Some(b)) => a@ == b@,
        (None, None) => true,
        _ => false,
    }
    &&& d.tool == Tool::Pyright
}

/// Normalize one raw pyright record; `None` exactly when its severity string
/// is not one of the three pyright documents.
pub fn pyright_diagnostic(raw: &PyrightRaw) -> (r: Option<Diagnostic>)
    ensures
        r is Some <==> spec_severity_name(raw.severity@) is Some,
        r matches Some(d) ==> diag_matches_pyright(d, *raw),
{
    let severity = match severity_from_name(&raw.severity) {
        Some(sv) => sv,
        None => {
            return None;
        },
    };
    let rule = match &raw.rule {
        Some(rl) => Some(copy_bytes(rl)),
        None => None,
    };
    Some(
        Diagnostic {
            file: copy_bytes(&raw.file),
            severity,
            message: copy_bytes(&raw.message),
            start_line: raw.start_line,
            start_character: raw.start_character,
            end: SpanEnd::Position { line: raw.end_line, character: raw.end_character },
            rule,
            tool: Tool::Pyright,
        },
    )
}

/// Normalize pyright's diagnostics array in order.  Succeeds exactly when
/// every record carries a documented severity string; an empty array yields
/// an empty sequence.  On failure, names the first offending record.
pub fn pyright_diagnostics(raws: &Vec<PyrightRaw>) -> (r: Result<Vec<Diagnostic>, AdapterError>)
    ensures
        r is Ok <==> (forall|i: int|
            0 <= i < raws@.len() ==> spec_severity_name(#[trigger] raws@[i].severity@) is Some),
        r matches Ok(ds) ==> ds@.len() == raws@.len() && (forall|i: int|
            0 <= i < raws@.len() ==> diag_matches_pyright(#[trigger] ds@[i], raws@[i])),
        r matches Err(e) ==> (e matches AdapterError::UnknownSeverity { index } && index
            < raws@.len() && spec_severity_name(raws@[index as int].severity@) is None && (forall|
            j: int| 0 <= j < index ==> spec_severity_name(
                #[trigger] raws@[j].severity@,
            ) is Some)),
{
    let mut ds: Vec<Diagnostic> = Vec::new();
    let mut i: usize = 0;
    while i < raws.len()
        invariant
            i <= raws@.len(),
            ds@.len() == i,
            forall|j: int| 0 <= j < i ==> diag_matches_pyright(#[trigger] ds@[j], raws@[j]),
            forall|j: int|
                0 <= j < i ==> spec_severity_name(#[trigger] raws@[j].severity@) is Some,
        decreases raws@.len() - i,
    {
        match pyright_diagnostic(&raws[i]) {
            Some(d) => {
                ds.push(d);
            },
            None => {
                return Err(AdapterError::UnknownSeverity { index: i });
            },
        }
        i += 1;
    }
    Ok(ds)
}

} // verus!
