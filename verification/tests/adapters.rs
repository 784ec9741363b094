use diagview::diag::{AdapterError, Severity, SpanEnd, Tool};
use diagview::flake8::flake8_diagnostics;
use diagview::pyright::{pyright_diagnostics, severity_from_name, PyrightRaw};

fn raw(severity: &str) -> PyrightRaw {
    PyrightRaw {
        file: b"a.py".to_vec(),
        severity: severity.as_bytes().to_vec(),
        message: b"something".to_vec(),
        start_line: 1,
        start_character: 2,
        end_line: 1,
        end_character: 5,
        rule: Some(b"reportUndefinedVariable".to_vec()),
    }
}

#[test]
fn pyright_empty_array_yields_empty_sequence() {
    let out = pyright_diagnostics(&Vec::new()).unwrap();
    assert_eq!(out.len(), 0);
}

#[test]
fn pyright_severity_strings_map() {
    assert_eq!(severity_from_name(&b"error".to_vec()), Some(Severity::Error));
    assert_eq!(severity_from_name(&b"warning".to_vec()), Some(Severity::Warning));
    assert_eq!(severity_from_name(&b"information".to_vec()), Some(Severity::Advice));
    assert_eq!(severity_from_name(&b"fatal".to_vec()), None);
    assert_eq!(severity_from_name(&b"Error".to_vec()), None);
}

#[test]
fn pyright_record_is_normalized() {
    let ds = pyright_diagnostics(&vec![raw("information")]).unwrap();
    assert_eq!(ds.len(), 1);
    let d = &ds[0];
    assert_eq!(d.file, b"a.py".to_vec());
    assert_eq!(d.severity, Severity::Advice);
    assert_eq!(d.message, b"something".to_vec());
    assert_eq!(d.start_line, 1);
    assert_eq!(d.start_character, 2);
    assert_eq!(d.end, SpanEnd::Position { line: 1, character: 5 });
    assert_eq!(d.rule, Some(b"reportUndefinedVariable".to_vec()));
    assert_eq!(d.tool, Tool::Pyright);
}

#[test]
fn pyright_unknown_severity_fails_with_index() {
    let r = pyright_diagnostics(&vec![raw("error"), raw("fatal")]);
    match r {
        Err(AdapterError::UnknownSeverity { index }) => assert_eq!(index, 1),
        _ => panic!("expected an unknown-severity error"),
    }
}

fn one_line_severity(line: &str) -> Severity {
    let ds = flake8_diagnostics(&line.as_bytes().to_vec()).unwrap();
    assert_eq!(ds.len(), 1);
    ds[0].severity
}

#[test]
fn flake8_code_prefix_e_is_error() {
    assert_eq!(one_line_severity("a.py:1:1: E501 line too long\n"), Severity::Error);
}

#[test]
fn flake8_code_prefix_f_is_error() {
    assert_eq!(one_line_severity("a.py:1:1: F821 undefined name 'x'\n"), Severity::Error);
}

#[test]
fn flake8_code_prefix_w_is_warning() {
    assert_eq!(one_line_severity("a.py:1:1: W291 trailing whitespace\n"), Severity::Warning);
}

#[test]
fn flake8_code_prefix_n_is_warning() {
    assert_eq!(one_line_severity("a.py:1:1: N801 bad name\n"), Severity::Warning);
}

#[test]
fn flake8_code_prefix_c_is_advice() {
    assert_eq!(one_line_severity("a.py:1:1: C901 too complex\n"), Severity::Advice);
}

#[test]
fn flake8_other_prefix_is_a_parse_error_naming_the_line() {
    let r = flake8_diagnostics(&b"a.py:1:1: X123 who knows\n".to_vec());
    match r {
        Err(AdapterError::MalformedLine { index, line }) => {
            assert_eq!(index, 0);
            assert_eq!(line, b"a.py:1:1: X123 who knows".to_vec());
        },
        _ => panic!("expected a malformed-line error"),
    }
}

#[test]
fn flake8_line_is_normalized() {
    let ds = flake8_diagnostics(&b"util/iter util.py:3:7: F821 undefined name 'f'\n".to_vec())
        .unwrap();
    assert_eq!(ds.len(), 1);
    let d = &ds[0];
    assert_eq!(d.file, b"util/iter util.py".to_vec());
    assert_eq!(d.severity, Severity::Error);
    assert_eq!(d.message, b"undefined name 'f'".to_vec());
    assert_eq!(d.start_line, 2);
    assert_eq!(d.start_character, 6);
    assert_eq!(d.end, SpanEnd::StartLineEnd);
    assert_eq!(d.rule, None);
    assert_eq!(d.tool, Tool::Flake8);
}

#[test]
fn flake8_empty_output_yields_empty_sequence() {
    let ds = flake8_diagnostics(&Vec::new()).unwrap();
    assert_eq!(ds.len(), 0);
}

#[test]
fn flake8_several_lines_keep_their_order() {
    let out = b"a.py:1:1: E501 one\r\nb.py:2:2: W291 two\nc.py:3:3: C901 three\n".to_vec();
    let ds = flake8_diagnostics(&out).unwrap();
    assert_eq!(ds.len(), 3);
    assert_eq!(ds[0].file, b"a.py".to_vec());
    assert_eq!(ds[0].message, b"one".to_vec());
    assert_eq!(ds[1].file, b"b.py".to_vec());
    assert_eq!(ds[1].severity, Severity::Warning);
    assert_eq!(ds[2].file, b"c.py".to_vec());
    assert_eq!(ds[2].severity, Severity::Advice);
}

#[test]
fn flake8_garbage_line_is_rejected() {
    assert!(flake8_diagnostics(&b"nonsense\n".to_vec()).is_err());
    assert!(flake8_diagnostics(&b"a.py:zero:1: E501 x\n".to_vec()).is_err());
    assert!(flake8_diagnostics(&b"a.py:0:1: E501 x\n".to_vec()).is_err());
    assert!(flake8_diagnostics(&b"a.py:1:1:\n".to_vec()).is_err());
}

#[test]
fn flake8_message_may_hold_colons() {
    let ds = flake8_diagnostics(&b"a.py:2:5: E231 missing whitespace after ':'\n".to_vec())
        .unwrap();
    assert_eq!(ds[0].message, b"missing whitespace after ':'".to_vec());
}
