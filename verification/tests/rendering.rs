use diagview::bytes::find_byte;
use diagview::flake8::flake8_diagnostics;
use diagview::lines::find_line_start;
use diagview::pyright::{pyright_diagnostics, PyrightRaw};
use diagview::render::{render_in_buffer, render_item, Item};

fn contains(haystack: &[u8], needle: &[u8]) -> bool {
    haystack.windows(needle.len()).any(|w| w == needle)
}

fn joined(item: &Item) -> Vec<u8> {
    let mut all = Vec::new();
    for row in &item.lines {
        all.extend_from_slice(row);
        all.push(b'\n');
    }
    all
}

#[test]
fn find_byte_finds_the_first_occurrence() {
    let v = b"ab:cd:e".to_vec();
    assert_eq!(find_byte(&v, 0, b':'), 2);
    assert_eq!(find_byte(&v, 3, b':'), 5);
    assert_eq!(find_byte(&v, 6, b':'), 7);
}

#[test]
fn line_starts_follow_newlines() {
    let v = b"ab\ncd\n".to_vec();
    assert_eq!(find_line_start(&v, 0), Some(0));
    assert_eq!(find_line_start(&v, 1), Some(3));
    assert_eq!(find_line_start(&v, 2), None);
    assert_eq!(find_line_start(&Vec::new(), 0), None);
}

#[test]
fn flake8_item_renders_with_tag_and_kind() {
    let ds = flake8_diagnostics(&b"a.py:1:1: F821 undefined name 'x'\n".to_vec()).unwrap();
    let contents = b"x = undefined\n".to_vec();
    let item = render_item(&ds[0], &contents).unwrap();
    assert!(item.lines.len() >= 1);
    let all = joined(&item);
    assert!(contains(&all, b"[flake8]"));
    assert!(contains(&all, b"undefined name 'x'"));
    assert!(contains(&all, b"Error"));
}

#[test]
fn pyright_item_renders_with_tag_and_rule() {
    let raws = vec![PyrightRaw {
        file: b"a.py".to_vec(),
        severity: b"error".to_vec(),
        message: b"name is not defined".to_vec(),
        start_line: 1,
        start_character: 4,
        end_line: 1,
        end_character: 8,
        rule: Some(b"reportUndefinedVariable".to_vec()),
    }];
    let ds = pyright_diagnostics(&raws).unwrap();
    let contents = b"x = 1\ny = undefined_name\n".to_vec();
    let item = render_item(&ds[0], &contents).unwrap();
    let all = joined(&item);
    assert!(contains(&all, b"[pyright] reportUndefinedVariable"));
    assert!(contains(&all, b"name is not defined"));
}

#[test]
fn out_of_bounds_positions_are_fatal() {
    let ds = flake8_diagnostics(&b"a.py:7:1: F821 undefined name 'x'\n".to_vec()).unwrap();
    let contents = b"only one line\n".to_vec();
    assert!(render_item(&ds[0], &contents).is_err());
}

#[test]
fn positions_inside_a_multi_byte_character_are_fatal() {
    // Column 2 points between the two bytes of the first character.
    let ds = flake8_diagnostics(&b"x.py:1:2: E999 malformed\n".to_vec()).unwrap();
    let contents = vec![0xc3, 0xa9, 0x0a];
    assert!(render_item(&ds[0], &contents).is_err());
}

#[test]
fn files_that_are_not_utf8_are_fatal() {
    let ds = flake8_diagnostics(&b"x.py:1:1: E999 malformed\n".to_vec()).unwrap();
    let contents = vec![0xff, 0x0a];
    assert!(render_item(&ds[0], &contents).is_err());
}

#[test]
fn non_ascii_contents_render_on_character_boundaries() {
    let ds = flake8_diagnostics(&b"x.py:1:1: E501 line too long\n".to_vec()).unwrap();
    let contents = "\u{e9}t\u{e9} = 1\n".as_bytes().to_vec();
    let item = render_item(&ds[0], &contents).unwrap();
    let all = joined(&item);
    assert!(contains(&all, b"[flake8]"));
}

#[test]
fn items_keep_adapter_order_pyright_first() {
    let a = Item { lines: vec![b"p0".to_vec()] };
    let b = Item { lines: vec![b"f0".to_vec()] };
    let all = render_in_buffer(vec![a], vec![b]);
    assert_eq!(all.len(), 2);
    assert_eq!(all[0].lines[0], b"p0".to_vec());
    assert_eq!(all[1].lines[0], b"f0".to_vec());
}
