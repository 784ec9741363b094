use diagview::flake8::flake8_diagnostics;
use diagview::render::{render_in_buffer, render_item, Item};
use diagview::viewport::App;

fn contains(haystack: &[u8], needle: &[u8]) -> bool {
    if needle.is_empty() {
        return true;
    }
    haystack.windows(needle.len()).any(|w| w == needle)
}

fn count(haystack: &[u8], needle: &[u8]) -> usize {
    haystack.windows(needle.len()).filter(|w| *w == needle).count()
}

fn app_of(rows_per_item: &[&[&[u8]]], height: u16) -> App {
    let mut items = Vec::new();
    for rows in rows_per_item {
        let mut lines: Vec<Vec<u8>> = Vec::new();
        for r in rows.iter() {
            lines.push(r.to_vec());
        }
        items.push(Item { lines });
    }
    App::new(items, 80, height).unwrap()
}

#[test]
fn paint_clears_and_homes_first() {
    let app = app_of(&[&[b"hello world"]], 5);
    let out = app.render_to_term();
    // Clear the whole screen, then put the cursor at terminal row 1,
    // column 1.
    assert!(out.starts_with(b"\x1b[2J\x1b[1;1H"));
}

#[test]
fn paint_marks_the_selected_item_and_badges_it() {
    let app = app_of(&[&[b"alpha"], &[b"beta"]], 9);
    let out = app.render_to_term();
    // The selected first item carries the triangular marker and its badge.
    assert!(contains(&out, &[0xe2, 0x96, 0xb7, 0x20]));
    assert!(contains(&out, b" 1 "));
    // The unselected second item is indented by a cursor skip instead.
    assert!(contains(&out, b"\x1b[3C"));
    assert!(contains(&out, b" 2 "));
    // The whole badge: black on red, the number between single spaces, the
    // styling reset after it.
    assert!(contains(&out, b"\x1b[38;5;0;48;5;9m 1 \x1b[0m"));
    assert!(contains(&out, b"\x1b[38;5;0;48;5;9m 2 \x1b[0m"));
    // Row contents are written verbatim.
    assert!(contains(&out, b"alpha"));
    assert!(contains(&out, b"beta"));
}

#[test]
fn paint_emits_one_row_advance_per_visible_row() {
    let app = app_of(&[&[b"a0", b"a1"], &[b"b0", b"b1", b"b2"]], 20);
    let out = app.render_to_term();
    assert_eq!(count(&out, b"\x1b[1E"), 5);
    // Continuation rows carry the cursor skip, first rows the badge: the
    // skip appears once per continuation row and once for the unselected
    // item's first row.
    assert_eq!(count(&out, b"\x1b[3C"), 4);
}

#[test]
fn paint_stops_at_the_terminal_height() {
    let app = app_of(&[&[b"a0", b"a1", b"a2", b"a3"]], 2);
    let out = app.render_to_term();
    assert_eq!(count(&out, b"\x1b[1E"), 2);
    assert!(contains(&out, b"a1"));
    assert!(!contains(&out, b"a2"));
}

#[test]
fn paint_starts_at_the_viewport_anchor() {
    let mut app = app_of(
        &[&[b"a0", b"a1", b"a2", b"a3"], &[b"b0", b"b1", b"b2", b"b3"]],
        5,
    );
    app.move_down();
    // The anchor advanced below the top of the first item, so its earliest
    // rows are no longer painted.
    let out = app.render_to_term();
    assert!(!contains(&out, b"a0"));
    assert!(!contains(&out, b"a2"));
    assert!(contains(&out, b"a3"));
    assert!(contains(&out, b"b3"));
}

#[test]
fn badge_numbers_render_multi_digit_labels() {
    let mut items = Vec::new();
    for k in 0..12 {
        items.push(Item { lines: vec![format!("row of item {}", k).into_bytes()] });
    }
    let app = App::new(items, 80, 30).unwrap();
    let out = app.render_to_term();
    assert!(contains(&out, b"\x1b[38;5;0;48;5;9m 9 \x1b[0m"));
    assert!(contains(&out, b"\x1b[38;5;0;48;5;9m 10 \x1b[0m"));
    assert!(contains(&out, b"\x1b[38;5;0;48;5;9m 12 \x1b[0m"));
}

#[test]
fn single_flake8_diagnostic_paints_marker_badge_and_tag() {
    let ds = flake8_diagnostics(&b"a.py:1:1: F821 undefined name 'x'\n".to_vec()).unwrap();
    let contents = b"x\n".to_vec();
    let item = render_item(&ds[0], &contents).unwrap();
    let app = App::new(render_in_buffer(Vec::new(), vec![item]), 80, 40).unwrap();
    let out = app.render_to_term();
    let clear_home = b"\x1b[2J\x1b[1;1H";
    assert!(out.starts_with(clear_home));
    // The first painted row of the selected first item starts with the
    // triangular marker and a space, then carries the badge.
    assert!(out[clear_home.len()..].starts_with(&[0xe2, 0x96, 0xb7, 0x20]));
    assert!(contains(&out, b" 1 "));
    assert!(contains(&out, b"[flake8]"));
}

#[test]
fn paint_of_an_empty_list_is_just_the_clear() {
    let app = App::new(Vec::new(), 80, 6).unwrap();
    let out = app.render_to_term();
    assert_eq!(out, b"\x1b[2J\x1b[1;1H".to_vec());
}
