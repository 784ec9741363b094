use diagview::render::Item;
use diagview::viewport::{classify, Action, App, KeyPress, KeySym};

fn item_with_rows(rows: usize) -> Item {
    let mut lines: Vec<Vec<u8>> = Vec::new();
    for k in 0..rows {
        lines.push(format!("row {}", k).into_bytes());
    }
    Item { lines }
}

fn three_by_four(height: u16) -> App {
    let items = vec![item_with_rows(4), item_with_rows(4), item_with_rows(4)];
    App::new(items, 80, height).unwrap()
}

#[test]
fn new_builds_prefix_sums() {
    let app = three_by_four(6);
    assert_eq!(app.line_offsets, vec![0, 4, 8]);
    assert_eq!(app.first_visible_item, 0);
    assert_eq!(app.first_visible_subline, 0);
    assert_eq!(app.selected_item, 0);
    assert_eq!(app.line_offset(2, 1), 9);
}

#[test]
fn new_rejects_zero_height_and_empty_items() {
    assert!(App::new(vec![item_with_rows(1)], 80, 0).is_none());
    assert!(App::new(vec![Item { lines: Vec::new() }], 80, 6).is_none());
    let empty = App::new(Vec::new(), 80, 6).unwrap();
    assert_eq!(empty.selected_item, 0);
}

#[test]
fn navigation_scrolls_to_keep_selection_visible() {
    let mut app = three_by_four(6);
    app.move_down();
    assert_eq!(app.selected_item, 1);
    assert_eq!(app.first_visible_item, 0);
    assert_eq!(app.first_visible_subline, 2);
    app.move_down();
    assert_eq!(app.selected_item, 2);
    assert_eq!(app.first_visible_item, 1);
    assert_eq!(app.first_visible_subline, 2);
}

#[test]
fn navigation_back_snaps_viewport_to_selection() {
    let mut app = three_by_four(6);
    app.move_down();
    app.move_down();
    app.move_up();
    assert_eq!(app.selected_item, 1);
    assert_eq!(app.first_visible_item, 1);
    assert_eq!(app.first_visible_subline, 0);
}

#[test]
fn moves_at_the_edges_are_no_ops() {
    let mut app = three_by_four(6);
    app.move_up();
    assert_eq!(app.selected_item, 0);
    assert_eq!(app.first_visible_item, 0);
    assert_eq!(app.first_visible_subline, 0);
    app.move_down();
    app.move_down();
    app.move_down();
    assert_eq!(app.selected_item, 2);
}

#[test]
fn down_then_up_restores_selection() {
    let mut app = three_by_four(6);
    app.move_down();
    let before = app.selected_item;
    app.move_down();
    app.move_up();
    assert_eq!(app.selected_item, before);
}

#[test]
fn selection_stays_in_bounds_and_viewport_invariants_hold() {
    let mut app = three_by_four(5);
    let script = [
        true, true, true, true, false, true, false, false, false, false, true, false, true, true,
    ];
    for &down in script.iter() {
        if down {
            app.move_down();
        } else {
            app.move_up();
        }
        let n = 3usize;
        assert!(app.selected_item < n);
        // The selection is never above the viewport; at the anchor item the
        // viewport starts on the first row.
        assert!(app.first_visible_item <= app.selected_item);
        if app.first_visible_item == app.selected_item {
            assert_eq!(app.first_visible_subline, 0);
        }
        // The selection's last row is visible.
        let first = app.line_offset(app.first_visible_item, app.first_visible_subline);
        let sel_last = app.line_offset(app.selected_item, 3);
        assert!(sel_last <= first + app.height as usize - 1);
    }
}

#[test]
fn resize_updates_dimensions_only() {
    let mut app = three_by_four(6);
    app.move_down();
    app.resize(10, 3);
    assert_eq!(app.width, 10);
    assert_eq!(app.height, 3);
    assert_eq!(app.selected_item, 1);
    assert_eq!(app.first_visible_item, 0);
    assert_eq!(app.first_visible_subline, 2);
}

fn plain(code: KeySym) -> KeyPress {
    KeyPress { ctrl: false, other_mods: false, code }
}

#[test]
fn key_table_matches_the_controller_contract() {
    assert_eq!(classify(KeyPress { ctrl: true, other_mods: false, code: KeySym::Char('c') }),
        Action::Quit);
    assert_eq!(classify(KeyPress { ctrl: true, other_mods: false, code: KeySym::Char('C') }),
        Action::Quit);
    assert_eq!(classify(plain(KeySym::Up)), Action::MoveUp);
    assert_eq!(classify(plain(KeySym::Down)), Action::MoveDown);
    assert_eq!(classify(plain(KeySym::Esc)), Action::Quit);
    assert_eq!(classify(plain(KeySym::Char('q'))), Action::Quit);
    assert_eq!(classify(plain(KeySym::Char('Q'))), Action::Quit);
    assert_eq!(classify(plain(KeySym::PageDown)), Action::Scroll);
    assert_eq!(classify(plain(KeySym::Char('x'))), Action::Ignore);
    assert_eq!(classify(plain(KeySym::Other)), Action::Ignore);
    // Any modifier besides control-for-quit is ignored.
    assert_eq!(classify(KeyPress { ctrl: true, other_mods: false, code: KeySym::Down }),
        Action::Ignore);
    assert_eq!(classify(KeyPress { ctrl: false, other_mods: true, code: KeySym::Char('q') }),
        Action::Ignore);
}
