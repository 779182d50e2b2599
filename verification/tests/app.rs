use dview::app::App;
use dview::keys::{KeyCode, KeyEvent, KeyModifiers};
use dview::table::DataTable;

fn make_table(rows: usize, cols: usize) -> DataTable {
    let headers: Vec<String> = (0..cols).map(|i| format!("Col{}", i)).collect();
    let data: Vec<Vec<String>> = (0..rows)
        .map(|r| (0..cols).map(|c| format!("R{}C{}", r, c)).collect())
        .collect();
    DataTable::new(headers, data)
}

// -------------------------------------------------------------------
// App key handling
// -------------------------------------------------------------------

fn make_app(rows: usize, cols: usize) -> App {
    App::new(vec![("Sheet1".into(), make_table(rows, cols))])
}

fn make_multi_sheet_app() -> App {
    let t1 = make_table(20, 5);
    let t2 = make_table(10, 8);
    let t3 = make_table(15, 3);
    App::new(vec![
        ("Data".into(), t1),
        ("Summary".into(), t2),
        ("Notes".into(), t3),
    ])
}

fn ctrl_key(ch: char) -> KeyEvent {
    KeyEvent::new(KeyCode::Char(ch), KeyModifiers::control())
}

fn press(ch: char) -> KeyEvent {
    KeyEvent::new(KeyCode::Char(ch), KeyModifiers::none())
}

#[test]
fn test_handle_key_quit() {
    let mut app = make_app(10, 3);
    app.handle_key(press('q'));
    assert!(!app.running);
}

#[test]
fn test_handle_key_esc() {
    let mut app = make_app(10, 3);
    app.handle_key(KeyEvent::new(KeyCode::Esc, KeyModifiers::none()));
    assert!(!app.running);
}

#[test]
fn test_handle_key_hjkl() {
    let mut app = make_app(10, 5);
    app.viewport.visible_rows = 5;
    app.viewport.visible_cols = 3;

    app.handle_key(press('j'));
    assert_eq!(app.viewport.cursor_row, 1);

    app.handle_key(press('k'));
    assert_eq!(app.viewport.cursor_row, 0);

    app.handle_key(press('l'));
    assert_eq!(app.viewport.cursor_col, 1);

    app.handle_key(press('h'));
    assert_eq!(app.viewport.cursor_col, 0);
}

#[test]
fn test_handle_key_arrow_keys() {
    let mut app = make_app(10, 5);
    app.viewport.visible_rows = 5;
    app.viewport.visible_cols = 3;

    app.handle_key(KeyEvent::new(KeyCode::Down, KeyModifiers::none()));
    assert_eq!(app.viewport.cursor_row, 1);

    app.handle_key(KeyEvent::new(KeyCode::Up, KeyModifiers::none()));
    assert_eq!(app.viewport.cursor_row, 0);

    app.handle_key(KeyEvent::new(KeyCode::Right, KeyModifiers::none()));
    assert_eq!(app.viewport.cursor_col, 1);

    app.handle_key(KeyEvent::new(KeyCode::Left, KeyModifiers::none()));
    assert_eq!(app.viewport.cursor_col, 0);
}

#[test]
fn test_shift_arrows_scroll_view() {
    let mut app = make_app(30, 20);
    app.viewport.visible_rows = 5;
    app.viewport.visible_cols = 3;
    app.viewport.cursor_row = 10;
    app.viewport.cursor_col = 10;

    let shift = KeyModifiers::shift();

    // Shift+Right scrolls view right, cursor follows
    app.handle_key(KeyEvent::new(KeyCode::Right, shift));
    assert_eq!(app.viewport.scroll_col, 1);
    assert_eq!(app.viewport.cursor_col, 11);

    // Shift+Left scrolls view left
    app.handle_key(KeyEvent::new(KeyCode::Left, shift));
    assert_eq!(app.viewport.scroll_col, 0);
    assert_eq!(app.viewport.cursor_col, 10);

    // Shift+Down scrolls view down
    app.handle_key(KeyEvent::new(KeyCode::Down, shift));
    assert_eq!(app.viewport.scroll_row, 1);
    assert_eq!(app.viewport.cursor_row, 11);

    // Shift+Up scrolls view up
    app.handle_key(KeyEvent::new(KeyCode::Up, shift));
    assert_eq!(app.viewport.scroll_row, 0);
    assert_eq!(app.viewport.cursor_row, 10);
}

#[test]
fn test_handle_key_ctrl_f_b() {
    let mut app = make_app(30, 3);
    app.viewport.visible_rows = 5;
    app.handle_key(ctrl_key('f'));
    assert_eq!(app.viewport.cursor_row, 5);

    app.handle_key(ctrl_key('b'));
    assert_eq!(app.viewport.cursor_row, 0);
}

#[test]
fn test_ctrl_j_k_no_longer_page() {
    // Ctrl+J / Ctrl+K no longer trigger page down/up.
    let mut app = make_app(30, 3);
    app.viewport.visible_rows = 5;
    let row_before = app.viewport.cursor_row;
    app.handle_key(ctrl_key('j'));
    assert_eq!(app.viewport.cursor_row, row_before);
    app.handle_key(ctrl_key('k'));
    assert_eq!(app.viewport.cursor_row, row_before);
}

#[test]
fn test_handle_key_gg_g() {
    let mut app = make_app(30, 3);
    app.viewport.visible_rows = 5;

    // gg (two g presses)
    app.viewport.cursor_row = 20;
    app.handle_key(press('g'));
    assert!(app.gg_pending);
    app.handle_key(press('g'));
    assert!(!app.gg_pending);
    assert_eq!(app.viewport.cursor_row, 0);

    // G
    app.handle_key(press('G'));
    assert_eq!(app.viewport.cursor_row, 29);
}

#[test]
fn test_handle_key_gg_cancel() {
    let mut app = make_app(30, 3);
    app.viewport.visible_rows = 5;
    app.viewport.cursor_row = 10;

    // g then something else — gg pending cancelled, handles normally.
    app.handle_key(press('g'));
    assert!(app.gg_pending);
    app.handle_key(press('j')); // cancels gg, moves down instead
    assert!(!app.gg_pending);
    assert_eq!(app.viewport.cursor_row, 11); // moved down from 10
}

#[test]
fn test_handle_key_0_dollar() {
    let mut app = make_app(10, 20);
    app.viewport.visible_cols = 5;

    app.viewport.cursor_col = 10;
    app.handle_key(press('0'));
    assert_eq!(app.viewport.cursor_col, 0);

    app.handle_key(press('$'));
    assert_eq!(app.viewport.cursor_col, 19);
}

#[test]
fn test_handle_key_hjkl_scroll_view() {
    let mut app = make_app(30, 20);
    app.viewport.visible_cols = 3;
    app.viewport.visible_rows = 5;
    app.viewport.cursor_row = 10;
    app.viewport.cursor_col = 10;

    // L scrolls view right, cursor follows
    app.handle_key(press('L'));
    assert_eq!(app.viewport.scroll_col, 1);
    assert_eq!(app.viewport.cursor_col, 11);

    // H scrolls view left, cursor follows back
    app.handle_key(press('H'));
    assert_eq!(app.viewport.scroll_col, 0);
    assert_eq!(app.viewport.cursor_col, 10);

    // J scrolls view down, cursor follows
    app.handle_key(press('J'));
    assert_eq!(app.viewport.scroll_row, 1);
    assert_eq!(app.viewport.cursor_row, 11);

    // K scrolls view up, cursor follows back
    app.handle_key(press('K'));
    assert_eq!(app.viewport.scroll_row, 0);
    assert_eq!(app.viewport.cursor_row, 10);
}

#[test]
fn test_handle_key_page_up_down() {
    let mut app = make_app(30, 3);
    app.viewport.visible_rows = 5;

    app.handle_key(KeyEvent::new(KeyCode::PageDown, KeyModifiers::none()));
    assert_eq!(app.viewport.cursor_row, 5);

    app.handle_key(KeyEvent::new(KeyCode::PageUp, KeyModifiers::none()));
    assert_eq!(app.viewport.cursor_row, 0);
}

#[test]
fn test_handle_key_home_end() {
    let mut app = make_app(30, 3);
    app.viewport.visible_rows = 5;
    app.viewport.cursor_row = 15;

    app.handle_key(KeyEvent::new(KeyCode::Home, KeyModifiers::none()));
    assert_eq!(app.viewport.cursor_row, 0);

    app.handle_key(KeyEvent::new(KeyCode::End, KeyModifiers::none()));
    assert_eq!(app.viewport.cursor_row, 29);
}

#[test]
fn test_handle_key_ctrl_c_quit() {
    let mut app = make_app(10, 3);
    app.handle_key(ctrl_key('c'));
    assert!(!app.running);
}

#[test]
fn test_handle_key_unknown_ignored() {
    let mut app = make_app(10, 3);
    let row_before = app.viewport.cursor_row;
    app.running = true;
    app.handle_key(press('x')); // unmapped key
    assert_eq!(app.viewport.cursor_row, row_before); // unchanged
    assert!(app.running); // still running
}

// -------------------------------------------------------------------
// Help screen
// -------------------------------------------------------------------

#[test]
fn test_help_toggle() {
    let mut app = make_app(10, 5);

    // ? opens help
    app.handle_key(press('?'));
    assert!(app.show_help);

    // ? again closes help
    app.handle_key(press('?'));
    assert!(!app.show_help);
}

#[test]
fn test_esc_closes_help_does_not_quit() {
    let mut app = make_app(10, 5);
    app.running = true;
    app.show_help = true;

    // Esc should close help, NOT quit the app.
    app.handle_key(KeyEvent::new(KeyCode::Esc, KeyModifiers::none()));
    assert!(!app.show_help);
    assert!(app.running);
}

#[test]
fn test_keys_ignored_during_help() {
    let mut app = make_app(30, 20);
    app.viewport.visible_rows = 5;
    app.viewport.visible_cols = 3;
    app.show_help = true;
    let cursor_before = (app.viewport.cursor_row, app.viewport.cursor_col);

    // hjkl movement keys are ignored when help is shown.
    app.handle_key(press('j'));
    assert_eq!(app.viewport.cursor_row, cursor_before.0);

    app.handle_key(press('l'));
    assert_eq!(app.viewport.cursor_col, cursor_before.1);

    // H/L scroll keys are ignored.
    app.handle_key(press('L'));
    assert_eq!(app.viewport.scroll_col, 0);

    // q does NOT quit while help is shown.
    app.running = true;
    app.handle_key(press('q'));
    assert!(app.running);
    assert!(app.show_help);
}

// -------------------------------------------------------------------
// Sheet navigation
// -------------------------------------------------------------------

#[test]
fn test_sheet_switch_brackets() {
    let mut app = make_multi_sheet_app();
    assert_eq!(app.active_sheet, 0);

    // ] → next sheet
    app.handle_key(press(']'));
    assert_eq!(app.active_sheet, 1);

    // ] again → next
    app.handle_key(press(']'));
    assert_eq!(app.active_sheet, 2);

    // ] wraps around
    app.handle_key(press(']'));
    assert_eq!(app.active_sheet, 0);

    // [ wraps backward
    app.handle_key(press('['));
    assert_eq!(app.active_sheet, 2);
}

#[test]
fn test_sheet_switch_resets_viewport() {
    let mut app = make_multi_sheet_app();
    app.viewport.cursor_row = 5;
    app.viewport.cursor_col = 3;
    app.viewport.scroll_row = 2;
    app.viewport.scroll_col = 1;

    app.handle_key(press(']'));
    assert_eq!(app.active_sheet, 1);
    // Viewport should be reset.
    assert_eq!(app.viewport.cursor_row, 0);
    assert_eq!(app.viewport.cursor_col, 0);
    assert_eq!(app.viewport.scroll_row, 0);
    assert_eq!(app.viewport.scroll_col, 0);
}

#[test]
fn test_sheet_switch_single_sheet_noop() {
    // Single-sheet files: [ / ] are no-ops.
    let mut app = make_app(10, 5);
    assert_eq!(app.active_sheet, 0);

    app.handle_key(press(']'));
    assert_eq!(app.active_sheet, 0);

    app.handle_key(press('['));
    assert_eq!(app.active_sheet, 0);
}
