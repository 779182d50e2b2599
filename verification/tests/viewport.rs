use dview::viewport::Viewport;

// -------------------------------------------------------------------
// Viewport defaults
// -------------------------------------------------------------------

#[test]
fn test_viewport_defaults() {
    let vp = Viewport::new();
    assert_eq!(vp.cursor_row, 0);
    assert_eq!(vp.cursor_col, 0);
    assert_eq!(vp.scroll_row, 0);
    assert_eq!(vp.scroll_col, 0);
    assert_eq!(vp.visible_rows, 0);
    assert_eq!(vp.visible_cols, 0);
}

// -------------------------------------------------------------------
// recalc_dimensions
// -------------------------------------------------------------------

#[test]
fn test_recalc_dimensions_basic() {
    let mut vp = Viewport::new();
    // 80x24 terminal, 3 columns of width 5 each
    vp.recalc_dimensions(80, 24, &[5, 5, 5], 100);
    assert_eq!(vp.visible_rows, 23); // 24 - 1 header
    assert!(vp.visible_cols >= 3); // should fit with gaps
    assert!(vp.row_num_width >= 3);
}

#[test]
fn test_recalc_dimensions_tiny_terminal() {
    let mut vp = Viewport::new();
    vp.recalc_dimensions(5, 3, &[5, 5], 10);
    // Very narrow: data_width will be 0 or small
    assert_eq!(vp.visible_rows, 2); // 3 - 1 header
    // visible_cols should not panic
}

#[test]
fn test_recalc_dimensions_empty_data() {
    let mut vp = Viewport::new();
    vp.recalc_dimensions(80, 24, &[], 0);
    assert_eq!(vp.visible_rows, 23);
    // should not panic with empty column_widths
}

// -------------------------------------------------------------------
// Cursor movement — basic
// -------------------------------------------------------------------

#[test]
fn test_move_down_up() {
    let mut vp = Viewport::new();
    vp.visible_rows = 10;
    // move down
    vp.move_down(100);
    assert_eq!(vp.cursor_row, 1);
    // move up back
    vp.move_up();
    assert_eq!(vp.cursor_row, 0);
}

#[test]
fn test_move_right_left() {
    let mut vp = Viewport::new();
    vp.visible_cols = 5;
    vp.move_right(20);
    assert_eq!(vp.cursor_col, 1);
    vp.move_left(20);
    assert_eq!(vp.cursor_col, 0);
}

// -------------------------------------------------------------------
// Cursor movement — boundaries (no crash)
// -------------------------------------------------------------------

#[test]
fn test_move_boundaries() {
    let mut vp = Viewport::new();
    vp.visible_rows = 5;
    vp.visible_cols = 3;

    // Can't move above row 0.
    vp.move_up();
    assert_eq!(vp.cursor_row, 0);

    // Can't move left of col 0.
    vp.move_left(10);
    assert_eq!(vp.cursor_col, 0);

    // Move to last row.
    vp.move_down(5); // 0→1
    vp.move_down(5); // 1→2
    vp.move_down(5); // 2→3
    vp.move_down(5); // 3→4
    vp.move_down(5); // 4→? can't go past 4
    assert_eq!(vp.cursor_row, 4);

    // One more should be clamped.
    vp.move_down(5);
    assert_eq!(vp.cursor_row, 4);

    // Move to last col.
    vp.move_right(3); // 0→1
    vp.move_right(3); // 1→2
    vp.move_right(3); // can't go past 2
    assert_eq!(vp.cursor_col, 2);
}

#[test]
fn test_move_down_empty() {
    let mut vp = Viewport::new();
    vp.move_down(0); // total_rows = 0 — should not panic
    assert_eq!(vp.cursor_row, 0);
}

// -------------------------------------------------------------------
// Page navigation
// -------------------------------------------------------------------

#[test]
fn test_page_down() {
    let mut vp = Viewport::new();
    vp.visible_rows = 5;
    vp.page_down(30);
    assert_eq!(vp.cursor_row, 5);
    assert_eq!(vp.scroll_row, 5);

    // near end — clamps
    vp.cursor_row = 27;
    vp.scroll_row = 20;
    vp.visible_rows = 5;
    vp.page_down(30);
    assert_eq!(vp.cursor_row, 29); // clamped to last row
}

#[test]
fn test_page_up() {
    let mut vp = Viewport::new();
    vp.cursor_row = 10;
    vp.scroll_row = 10;
    vp.visible_rows = 5;
    vp.page_up();
    assert_eq!(vp.cursor_row, 5);
    assert_eq!(vp.scroll_row, 5);

    // near top
    vp.cursor_row = 2;
    vp.scroll_row = 2;
    vp.page_up();
    assert_eq!(vp.cursor_row, 0);
    assert_eq!(vp.scroll_row, 0);
}

// -------------------------------------------------------------------
// Jump to start / end
// -------------------------------------------------------------------

#[test]
fn test_go_top() {
    let mut vp = Viewport::new();
    vp.cursor_row = 42;
    vp.scroll_row = 30;
    vp.go_top();
    assert_eq!(vp.cursor_row, 0);
    assert_eq!(vp.scroll_row, 0);
}

#[test]
fn test_go_bottom() {
    let mut vp = Viewport::new();
    vp.visible_rows = 5;
    vp.go_bottom(100);
    assert_eq!(vp.cursor_row, 99);
    assert_eq!(vp.scroll_row, 95); // 100 - 5

    // empty data
    vp.go_bottom(0);
    assert_eq!(vp.cursor_row, 99); // unchanged
}

#[test]
fn test_go_col_start() {
    let mut vp = Viewport::new();
    vp.cursor_col = 10;
    vp.scroll_col = 8;
    vp.go_col_start();
    assert_eq!(vp.cursor_col, 0);
    assert_eq!(vp.scroll_col, 0);
}

#[test]
fn test_go_col_end() {
    let mut vp = Viewport::new();
    vp.visible_cols = 3;
    vp.go_col_end(20);
    assert_eq!(vp.cursor_col, 19);
    // scroll should be positioned so col 19 is visible.
    assert!(vp.cursor_col >= vp.scroll_col);
    assert!(vp.cursor_col < vp.scroll_col + vp.visible_cols);
}

#[test]
fn test_go_col_end_empty() {
    let mut vp = Viewport::new();
    vp.go_col_end(0); // no columns — should not panic
    assert_eq!(vp.cursor_col, 0);
}

// -------------------------------------------------------------------
// Horizontal view scroll (H / L)
// -------------------------------------------------------------------

#[test]
fn test_scroll_view_left_right() {
    let mut vp = Viewport::new();
    vp.visible_cols = 3;
    vp.cursor_col = 5; // start cursor away from 0 so it can move

    vp.scroll_view_right(20);
    assert_eq!(vp.scroll_col, 1);
    assert_eq!(vp.cursor_col, 6); // cursor moves with view

    vp.scroll_view_left();
    assert_eq!(vp.scroll_col, 0);
    assert_eq!(vp.cursor_col, 5); // cursor moves back

    // Can't scroll left past 0.
    vp.cursor_col = 0;
    vp.scroll_col = 0;
    vp.scroll_view_left();
    assert_eq!(vp.scroll_col, 0);
    assert_eq!(vp.cursor_col, 0);

    // Scroll to the rightmost position.
    vp.cursor_col = 5;
    vp.scroll_col = 0;
    for _ in 0..30 {
        vp.scroll_view_right(20);
    }
    assert_eq!(vp.scroll_col, 17); // 20 - 3
    assert_eq!(vp.cursor_col, 19); // clamped at last col
}

#[test]
fn test_scroll_view_up_down() {
    let mut vp = Viewport::new();
    vp.visible_rows = 5;
    vp.cursor_row = 10;

    vp.scroll_view_down(100);
    assert_eq!(vp.scroll_row, 1);
    assert_eq!(vp.cursor_row, 11); // cursor moves with view

    vp.scroll_view_up();
    assert_eq!(vp.scroll_row, 0);
    assert_eq!(vp.cursor_row, 10); // cursor moves back

    // Can't scroll up past 0.
    vp.cursor_row = 0;
    vp.scroll_row = 0;
    vp.scroll_view_up();
    assert_eq!(vp.scroll_row, 0);
    assert_eq!(vp.cursor_row, 0);

    // Scroll to bottom.
    vp.cursor_row = 10;
    vp.scroll_row = 0;
    for _ in 0..200 {
        vp.scroll_view_down(100);
    }
    assert_eq!(vp.scroll_row, 95); // 100 - 5
    assert_eq!(vp.cursor_row, 99); // clamped at last row
}

#[test]
fn test_hjkl_scroll_moves_cursor_with_view() {
    // Cursor stays at the same relative screen position when scrolling.
    let mut vp = Viewport::new();
    vp.cursor_col = 5;
    vp.scroll_col = 3;
    vp.visible_cols = 5;

    // Cursor at relative screen col 2 (5 - 3).
    vp.scroll_view_right(20);
    // scroll_col=4, cursor_col=6 → relative screen col still 2.
    assert_eq!(vp.scroll_col, 4);
    assert_eq!(vp.cursor_col, 6);

    vp.scroll_view_left();
    assert_eq!(vp.scroll_col, 3);
    assert_eq!(vp.cursor_col, 5);
}

// -------------------------------------------------------------------
// Ensure visible — auto-scroll with cursor
// -------------------------------------------------------------------

#[test]
fn test_ensure_row_visible_on_move_down() {
    let mut vp = Viewport::new();
    vp.visible_rows = 5;
    // Move to row 6 (just beyond visible range starting at 0).
    for _ in 0..6 {
        vp.move_down(100);
    }
    assert_eq!(vp.cursor_row, 6);
    assert!(vp.scroll_row > 0); // viewport should have scrolled
}

#[test]
fn test_ensure_col_visible_on_move_right() {
    let mut vp = Viewport::new();
    vp.visible_cols = 3;
    for _ in 0..5 {
        vp.move_right(20);
    }
    assert_eq!(vp.cursor_col, 5);
    assert!(vp.scroll_col > 0);
}
