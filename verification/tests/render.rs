use dview::app::App;
use dview::canvas::Rect;
use dview::keys::{Action, KeyCode, KeyEvent, KeyModifiers};
use dview::load::load_csv;
use dview::table::{DataTable, Fetch, Reply, RowReader};
use dview::ui::{render, rows_to_show};
use dview::viewport::Viewport;
use ratatui::buffer::Buffer;
use ratatui::style::Color;

fn table(headers: &[&str], rows: &[&[&str]]) -> DataTable {
    DataTable::new(
        headers.iter().map(|h| h.to_string()).collect(),
        rows.iter().map(|row| row.iter().map(|c| c.to_string()).collect()).collect(),
    )
}

/// Draws a frame of this size.
fn frame(app: &mut App, width: u16, height: u16) -> Buffer {
    let mut buf = Buffer::empty(ratatui::layout::Rect::new(0, 0, width, height));
    let area = Rect { x: 0, y: 0, width, height };
    let (start, end) = rows_to_show(area, app);
    let rows = (start..end).map(|i| app.data_mut().get_row(i).to_vec()).collect();
    render(&mut buf, area, app, &rows);
    buf
}

fn line(buf: &Buffer, y: u16) -> String {
    (0..buf.area().width).map(|x| buf[(x, y)].symbol().to_string()).collect()
}

fn two_by_two() -> App {
    App::new(vec![("Sheet1".to_string(), table(&["Name", "Age"], &[&["Alice", "30"], &["Bob", "25"]]))])
}

#[test]
fn a_small_table() {
    let mut app = two_by_two();
    let buf = frame(&mut app, 40, 6);
    assert_eq!(line(&buf, 0).trim_end(), "   #   Name    Age");
    assert_eq!(line(&buf, 1).trim_end(), "   1   Alice   30");
    assert_eq!(line(&buf, 2).trim_end(), "   2   Bob     25");
    assert_eq!(line(&buf, 3).trim_end(), "");
    assert_eq!(line(&buf, 5), " Row 1/2  Col 1/2 2 rows × 2 cols | ?:he");
    assert_eq!(app.viewport.visible_rows, 4);
    assert_eq!(app.viewport.visible_cols, 2);
    assert_eq!(app.viewport.row_num_width, 3);
}

#[test]
fn colours_of_a_table() {
    let mut app = two_by_two();
    app.viewport.cursor_row = 1;
    app.viewport.cursor_col = 1;
    let buf = frame(&mut app, 40, 6);
    let rgb = |r, g, b| Color::Rgb(r, g, b);
    // Header.
    assert_eq!(buf[(7, 0)].fg, rgb(0xff, 0x6b, 0x6b));
    assert_eq!(buf[(15, 0)].fg, rgb(0x51, 0xcf, 0x66));
    assert_eq!(buf[(39, 0)].bg, rgb(0x16, 0x21, 0x3e));
    // Rows alternate.
    assert_eq!(buf[(0, 1)].bg, rgb(0x1a, 0x1a, 0x2e));
    assert_eq!(buf[(0, 2)].bg, rgb(0x22, 0x22, 0x40));
    assert_eq!(buf[(7, 1)].fg, rgb(0xff, 0x6b, 0x6b));
    // The number of the cursor row and the cursor cell.
    assert_eq!(buf[(3, 2)].bg, rgb(0x3d, 0x4a, 0x5e));
    assert_eq!(buf[(3, 2)].fg, Color::White);
    assert_eq!(buf[(15, 2)].fg, Color::White);
    for x in 15..19 {
        assert_eq!(buf[(x, 2)].bg, rgb(0x3d, 0x4a, 0x5e));
    }
    assert_eq!(buf[(19, 2)].bg, rgb(0x22, 0x22, 0x40));
    assert_eq!(buf[(7, 2)].bg, rgb(0x22, 0x22, 0x40));
}

#[test]
fn cursor_on_an_empty_cell() {
    let mut app = App::new(vec![("S".to_string(), table(&["Wide header"], &[&[""], &[]]))]);
    for row in 0..2 {
        app.viewport.cursor_row = row as usize;
        let buf = frame(&mut app, 40, 6);
        for x in 7..18 {
            assert_eq!(buf[(x, row + 1)].bg, Color::Rgb(0x3d, 0x4a, 0x5e));
        }
    }
}

#[test]
fn wide_characters_take_two_cells() {
    let mut app = App::new(vec![("S".to_string(), table(&["城市"], &[&["北京x"]]))]);
    let buf = frame(&mut app, 20, 4);
    assert_eq!(buf[(7, 1)].symbol(), "北");
    assert_eq!(buf[(8, 1)].symbol(), " ");
    assert_eq!(buf[(9, 1)].symbol(), "京");
    assert_eq!(buf[(11, 1)].symbol(), "x");
}

#[test]
fn columns_that_do_not_fit_are_left_out() {
    let mut app = App::new(vec![(
        "S".to_string(),
        table(&["aaaaaaaa", "bbbbbbbb", "cccccccc"], &[&["1", "2", "3"]]),
    )]);
    let buf = frame(&mut app, 28, 4);
    assert_eq!(line(&buf, 0).trim_end(), "   #   aaaaaaaa");
    let buf = frame(&mut app, 29, 4);
    assert_eq!(line(&buf, 0).trim_end(), "   #   aaaaaaaa   bbbbbbbb");
    app.viewport.scroll_col = 2;
    let buf = frame(&mut app, 29, 4);
    assert_eq!(line(&buf, 0).trim_end(), "   #   cccccccc");
    assert_eq!(line(&buf, 1).trim_end(), "   1   3");
}

#[test]
fn rows_from_the_scroll_position_on() {
    let rows: Vec<Vec<String>> = (0..50).map(|i| vec![format!("row {}", i)]).collect();
    let mut app = App::new(vec![("S".to_string(), DataTable::new(vec!["A".to_string()], rows))]);
    app.viewport.scroll_row = 10;
    let area = Rect { x: 0, y: 0, width: 30, height: 6 };
    assert_eq!(rows_to_show(area, &app), (10, 14));
    let buf = frame(&mut app, 30, 6);
    assert_eq!(line(&buf, 1).trim_end(), "  11   row 10");
    assert_eq!(line(&buf, 4).trim_end(), "  14   row 13");
    app.viewport.scroll_row = 48;
    assert_eq!(rows_to_show(area, &app), (48, 50));
    app.show_help = true;
    assert_eq!(rows_to_show(area, &app), (48, 48));
}

#[test]
fn tabs_of_sheets() {
    let mut app = App::new(vec![
        ("Data".to_string(), table(&["A"], &[&["1"]])),
        ("Notes".to_string(), table(&["B"], &[])),
    ]);
    let buf = frame(&mut app, 40, 6);
    assert_eq!(line(&buf, 4).trim_end(), "  [ Data │ Notes ]");
    assert_eq!(buf[(4, 4)].bg, Color::Rgb(0x3d, 0x4a, 0x5e));
    assert_eq!(buf[(11, 4)].bg, Color::Rgb(0x16, 0x21, 0x3e));
    assert_eq!(buf[(2, 4)].fg, Color::Rgb(0x66, 0x66, 0x88));
    app.handle_key(KeyEvent::new(KeyCode::Char(']'), KeyModifiers::none()));
    let buf = frame(&mut app, 40, 6);
    assert_eq!(buf[(4, 4)].bg, Color::Rgb(0x16, 0x21, 0x3e));
    assert_eq!(buf[(11, 4)].bg, Color::Rgb(0x3d, 0x4a, 0x5e));
    // A table without rows says nothing of the cursor.
    assert_eq!(line(&buf, 5).trim_end(), "0 rows × 1 cols | ?:help  q:quit");
    // Tabs are cut off before the closing bracket.
    let buf = frame(&mut app, 12, 6);
    assert_eq!(line(&buf, 4), "  [ Data │ ]");
}

#[test]
fn help_screen() {
    let mut app = two_by_two();
    app.show_help = true;
    let buf = frame(&mut app, 80, 50);
    // The box is 59 by 38 and in the middle.
    assert_eq!(buf[(10, 6)].symbol(), "┌");
    assert_eq!(buf[(68, 6)].symbol(), "┐");
    assert_eq!(buf[(10, 43)].symbol(), "└");
    assert_eq!(buf[(68, 43)].symbol(), "┘");
    assert_eq!(line(&buf, 6).trim(), format!("┌─ Help {}┐", "─".repeat(50)));
    let inside = |y: u16| line(&buf, y).trim().trim_matches('│').trim_end().to_string();
    assert_eq!(inside(7), " Navigation");
    assert_eq!(inside(8), "           h / Left   Move cursor left one column");
    assert_eq!(inside(12), "");
    assert_eq!(inside(39), "             Ctrl+C   Quit dview");
    assert_eq!(inside(42), "              Press Esc or ? to close help");
    assert_eq!(buf[(12, 7)].fg, Color::Rgb(0x66, 0x66, 0x88));
    assert_eq!(buf[(23, 8)].fg, Color::Rgb(0xff, 0x6b, 0x6b));
    for x in 0..80 {
        for y in 0..50 {
            assert_eq!(buf[(x, y)].bg, Color::Rgb(0x16, 0x21, 0x3e));
        }
    }
}

#[test]
fn frames_of_every_small_size() {
    for width in 0..12 {
        for height in 0..8 {
            for help in [false, true] {
                let mut app = two_by_two();
                app.sheets.push(("Other".to_string(), table(&[], &[])));
                app.show_help = help;
                let buf = frame(&mut app, width, height);
                assert_eq!(buf.content().len(), width as usize * height as usize);
            }
        }
    }
}

#[test]
fn status_of_sheets() {
    let app = App::new(vec![]);
    assert_eq!(app.status_message, "? :help  q:quit");
    let mut app = two_by_two();
    assert_eq!(app.status_message, "2 rows × 2 cols | ?:help  q:quit");
    app.sheets.push(("Other".to_string(), table(&["A", "B", "C"], &[&["1"]])));
    app.handle_key(KeyEvent::new(KeyCode::Char('['), KeyModifiers::none()));
    assert_eq!(app.active_sheet, 1);
    assert_eq!(app.status_message, "1 rows × 3 cols | ?:help  q:quit");
}

#[test]
fn keys_without_sheets() {
    let mut app = App::new(vec![]);
    app.running = true;
    for c in ['j', 'l', 'G', '$', ']', 'x'] {
        app.handle_key(KeyEvent::new(KeyCode::Char(c), KeyModifiers::none()));
    }
    assert_eq!(app.viewport, Viewport::new());
    app.handle_key(KeyEvent::new(KeyCode::Char('q'), KeyModifiers::none()));
    assert!(!app.running);
}

#[test]
fn help_brings_back_the_screen() {
    let mut app = two_by_two();
    app.running = true;
    let before = app.viewport;
    for close in [KeyCode::Char('?'), KeyCode::Esc] {
        app.handle_key(KeyEvent::new(KeyCode::Char('?'), KeyModifiers::none()));
        assert!(app.show_help);
        assert!(app.prefetch_visible().is_empty());
        app.handle_key(KeyEvent::new(close, KeyModifiers::none()));
        assert!(!app.show_help && app.running);
        assert_eq!(app.viewport, before);
    }
}

#[test]
fn actions_of_keys() {
    let plain = |code| KeyEvent::new(code, KeyModifiers::none()).action();
    let ctrl = |code| KeyEvent::new(code, KeyModifiers::control()).action();
    assert_eq!(plain(KeyCode::Char('g')), Action::AwaitTop);
    assert_eq!(plain(KeyCode::Other), Action::Ignore);
    assert_eq!(ctrl(KeyCode::Char('q')), Action::Ignore);
    assert_eq!(ctrl(KeyCode::Left), Action::Ignore);
    assert_eq!(ctrl(KeyCode::Char('f')), plain(KeyCode::PageDown));
    assert_eq!(plain(KeyCode::End), plain(KeyCode::Char('G')));
}

#[test]
fn dimensions_of_viewports() {
    let mut v = Viewport::new();
    for (rows, width) in [(0, 3), (99, 3), (100, 4), (999, 4), (1000, 5), (999_999, 7), (1_000_000, 8), (1_000_000_000, 8)] {
        v.recalc_dimensions(80, 24, &[4], rows);
        assert_eq!(v.row_num_width, width);
    }
    // 20 - (3 + 3 + 1) leaves 13 cells: one column of 7 and no second one.
    v.recalc_dimensions(20, 10, &[4, 4], 5);
    assert_eq!(v.visible_cols, 1);
    v.recalc_dimensions(21, 10, &[4, 4], 5);
    assert_eq!(v.visible_cols, 2);
    // The first column is shown even if it does not fit.
    v.recalc_dimensions(20, 10, &[400, 4], 5);
    assert_eq!(v.visible_cols, 1);
    v.recalc_dimensions(9, 10, &[4, 4], 5);
    assert_eq!(v.visible_cols, 0);
    v.recalc_dimensions(80, 0, &[], 5);
    assert_eq!((v.visible_rows, v.visible_cols), (0, 1));
    v.scroll_col = 9;
    v.recalc_dimensions(80, 10, &[4, 4, 4], 5);
    assert_eq!(v.visible_cols, 1);
    // A column can be wider than any screen.
    v.scroll_col = 0;
    v.recalc_dimensions(21, 10, &[0x10004, 4], 5);
    assert_eq!(v.visible_cols, 1);
}

#[test]
fn cursor_stays_in_sight() {
    let mut app = App::new(vec![("S".to_string(), DataTable::new(
        (0..30).map(|i| format!("column {}", i)).collect(),
        (0..200).map(|_| Vec::new()).collect(),
    ))]);
    frame(&mut app, 60, 12);
    let keys = ['j', 'l', 'J', 'L', 'G', '$', 'k', 'h', 'K', 'H', '0', 'j', 'l'];
    for round in 0..60 {
        for (i, c) in keys.iter().enumerate() {
            if (round + i) % 3 != 0 {
                app.handle_key(KeyEvent::new(KeyCode::Char(*c), KeyModifiers::none()));
            } else {
                app.handle_key(KeyEvent::new(KeyCode::Char('f'), KeyModifiers::control()));
            }
            let v = app.viewport;
            assert!(v.cursor_row < 200 && v.cursor_col < 30);
            assert!(v.scroll_row <= v.cursor_row && v.cursor_row < v.scroll_row + v.visible_rows);
            assert!(v.scroll_col <= v.cursor_col && v.cursor_col < v.scroll_col + v.visible_cols);
        }
    }
}

#[test]
fn frame_shows_the_rows_of_the_file() {
    let mut content = String::from("Name,Value\n");
    for i in 0..9000 {
        content.push_str(&format!("row {},{}\n", i, i * i));
    }
    let bytes = content.into_bytes();
    let table = load_csv(bytes.clone(), b',').unwrap();
    assert!(table.row_fetch(0).is_some());
    let mut app = App::new(vec![("S".to_string(), table), ("T".to_string(), two_by_two().sheets.remove(0).1)]);
    for first in [0, 249, 4000, 8990] {
        app.viewport.scroll_row = first;
        let area = Rect { x: 0, y: 0, width: 50, height: 20 };
        let (start, end) = rows_to_show(area, &app);
        assert_eq!((start, end), (first, (first + 17).min(9000)));
        let mut reader = RowReader::new(start, end);
        while let Some(fetch) = reader.step(app.data_mut()) {
            match fetch {
                Fetch::Bytes(w) => {
                    let part = bytes[w.start as usize..w.end as usize].to_vec();
                    app.data_mut().supply(fetch, Reply::Bytes(part));
                }
                Fetch::Rows(_) => unreachable!(),
            }
        }
        let mut buf = Buffer::empty(ratatui::layout::Rect::new(0, 0, 50, 20));
        render(&mut buf, area, &mut app, &reader.rows);
        for i in start..end {
            let shown = line(&buf, (1 + i - start) as u16);
            let name = format!("row {}", i);
            assert_eq!(shown.trim_end(), format!(" {:>5}   {:<8}   {}", i + 1, name, i * i));
        }
    }
}

#[test]
fn wide_cells_do_not_cover_the_next_column() {
    // Widths of a large file are sampled, so a cell may be wider than its column.
    let mut app = two_by_two();
    app.sheets[0].1.column_widths = vec![4, 4];
    let buf = frame(&mut app, 40, 6);
    assert_eq!(line(&buf, 1).trim_end(), "   1   Alice  30");
    app.sheets[0].1.column_widths = vec![1, 4];
    let buf = frame(&mut app, 40, 6);
    assert_eq!(line(&buf, 1).trim_end(), "   1   Alic30");
}
