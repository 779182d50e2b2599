//! The state of the viewer, and what keys do to it.
use crate::colors::ColorPalette;
use crate::keys;
use crate::keys::{Action, KeyCode, KeyEvent};
use crate::table;
use crate::table::{DataTable, Fetch, Reply};
use crate::text;
use crate::text::push_decimal;
use crate::viewport::Viewport;
use vstd::prelude::*;

verus! {

/// Main application state.
#[derive(Debug)]
pub struct App {
    /// All loaded sheets (name, table).
    pub sheets: Vec<(String, DataTable)>,
    /// Index into `sheets`.
    pub active_sheet: usize,
    pub viewport: Viewport,
    pub palette: ColorPalette,
    pub running: bool,
    pub gg_pending: bool,
    pub show_help: bool,
    pub status_message: String,
}

/// What keys change.
pub struct Screen {
    pub active_sheet: int,
    pub viewport: Viewport,
    pub running: bool,
    pub gg_pending: bool,
    pub show_help: bool,
    pub status: Seq<char>,
}

/// The rows and columns of each sheet.
pub open spec fn sheet_sizes(sheets: Seq<(String, DataTable)>) -> Seq<(int, int)> {
    sheets.map_values(
        |s: (String, DataTable)| (s.1.backend.row_count(), s.1.headers@.len() as int),
    )
}

/// The rows and columns of a sheet; a sheet that is not there has none.
pub open spec fn size_at(sizes: Seq<(int, int)>, sheet: int) -> (int, int) {
    if 0 <= sheet < sizes.len() {
        sizes[sheet]
    } else {
        (0, 0)
    }
}

/// What the status bar says of a sheet.
pub open spec fn status_text(rows: int, cols: int) -> Seq<char> {
    text::decimal(rows) + " rows × "@ + text::decimal(cols) + " cols | ?:help  q:quit"@
}

/// What the status bar says first.
pub open spec fn first_status(sizes: Seq<(int, int)>) -> Seq<char> {
    if sizes.len() > 0 {
        status_text(sizes[0].0, sizes[0].1)
    } else {
        "? :help  q:quit"@
    }
}

impl Screen {
    /// Another sheet, `delta` sheets on, round and round. Its viewport begins
    /// anew. A single sheet stays as it is.
    pub open spec fn on_sheet(self, sizes: Seq<(int, int)>, delta: int) -> Screen {
        let n = sizes.len() as int;
        if n <= 1 {
            self
        } else {
            let sheet = (self.active_sheet + delta + n) % n;
            Screen {
                active_sheet: sheet,
                viewport: Viewport::initial(),
                status: status_text(sizes[sheet].0, sizes[sheet].1),
                ..self
            }
        }
    }

    /// The screen with another viewport.
    pub open spec fn viewing(self, viewport: Viewport) -> Screen {
        Screen { viewport, ..self }
    }

    /// What an action does while the table is shown.
    pub open spec fn acted(self, sizes: Seq<(int, int)>, action: Action) -> Screen {
        let v = self.viewport;
        let (rows, cols) = size_at(sizes, self.active_sheet);
        match action {
            Action::Ignore => self,
            Action::Quit => Screen { running: false, ..self },
            Action::ShowHelp => Screen { show_help: true, ..self },
            Action::MoveLeft => self.viewing(v.left()),
            Action::MoveDown => self.viewing(v.down(rows)),
            Action::MoveUp => self.viewing(v.up()),
            Action::MoveRight => self.viewing(v.right(cols)),
            Action::ScrollLeft => self.viewing(v.view_left()),
            Action::ScrollDown => self.viewing(v.view_down(rows)),
            Action::ScrollUp => self.viewing(v.view_up()),
            Action::ScrollRight => self.viewing(v.view_right(cols)),
            Action::PageUp => self.viewing(v.paged_up()),
            Action::PageDown => self.viewing(v.paged_down(rows)),
            Action::Top => self.viewing(v.at_top()),
            Action::Bottom => self.viewing(v.at_bottom(rows)),
            Action::ColStart => self.viewing(v.at_col_start()),
            Action::ColEnd => self.viewing(v.at_col_end(cols)),
            Action::AwaitTop => Screen { gg_pending: true, ..self },
            Action::PreviousSheet => self.on_sheet(sizes, -1),
            Action::NextSheet => self.on_sheet(sizes, 1),
        }
    }

    /// What a key does. The help screen is modal: only Esc or `?` dismiss it. A
    /// second `g` goes to the first row; any other key drops the first `g`.
    pub open spec fn pressed(self, sizes: Seq<(int, int)>, key: KeyEvent) -> Screen {
        if self.show_help {
            if key.code == KeyCode::Esc || key.code == KeyCode::Char('?') {
                Screen { show_help: false, ..self }
            } else {
                self
            }
        } else {
            let settled = Screen { gg_pending: false, ..self };
            if self.gg_pending && key.code == KeyCode::Char('g') {
                settled.viewing(self.viewport.at_top())
            } else {
                settled.acted(sizes, keys::action_of(key))
            }
        }
    }
}

/// What the status bar says of a sheet.
fn sheet_status(table: &DataTable) -> (status: String)
    ensures
        status@ == status_text(table.backend.row_count(), table.headers@.len() as int),
{
    let mut status = String::new();
    push_decimal(&mut status, table.total_rows() as i128);
    status.append(" rows × ");
    push_decimal(&mut status, table.total_cols() as i128);
    status.append(" cols | ?:help  q:quit");
    status
}

impl App {
    /// What keys change.
    pub open spec fn screen(self) -> Screen {
        Screen {
            active_sheet: self.active_sheet as int,
            viewport: self.viewport,
            running: self.running,
            gg_pending: self.gg_pending,
            show_help: self.show_help,
            status: self.status_message@,
        }
    }

    /// `next` is this viewer once the visible rows were to be made ready, and `wanted`
    /// is what is to be read for them. Behind the help screen no rows are seen.
    pub open spec fn prefetched(self, next: App, wanted: Seq<Fetch>) -> bool {
        let sheet = self.active_sheet as int;
        let before = self.sheets@[sheet].1;
        let after = next.sheets@[sheet].1;
        let start = self.viewport.scroll_row as int;
        let count = self.viewport.page();
        &&& next.screen() == self.screen()
        &&& next.palette == self.palette
        &&& self.show_help ==> wanted.len() == 0 && next.sheets@ == self.sheets@
        &&& !self.show_help ==> {
            &&& next.sheets@ == self.sheets@.update(sheet, (self.sheets@[sheet].0, after))
            &&& after.headers == before.headers
            &&& after.column_widths == before.column_widths
            &&& before.backend.asked_range(start, count, after.backend)
            &&& before.backend.wants_range(start, count, wanted)
        }
    }

    /// The active sheet is one of the sheets, if there are any.
    pub open spec fn wf(self) -> bool {
        &&& self.sheets@.len() > 0 ==> self.active_sheet < self.sheets@.len()
        &&& forall|i: int| 0 <= i < self.sheets@.len() ==> (#[trigger] self.sheets@[i]).1.wf()
    }

    pub fn new(sheets: Vec<(String, DataTable)>) -> (app: Self)
        ensures
            app.sheets == sheets,
            app.palette.is_default(),
            app.screen() == (Screen {
                active_sheet: 0,
                viewport: Viewport::initial(),
                running: false,
                gg_pending: false,
                show_help: false,
                status: first_status(sheet_sizes(sheets@)),
            }),
            (forall|i: int| 0 <= i < sheets@.len() ==> (#[trigger] sheets@[i]).1.wf())
                ==> app.wf(),
    {
        let status_message = if sheets.len() > 0 {
            sheet_status(&sheets[0].1)
        } else {
            "? :help  q:quit".to_owned()
        };
        Self {
            sheets,
            active_sheet: 0,
            viewport: Viewport::new(),
            palette: ColorPalette::default(),
            running: false,
            gg_pending: false,
            show_help: false,
            status_message,
        }
    }

    /// Reference to the currently active data table.
    pub fn data(&self) -> (table: &DataTable)
        requires
            self.active_sheet < self.sheets@.len(),
        ensures
            *table == self.sheets@[self.active_sheet as int].1,
    {
        &self.sheets[self.active_sheet].1
    }

    /// Mutable reference to the currently active data table.
    pub fn data_mut(&mut self) -> (table: &mut DataTable)
        requires
            old(self).active_sheet < old(self).sheets@.len(),
        ensures
            *table == old(self).sheets@[old(self).active_sheet as int].1,
            final(self).sheets@ == old(self).sheets@.update(
                old(self).active_sheet as int,
                (old(self).sheets@[old(self).active_sheet as int].0, *final(table)),
            ),
            final(self).screen() == old(self).screen(),
            final(self).palette == old(self).palette,
    {
        let sheet = &mut self.sheets[self.active_sheet];
        &mut sheet.1
    }

    fn sheet_count(&self) -> (n: usize)
        ensures
            n == self.sheets@.len(),
    {
        self.sheets.len()
    }

    /// Number of rows of the active sheet.
    fn rows(&self) -> (n: usize)
        ensures
            n == size_at(sheet_sizes(self.sheets@), self.active_sheet as int).0,
    {
        if self.active_sheet < self.sheets.len() {
            self.data().total_rows()
        } else {
            0
        }
    }

    /// Number of columns of the active sheet.
    fn cols(&self) -> (n: usize)
        ensures
            n == size_at(sheet_sizes(self.sheets@), self.active_sheet as int).1,
    {
        if self.active_sheet < self.sheets.len() {
            self.data().total_cols()
        } else {
            0
        }
    }

    fn switch_sheet(&mut self, delta: isize)
        requires
            old(self).wf(),
            delta == 1 || delta == -1,
        ensures
            final(self).wf(),
            final(self).sheets == old(self).sheets,
            final(self).palette == old(self).palette,
            final(self).screen() == old(self).screen().on_sheet(
                sheet_sizes(old(self).sheets@),
                delta as int,
            ),
    {
        let n = self.sheet_count();
        if n <= 1 {
            return;
        }
        let sheet: usize = if delta == 1 {
            if self.active_sheet + 1 < n {
                self.active_sheet + 1
            } else {
                0
            }
        } else if self.active_sheet > 0 {
            self.active_sheet - 1
        } else {
            n - 1
        };
        proof {
            lemma_turn(self.active_sheet as int, delta as int, n as int);
        }
        self.active_sheet = sheet;
        self.viewport = Viewport::new();
        self.status_message = sheet_status(self.data());
    }

    fn act(&mut self, action: Action)
        requires
            old(self).wf(),
        ensures
            final(self).wf(),
            final(self).sheets == old(self).sheets,
            final(self).palette == old(self).palette,
            final(self).screen() == old(self).screen().acted(
                sheet_sizes(old(self).sheets@),
                action,
            ),
    {
        let rows = self.rows();
        let cols = self.cols();
        match action {
            Action::Ignore => {},
            Action::Quit => self.running = false,
            Action::ShowHelp => self.show_help = true,
            Action::MoveLeft => self.viewport.move_left(cols),
            Action::MoveDown => self.viewport.move_down(rows),
            Action::MoveUp => self.viewport.move_up(),
            Action::MoveRight => self.viewport.move_right(cols),
            Action::ScrollLeft => self.viewport.scroll_view_left(),
            Action::ScrollDown => self.viewport.scroll_view_down(rows),
            Action::ScrollUp => self.viewport.scroll_view_up(),
            Action::ScrollRight => self.viewport.scroll_view_right(cols),
            Action::PageUp => self.viewport.page_up(),
            Action::PageDown => self.viewport.page_down(rows),
            Action::Top => self.viewport.go_top(),
            Action::Bottom => self.viewport.go_bottom(rows),
            Action::ColStart => self.viewport.go_col_start(),
            Action::ColEnd => self.viewport.go_col_end(cols),
            Action::AwaitTop => self.gg_pending = true,
            Action::PreviousSheet => self.switch_sheet(-1),
            Action::NextSheet => self.switch_sheet(1),
        }
    }

    /// A key was pressed.
    pub fn handle_key(&mut self, key: KeyEvent)
        requires
            old(self).wf(),
        ensures
            final(self).wf(),
            final(self).sheets == old(self).sheets,
            final(self).palette == old(self).palette,
            final(self).screen() == old(self).screen().pressed(
                sheet_sizes(old(self).sheets@),
                key,
            ),
    {
        // Help screen is modal — only Esc or ? dismiss it.
        if self.show_help {
            if key.code == KeyCode::Esc || key.code == KeyCode::Char('?') {
                self.show_help = false;
            }
            return;
        }
        // Resolve gg double-press.
        if self.gg_pending {
            self.gg_pending = false;
            if key.code == KeyCode::Char('g') {
                self.viewport.go_top();
                return;
            }
        }
        self.act(key.action());
    }

    /// Makes the visible rows ready before a frame is drawn, and tells what is to
    /// be read from the file for them. Behind the help screen no rows are seen.
    pub fn prefetch_visible(&mut self) -> (wanted: Vec<Fetch>)
        requires
            old(self).wf(),
            old(self).active_sheet < old(self).sheets@.len(),
        ensures
            final(self).wf(),
            old(self).prefetched(*final(self), wanted@),
    {
        if self.show_help {
            return Vec::new();
        }
        let start = self.viewport.scroll_row;
        let count: usize = if self.viewport.visible_rows > 1 {
            self.viewport.visible_rows
        } else {
            1
        };
        self.data_mut().prefetch_range(start, count)
    }
}

/// One sheet on or back, round and round.
proof fn lemma_turn(sheet: int, delta: int, n: int)
    requires
        0 <= sheet < n,
        -n <= delta <= n,
    ensures
        (sheet + delta + n) % n == (if sheet + delta >= n {
            sheet + delta - n
        } else if sheet + delta >= 0 {
            sheet + delta
        } else {
            sheet + delta + n
        }),
{
    let turned = if sheet + delta >= n {
        sheet + delta - n
    } else if sheet + delta >= 0 {
        sheet + delta
    } else {
        sheet + delta + n
    };
    let turns = if sheet + delta >= n {
        2int
    } else if sheet + delta >= 0 {
        1int
    } else {
        0int
    };
    assert(sheet + delta + n == turns * n + turned) by (nonlinear_arith)
        requires
            turned == sheet + delta + n - turns * n,
    ;
    vstd::arithmetic::div_mod::lemma_fundamental_div_mod_converse(
        sheet + delta + n,
        n,
        turns,
        turned,
    );
}

// ---------------------------------------------------------------------------
// What holds of every key
// ---------------------------------------------------------------------------

/// The cursor is on a cell of a table of this size, or in its corner where the
/// table has no cells.
pub open spec fn on_table(v: Viewport, size: (int, int)) -> bool {
    &&& v.cursor_row < size.0 || v.cursor_row == 0
    &&& v.cursor_col < size.1 || v.cursor_col == 0
}

/// Whatever key is pressed, the active sheet stays one of the sheets and the
/// cursor stays on its table.
pub proof fn lemma_key_keeps_cursor_on_table(s: Screen, sizes: Seq<(int, int)>, key: KeyEvent)
    requires
        0 <= s.active_sheet < sizes.len(),
        forall|i: int|
            0 <= i < sizes.len() ==> 0 <= (#[trigger] sizes[i]).0 <= usize::MAX && 0 <= sizes[i].1
                <= usize::MAX,
        on_table(s.viewport, sizes[s.active_sheet]),
    ensures
        0 <= s.pressed(sizes, key).active_sheet < sizes.len(),
        on_table(s.pressed(sizes, key).viewport, sizes[s.pressed(sizes, key).active_sheet]),
{
    let size = sizes[s.active_sheet];
    if sizes.len() > 1 {
        lemma_turn(s.active_sheet, 1, sizes.len() as int);
        lemma_turn(s.active_sheet, -1, sizes.len() as int);
    }
    let next = s.pressed(sizes, key).viewport;
    if s.viewport.moves_to(size.0, size.1, next) {
        lemma_movement_stays_on_table(s.viewport, size, next);
    }
}

proof fn lemma_movement_stays_on_table(v: Viewport, size: (int, int), next: Viewport)
    requires
        0 <= size.0 <= usize::MAX,
        0 <= size.1 <= usize::MAX,
        on_table(v, size),
        v.moves_to(size.0, size.1, next),
    ensures
        on_table(next, size),
{
}

/// While help is shown, Esc and `?` close it, and do nothing else: in particular
/// they do not quit. Every other key does nothing at all.
pub proof fn lemma_help_is_modal(s: Screen, sizes: Seq<(int, int)>, key: KeyEvent)
    requires
        s.show_help,
    ensures
        key.code == KeyCode::Esc || key.code == KeyCode::Char('?') ==> s.pressed(sizes, key) == (
        Screen { show_help: false, ..s }),
        key.code != KeyCode::Esc && key.code != KeyCode::Char('?') ==> s.pressed(sizes, key) == s,
        s.pressed(sizes, key).running == s.running,
{
}

/// `?` shows help, and `?` or Esc brings back what was on the screen.
pub proof fn lemma_help_toggles(
    s: Screen,
    sizes: Seq<(int, int)>,
    open_key: KeyEvent,
    close_key: KeyEvent,
)
    requires
        !s.show_help,
        !s.gg_pending,
        open_key.code == KeyCode::Char('?'),
        !open_key.modifiers.control,
        close_key.code == KeyCode::Char('?') || close_key.code == KeyCode::Esc,
    ensures
        s.pressed(sizes, open_key).show_help,
        s.pressed(sizes, open_key).pressed(sizes, close_key) == s,
{
}

/// `gg` goes to the first row.
pub proof fn lemma_gg_goes_to_top(
    s: Screen,
    sizes: Seq<(int, int)>,
    first: KeyEvent,
    second: KeyEvent,
)
    requires
        !s.show_help,
        !s.gg_pending,
        first.code == KeyCode::Char('g'),
        !first.modifiers.control,
        second.code == KeyCode::Char('g'),
    ensures
        s.pressed(sizes, first) == (Screen { gg_pending: true, ..s }),
        s.pressed(sizes, first).pressed(sizes, second) == s.viewing(s.viewport.at_top()),
{
}

/// A `g` that no second `g` follows does nothing: the other key does what it
/// does without it.
pub proof fn lemma_single_g_is_dropped(
    s: Screen,
    sizes: Seq<(int, int)>,
    first: KeyEvent,
    other: KeyEvent,
)
    requires
        !s.show_help,
        !s.gg_pending,
        first.code == KeyCode::Char('g'),
        !first.modifiers.control,
        other.code != KeyCode::Char('g'),
    ensures
        s.pressed(sizes, first).pressed(sizes, other) == s.pressed(sizes, other),
{
}

/// Keys without a meaning do nothing but drop a pending `g`.
pub proof fn lemma_other_keys_are_ignored(s: Screen, sizes: Seq<(int, int)>, key: KeyEvent)
    requires
        !s.show_help,
        keys::action_of(key) == Action::Ignore,
        !s.gg_pending || key.code != KeyCode::Char('g'),
    ensures
        s.pressed(sizes, key) == (Screen { gg_pending: false, ..s }),
{
}

/// The viewer quits just on `q`, Esc and Ctrl+C, and never from the help screen.
pub proof fn lemma_what_quits(s: Screen, sizes: Seq<(int, int)>, key: KeyEvent)
    requires
        s.running,
    ensures
        !s.pressed(sizes, key).running <==> !s.show_help && (if key.modifiers.control {
            key.code == KeyCode::Char('c')
        } else {
            key.code == KeyCode::Char('q') || key.code == KeyCode::Esc
        }),
{
}

/// `k` sheets on from sheet `s.active_sheet`.
pub open spec fn sheets_on(s: Screen, sizes: Seq<(int, int)>, k: nat) -> Screen
    decreases k,
{
    if k == 0 {
        s
    } else {
        sheets_on(s, sizes, (k - 1) as nat).on_sheet(sizes, 1)
    }
}

/// Sheets follow each other round and round: after as many steps as there are
/// sheets the first one is back.
pub proof fn lemma_sheets_cycle(s: Screen, sizes: Seq<(int, int)>, k: nat)
    requires
        0 <= s.active_sheet < sizes.len(),
    ensures
        sheets_on(s, sizes, k).active_sheet == (s.active_sheet + k) % sizes.len() as int,
        sheets_on(s, sizes, sizes.len()).active_sheet == s.active_sheet,
{
    let n = sizes.len() as int;
    lemma_sheets_on(s, sizes, k);
    lemma_sheets_on(s, sizes, sizes.len());
    vstd::arithmetic::div_mod::lemma_mod_add_multiples_vanish(s.active_sheet, n);
    vstd::arithmetic::div_mod::lemma_small_mod(s.active_sheet as nat, n as nat);
}

proof fn lemma_sheets_on(s: Screen, sizes: Seq<(int, int)>, k: nat)
    requires
        0 <= s.active_sheet < sizes.len(),
    ensures
        sheets_on(s, sizes, k).active_sheet == (s.active_sheet + k) % sizes.len() as int,
    decreases k,
{
    let n = sizes.len() as int;
    if k == 0 {
        vstd::arithmetic::div_mod::lemma_small_mod(s.active_sheet as nat, n as nat);
    } else {
        lemma_sheets_on(s, sizes, (k - 1) as nat);
        let before = s.active_sheet + k - 1;
        if n == 1 {
            assert((before + 1) % 1 == 0);
            assert(before % 1 == 0);
        } else {
            vstd::arithmetic::div_mod::lemma_mod_bound(before, n);
            lemma_turn(before % n, 1, n);
            vstd::arithmetic::div_mod::lemma_add_mod_noop(before, 1, n);
            vstd::arithmetic::div_mod::lemma_mod_add_multiples_vanish(before % n + 1, n);
            vstd::arithmetic::div_mod::lemma_small_mod(1, n as nat);
            assert(((before % n) + 1) % n == (before + 1) % n);
        }
    }
}

/// `]` and then `[`, or `[` and then `]`, comes back to the sheet; its viewport
/// begins anew. With a single sheet neither does anything.
pub proof fn lemma_sheet_switch_undone(s: Screen, sizes: Seq<(int, int)>)
    requires
        0 <= s.active_sheet < sizes.len(),
    ensures
        s.on_sheet(sizes, 1).on_sheet(sizes, -1).active_sheet == s.active_sheet,
        s.on_sheet(sizes, -1).on_sheet(sizes, 1).active_sheet == s.active_sheet,
        sizes.len() > 1 ==> s.on_sheet(sizes, 1).viewport == Viewport::initial()
            && s.on_sheet(sizes, -1).viewport == Viewport::initial(),
        sizes.len() == 1 ==> s.on_sheet(sizes, 1) == s && s.on_sheet(sizes, -1) == s,
{
    let n = sizes.len() as int;
    if n > 1 {
        lemma_turn(s.active_sheet, 1, n);
        lemma_turn(s.active_sheet, -1, n);
        lemma_turn(s.on_sheet(sizes, 1).active_sheet, -1, n);
        lemma_turn(s.on_sheet(sizes, -1).active_sheet, 1, n);
    }
}

// ---------------------------------------------------------------------------
// What each key is for
// ---------------------------------------------------------------------------

/// The table is shown, no first `g` is pending, and the cursor is on a cell.
pub open spec fn at_rest(s: Screen, sizes: Seq<(int, int)>) -> bool {
    &&& !s.show_help
    &&& !s.gg_pending
    &&& 0 <= s.active_sheet < sizes.len()
    &&& s.viewport.in_grid(sizes[s.active_sheet].0, sizes[s.active_sheet].1)
    &&& sizes[s.active_sheet].0 <= usize::MAX
    &&& sizes[s.active_sheet].1 <= usize::MAX
}

/// `next` differs from `s` in what is seen of the table only.
pub open spec fn same_but_view(s: Screen, next: Screen) -> bool {
    next == Screen { viewport: next.viewport, ..s }
}

/// `hjkl` and the arrows move the cursor: `h` and Left one column to the left, `j` and
/// Down one row down, `k` and Up one row up, `l` and Right one column to the right. On
/// the edge of the table the cursor stays.
pub proof fn lemma_keys_that_move(s: Screen, sizes: Seq<(int, int)>, key: KeyEvent)
    requires
        at_rest(s, sizes),
        !key.modifiers.control,
        !key.modifiers.shift,
    ensures
        ({
            let v = s.viewport;
            let next = s.pressed(sizes, key);
            let w = next.viewport;
            let (rows, cols) = sizes[s.active_sheet];
            &&& key.code == KeyCode::Char('h') || key.code == KeyCode::Left ==> same_but_view(
                s,
                next,
            ) && w.cursor_row == v.cursor_row && w.cursor_col == (if v.cursor_col == 0 {
                0
            } else {
                v.cursor_col - 1
            })
            &&& key.code == KeyCode::Char('l') || key.code == KeyCode::Right ==> same_but_view(
                s,
                next,
            ) && w.cursor_row == v.cursor_row && w.cursor_col == (if v.cursor_col + 1 == cols {
                v.cursor_col as int
            } else {
                v.cursor_col + 1
            })
            &&& key.code == KeyCode::Char('k') || key.code == KeyCode::Up ==> same_but_view(
                s,
                next,
            ) && w.cursor_col == v.cursor_col && w.cursor_row == (if v.cursor_row == 0 {
                0
            } else {
                v.cursor_row - 1
            })
            &&& key.code == KeyCode::Char('j') || key.code == KeyCode::Down ==> same_but_view(
                s,
                next,
            ) && w.cursor_col == v.cursor_col && w.cursor_row == (if v.cursor_row + 1 == rows {
                v.cursor_row as int
            } else {
                v.cursor_row + 1
            })
        }),
{
}

/// `HJKL`, and the arrows with Shift, scroll the view and the cursor with it.
pub proof fn lemma_keys_that_scroll(s: Screen, sizes: Seq<(int, int)>, key: KeyEvent)
    requires
        at_rest(s, sizes),
        !key.modifiers.control,
    ensures
        ({
            let v = s.viewport;
            let next = s.pressed(sizes, key);
            let w = next.viewport;
            let shift = key.modifiers.shift;
            let (rows, cols) = sizes[s.active_sheet];
            &&& key.code == KeyCode::Char('H') || shift && key.code == KeyCode::Left ==> {
                &&& same_but_view(s, next)
                &&& v.scroll_col > 0 && v.cursor_col > 0 ==> w.scroll_col == v.scroll_col - 1
                    && w.cursor_col == v.cursor_col - 1
                &&& w.scroll_row == v.scroll_row && w.cursor_row == v.cursor_row
            }
            &&& key.code == KeyCode::Char('L') || shift && key.code == KeyCode::Right ==> {
                &&& same_but_view(s, next)
                &&& v.scroll_col + v.visible_cols < cols && v.cursor_col + 1 < cols
                    ==> w.scroll_col == v.scroll_col + 1 && w.cursor_col == v.cursor_col + 1
                &&& w.scroll_row == v.scroll_row && w.cursor_row == v.cursor_row
            }
            &&& key.code == KeyCode::Char('K') || shift && key.code == KeyCode::Up ==> {
                &&& same_but_view(s, next)
                &&& v.scroll_row > 0 && v.cursor_row > 0 ==> w.scroll_row == v.scroll_row - 1
                    && w.cursor_row == v.cursor_row - 1
                &&& w.scroll_col == v.scroll_col && w.cursor_col == v.cursor_col
            }
            &&& key.code == KeyCode::Char('J') || shift && key.code == KeyCode::Down ==> {
                &&& same_but_view(s, next)
                &&& v.scroll_row + v.visible_rows < rows && v.cursor_row + 1 < rows
                    ==> w.scroll_row == v.scroll_row + 1 && w.cursor_row == v.cursor_row + 1
                &&& w.scroll_col == v.scroll_col && w.cursor_col == v.cursor_col
            }
        }),
{
}

/// Home goes to the first row, `G` and End to the last one, `0` to the first column and
/// `$` to the last one. PageDown and Ctrl+F go on by a screen, PageUp and Ctrl+B back.
pub proof fn lemma_keys_that_jump(s: Screen, sizes: Seq<(int, int)>, key: KeyEvent)
    requires
        at_rest(s, sizes),
        s.viewport.row_visible(),
    ensures
        ({
            let v = s.viewport;
            let next = s.pressed(sizes, key);
            let w = next.viewport;
            let control = key.modifiers.control;
            let (rows, cols) = sizes[s.active_sheet];
            &&& !control && key.code == KeyCode::Home ==> same_but_view(s, next) && w.cursor_row
                == 0 && w.cursor_col == v.cursor_col
            &&& !control && (key.code == KeyCode::Char('G') || key.code == KeyCode::End)
                ==> same_but_view(s, next) && w.cursor_row == rows - 1 && w.cursor_col
                == v.cursor_col
            &&& !control && key.code == KeyCode::Char('0') ==> same_but_view(s, next)
                && w.cursor_col == 0 && w.cursor_row == v.cursor_row
            &&& !control && key.code == KeyCode::Char('$') ==> same_but_view(s, next)
                && w.cursor_col == cols - 1 && w.cursor_row == v.cursor_row
            &&& !control && key.code == KeyCode::PageDown || control && key.code
                == KeyCode::Char('f') ==> same_but_view(s, next) && w.cursor_col == v.cursor_col
                && w.cursor_row == (if v.cursor_row + v.visible_rows < rows {
                v.cursor_row + v.visible_rows
            } else {
                rows - 1
            })
            &&& !control && key.code == KeyCode::PageUp || control && key.code
                == KeyCode::Char('b') ==> same_but_view(s, next) && w.cursor_col == v.cursor_col
                && w.cursor_row == (if v.cursor_row >= v.visible_rows {
                v.cursor_row - v.visible_rows
            } else {
                0
            })
        }),
{
}

/// `[` and `]` show the sheet before and the sheet behind, round and round, from its
/// first cell on, and the status tells how many rows and columns that sheet has.
pub proof fn lemma_keys_that_turn_sheets(s: Screen, sizes: Seq<(int, int)>, key: KeyEvent)
    requires
        at_rest(s, sizes),
        sizes.len() > 1,
        !key.modifiers.control,
        key.code == KeyCode::Char('[') || key.code == KeyCode::Char(']'),
    ensures
        ({
            let next = s.pressed(sizes, key);
            let sheet = next.active_sheet;
            &&& key.code == KeyCode::Char(']') ==> sheet == (if s.active_sheet + 1 == sizes.len() {
                0
            } else {
                s.active_sheet + 1
            })
            &&& key.code == KeyCode::Char('[') ==> sheet == (if s.active_sheet == 0 {
                sizes.len() - 1
            } else {
                s.active_sheet - 1
            })
            &&& next.viewport.cursor_row == 0 && next.viewport.cursor_col == 0
            &&& next.viewport.scroll_row == 0 && next.viewport.scroll_col == 0
            &&& next.running == s.running && !next.show_help && !next.gg_pending
            &&& next.status == text::decimal(sizes[sheet].0) + " rows × "@ + text::decimal(
                sizes[sheet].1,
            ) + " cols | ?:help  q:quit"@
        }),
{
    lemma_turn(s.active_sheet, 1, sizes.len() as int);
    lemma_turn(s.active_sheet, -1, sizes.len() as int);
}

/// The status of a viewer that was just started tells of its first sheet.
pub proof fn lemma_first_status(sizes: Seq<(int, int)>)
    requires
        sizes.len() > 0,
    ensures
        first_status(sizes) == text::decimal(sizes[0].0) + " rows × "@ + text::decimal(sizes[0].1)
            + " cols | ?:help  q:quit"@,
{
}

/// The sizes that keys go by are those of the tables: their rows and their headers.
pub proof fn lemma_sheet_sizes(sheets: Seq<(String, DataTable)>, i: int)
    requires
        0 <= i < sheets.len(),
    ensures
        sheet_sizes(sheets).len() == sheets.len(),
        size_at(sheet_sizes(sheets), i).0 == sheets[i].1.backend.row_count(),
        size_at(sheet_sizes(sheets), i).1 == sheets[i].1.headers@.len(),
{
}

/// The second of two `g` goes to the first row, and leaves the column.
pub proof fn lemma_second_g(s: Screen, sizes: Seq<(int, int)>, key: KeyEvent)
    requires
        !s.show_help,
        s.gg_pending,
        key.code == KeyCode::Char('g'),
    ensures
        s.pressed(sizes, key).viewport.cursor_row == 0,
        s.pressed(sizes, key).viewport.scroll_row == 0,
        s.pressed(sizes, key).viewport.cursor_col == s.viewport.cursor_col,
        s.pressed(sizes, key).viewport.scroll_col == s.viewport.scroll_col,
        !s.pressed(sizes, key).gg_pending,
        same_but_view(Screen { gg_pending: false, ..s }, s.pressed(sizes, key)),
{
}

/// Keys that are named nowhere do nothing.
pub proof fn lemma_keys_without_meaning(s: Screen, sizes: Seq<(int, int)>, c: char, key: KeyEvent)
    requires
        at_rest(s, sizes),
        key.code == KeyCode::Char(c),
        key.modifiers.control ==> c != 'f' && c != 'b' && c != 'c',
        !key.modifiers.control ==> c != 'q' && c != '?' && c != 'h' && c != 'j' && c != 'k' && c
            != 'l' && c != 'H' && c != 'J' && c != 'K' && c != 'L' && c != '[' && c != ']' && c
            != 'g' && c != 'G' && c != '0' && c != '$',
    ensures
        s.pressed(sizes, key) == s,
{
}

/// Once the visible rows were to be made ready, and all that was wanted was read from
/// the file and supplied, each row of the screen that the file has is held, and is given
/// as it is in the file. `tables` are what the active table came to be.
pub proof fn lemma_visible_rows_are_held(
    app: App,
    next: App,
    wanted: Seq<Fetch>,
    tables: Seq<DataTable>,
    replies: Seq<Reply>,
    bytes: Seq<u8>,
    content: Seq<Seq<Seq<char>>>,
    row: int,
)
    requires
        app.wf(),
        app.active_sheet < app.sheets@.len(),
        !app.show_help,
        app.prefetched(next, wanted),
        app.sheets@[app.active_sheet as int].1.backend.presents_file(bytes, content),
        tables.len() > 0,
        tables[0] == next.sheets@[app.active_sheet as int].1,
        table::supplied_all(tables, wanted, replies),
        table::all_answered(wanted, replies, bytes, content),
        app.viewport.scroll_row <= row < app.viewport.scroll_row + app.viewport.visible_rows,
        row < content.len(),
    ensures
        tables.last().backend.holds(row),
        tables.last().backend.given(row) == content[row],
{
    table::lemma_prefetched_rows_are_held(
        app.sheets@[app.active_sheet as int].1,
        tables,
        bytes,
        content,
        app.viewport.scroll_row as int,
        app.viewport.page(),
        wanted,
        replies,
    );
}

/// With Ctrl only letters have a meaning, and keys that have no name have none.
pub proof fn lemma_keys_without_name(s: Screen, sizes: Seq<(int, int)>, key: KeyEvent)
    requires
        at_rest(s, sizes),
        key.code == KeyCode::Other || key.modifiers.control && !(key.code is Char),
    ensures
        s.pressed(sizes, key) == s,
{
}

} // verus!
