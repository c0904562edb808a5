//! Screen geometry and the text the screen shows: the layout of the
//! panels, mouse hit-testing on the table, and the labels of the title
//! bar, table header, detail panel, charts and confirmation dialog.
use std::collections::VecDeque;
use ratatui::layout::{Constraint as C, Layout, Rect as R};
use vstd::prelude::*;

use crate::app::{column_choice, column_label, App, AppMode, SortColumn, SortMode};
use crate::port_info::{
    age_text, exposure_label, memory_text, severity_label, format_age, format_memory, PortEntry,
};
use crate::text::{chars_of, decimal, push_decimal};

verus! {

/// A rectangle of terminal cells.
#[derive(Debug, Clone, Copy, PartialEq, Eq, Structural)]
pub struct Rect {
    pub x: u16,
    pub y: u16,
    pub width: u16,
    pub height: u16,
}

impl Rect {
    /// A rectangle at `(x, y)`, its size cut so that it ends within the
    /// `u16` coordinate space.
    pub fn new(x: u16, y: u16, width: u16, height: u16) -> (r: Rect)
        ensures
            r.x == x,
            r.y == y,
            r.width == (if width > u16::MAX - x {
                (u16::MAX - x) as u16
            } else {
                width
            }),
            r.height == (if height > u16::MAX - y {
                (u16::MAX - y) as u16
            } else {
                height
            }),
    {
        let max_width = u16::MAX - x;
        let max_height = u16::MAX - y;
        Rect {
            x,
            y,
            width: if width > max_width {
                max_width
            } else {
                width
            },
            height: if height > max_height {
                max_height
            } else {
                height
            },
        }
    }
}

/// A size rule for one piece of a split.
#[derive(Debug, Clone, Copy, PartialEq, Eq, Structural)]
pub enum Constraint {
    Length(u16),
    Min(u16),
    Percentage(u16),
}

/// `r` lies inside `area` from top to bottom (`y` and `y + height`).
pub open spec fn within_rows(r: Rect, area: Rect) -> bool {
    area.y <= r.y && r.y + r.height <= area.y + area.height
}

/// `r` lies inside `area` from left to right (`x` and `x + width`).
pub open spec fn within_columns(r: Rect, area: Rect) -> bool {
    area.x <= r.x && r.x + r.width <= area.x + area.width
}

/// Whether `rows` is an answer that ratatui's
/// `Layout::vertical(constraints).split(area)` gives. Only a relation: where
/// several layouts are optimal the solver's answer can change from one
/// process to the next, so nothing says which rectangles these are; what
/// it records is which constraints and area they were solved from.
pub uninterp spec fn split_rows_of(constraints: Seq<Constraint>, area: Rect, rows: Seq<Rect>) -> bool;

/// Whether `columns` is an answer that ratatui's
/// `Layout::horizontal(constraints).split(area)` gives (a relation, as for
/// `split_rows_of`).
pub uninterp spec fn split_columns_of(constraints: Seq<Constraint>, area: Rect, columns: Seq<Rect>) -> bool;

/// Splits `area` into rows with ratatui's `Layout::vertical(..).split(..)`.
/// Claimed of it: that the answer came from these constraints and this area
/// (`split_rows_of`), one rectangle per constraint, each spanning the area's
/// full width and lying between its top and bottom edges (the solver keeps
/// every edge inside the area as a required constraint). Which heights the
/// solver picks is not stated: where several layouts are optimal the answer
/// depends on the order in which its hash maps are walked, and the rows
/// following each other without gaps or overlaps is only a preference of
/// the solver, not a required constraint.
#[verifier::external_body]
fn split_vertical(constraints: &Vec<Constraint>, area: Rect) -> (r: Vec<Rect>)
    ensures
        split_rows_of(constraints@, area, r@),
        r@.len() == constraints@.len(),
        forall|i: int|
            0 <= i < r@.len() ==> (#[trigger] r@[i]).x == area.x && r@[i].width == area.width
                && within_rows(r@[i], area),
{
    let cs = constraints.iter().map(|c| match *c {
        Constraint::Length(n) => C::Length(n),
        Constraint::Min(n) => C::Min(n),
        Constraint::Percentage(n) => C::Percentage(n),
    });
    let area = R { x: area.x, y: area.y, width: area.width, height: area.height };
    Layout::vertical(cs).split(area).iter()
        .map(|r| Rect { x: r.x, y: r.y, width: r.width, height: r.height }).collect()
}

/// Splits `area` into columns with ratatui's
/// `Layout::horizontal(..).split(..)`. Claimed of it: one rectangle per
/// constraint, each spanning the area's full height and lying between its
/// left and right edges. Which widths the solver picks, and whether the
/// columns follow each other without gaps or overlaps, is not stated (see
/// `split_vertical`).
#[verifier::external_body]
fn split_horizontal(constraints: &Vec<Constraint>, area: Rect) -> (r: Vec<Rect>)
    ensures
        split_columns_of(constraints@, area, r@),
        r@.len() == constraints@.len(),
        forall|i: int|
            0 <= i < r@.len() ==> (#[trigger] r@[i]).y == area.y && r@[i].height == area.height
                && within_columns(r@[i], area),
{
    let cs = constraints.iter().map(|c| match *c {
        Constraint::Length(n) => C::Length(n),
        Constraint::Min(n) => C::Min(n),
        Constraint::Percentage(n) => C::Percentage(n),
    });
    let area = R { x: area.x, y: area.y, width: area.width, height: area.height };
    Layout::horizontal(cs).split(area).iter()
        .map(|r| Rect { x: r.x, y: r.y, width: r.width, height: r.height }).collect()
}

pub const TITLE_BAR_HEIGHT: u16 = 1;
pub const FILTER_BAR_HEIGHT: u16 = 3;
pub const HELP_BAR_HEIGHT: u16 = 1;
pub const MIN_CONTENT_HEIGHT: u16 = 5;
pub const DETAIL_PANEL_PERCENT: u16 = 30;
pub const TABLE_PANEL_PERCENT: u16 = 70;
pub const CHARTS_ROW_HEIGHT: u16 = 7;
pub const CHART_HALF_PERCENT: u16 = 50;

/// The rectangles the screen's regions occupy.
#[derive(Debug, Clone, Copy, PartialEq, Eq, Structural)]
pub struct AppLayout {
    pub title: Rect,
    pub filter: Rect,
    pub detail: Rect,
    pub table: Rect,
    pub cpu_chart: Rect,
    pub mem_chart: Rect,
    pub help: Rect,
}

/// The screen's layout from the solver's splits: the five rows of the
/// screen (title, filter, content, charts, help), the content row's two
/// columns (detail panel, table) and
/// the charts row's two columns (CPU, memory).
pub open spec fn layout_from(rows: Seq<Rect>, content: Seq<Rect>, charts: Seq<Rect>) -> AppLayout {
    AppLayout {
        title: rows[0],
        filter: rows[1],
        detail: content[0],
        table: content[1],
        cpu_chart: charts[0],
        mem_chart: charts[1],
        help: rows[4],
    }
}

/// Assembles the layout from the rows of the screen and the columns of its
/// content and charts rows.
pub fn assemble_layout(rows: &[Rect], content: &[Rect], charts: &[Rect]) -> (l: AppLayout)
    requires
        rows@.len() == 5,
        content@.len() == 2,
        charts@.len() == 2,
    ensures
        l == layout_from(rows@, content@, charts@),
{
    AppLayout {
        title: rows[0],
        filter: rows[1],
        detail: content[0],
        table: content[1],
        cpu_chart: charts[0],
        mem_chart: charts[1],
        help: rows[4],
    }
}

/// The rows of the screen: title bar, filter bar (3 rows while filtering,
/// none otherwise), content (at least 5 rows), charts (7 rows), help bar.
pub open spec fn screen_rows(mode: AppMode) -> Seq<Constraint> {
    seq![
        Constraint::Length(TITLE_BAR_HEIGHT),
        Constraint::Length(if mode == AppMode::Input { FILTER_BAR_HEIGHT } else { 0 }),
        Constraint::Min(MIN_CONTENT_HEIGHT),
        Constraint::Length(CHARTS_ROW_HEIGHT),
        Constraint::Length(HELP_BAR_HEIGHT),
    ]
}

/// The content row's columns: detail panel 30%, table 70%.
pub open spec fn panel_split() -> Seq<Constraint> {
    seq![Constraint::Percentage(DETAIL_PANEL_PERCENT), Constraint::Percentage(TABLE_PANEL_PERCENT)]
}

/// The charts row's columns: two halves.
pub open spec fn chart_split() -> Seq<Constraint> {
    seq![Constraint::Percentage(CHART_HALF_PERCENT), Constraint::Percentage(CHART_HALF_PERCENT)]
}

/// The constraints the screen's rows are solved from in `mode`.
pub fn row_constraints(mode: AppMode) -> (c: Vec<Constraint>)
    ensures
        c@ == screen_rows(mode),
{
    let filter_height = if mode == AppMode::Input {
        FILTER_BAR_HEIGHT
    } else {
        0
    };
    let mut c: Vec<Constraint> = Vec::new();
    c.push(Constraint::Length(TITLE_BAR_HEIGHT));
    c.push(Constraint::Length(filter_height));
    c.push(Constraint::Min(MIN_CONTENT_HEIGHT));
    c.push(Constraint::Length(CHARTS_ROW_HEIGHT));
    c.push(Constraint::Length(HELP_BAR_HEIGHT));
    assert(c@ =~= screen_rows(mode));
    c
}

/// The constraints the content row's columns are solved from.
pub fn panel_constraints() -> (c: Vec<Constraint>)
    ensures
        c@ == panel_split(),
{
    let mut c: Vec<Constraint> = Vec::new();
    c.push(Constraint::Percentage(DETAIL_PANEL_PERCENT));
    c.push(Constraint::Percentage(TABLE_PANEL_PERCENT));
    assert(c@ =~= panel_split());
    c
}

/// The constraints the charts row's columns are solved from.
pub fn chart_constraints() -> (c: Vec<Constraint>)
    ensures
        c@ == chart_split(),
{
    let mut c: Vec<Constraint> = Vec::new();
    c.push(Constraint::Percentage(CHART_HALF_PERCENT));
    c.push(Constraint::Percentage(CHART_HALF_PERCENT));
    assert(c@ =~= chart_split());
    c
}

/// The rectangles each region occupies for a terminal area and mode: the
/// screen's rows (`screen_rows`) as ratatui's solver splits them, the
/// content row split into detail panel and table (`panel_split`), the
/// charts row split in halves (`chart_split`). Which heights and widths the
/// solver picks is not stated; whatever they are, the full-width regions
/// span the screen, each panel pair lies in its row, and every region lies
/// inside the screen.
pub fn compute_layout(area: Rect, mode: AppMode) -> (l: AppLayout)
    ensures
        exists|rows: Seq<Rect>, content: Seq<Rect>, charts: Seq<Rect>|
            #![trigger layout_from(rows, content, charts)]
            {
                &&& rows.len() == 5 && content.len() == 2 && charts.len() == 2
                &&& split_rows_of(screen_rows(mode), area, rows)
                &&& split_columns_of(panel_split(), rows[2], content)
                &&& split_columns_of(chart_split(), rows[3], charts)
                &&& l == layout_from(rows, content, charts)
                &&& l.detail.y == rows[2].y && l.detail.height == rows[2].height
                &&& l.table.y == rows[2].y && l.table.height == rows[2].height
                &&& l.cpu_chart.y == rows[3].y && l.cpu_chart.height == rows[3].height
                &&& l.mem_chart.y == rows[3].y && l.mem_chart.height == rows[3].height
            },
        l.title.x == area.x && l.title.width == area.width,
        l.filter.x == area.x && l.filter.width == area.width,
        l.help.x == area.x && l.help.width == area.width,
        within_rows(l.title, area) && within_rows(l.filter, area) && within_rows(l.help, area),
        l.detail.y == l.table.y && l.detail.height == l.table.height,
        within_rows(l.table, area),
        within_columns(l.detail, area) && within_columns(l.table, area),
        l.cpu_chart.y == l.mem_chart.y && l.cpu_chart.height == l.mem_chart.height,
        within_rows(l.cpu_chart, area),
        within_columns(l.cpu_chart, area) && within_columns(l.mem_chart, area),
{
    let rows = split_vertical(&row_constraints(mode), area);
    let content = split_horizontal(&panel_constraints(), rows[2]);
    let charts = split_horizontal(&chart_constraints(), rows[3]);
    let l = assemble_layout(rows.as_slice(), content.as_slice(), charts.as_slice());
    assert(l == layout_from(rows@, content@, charts@));
    l
}

// --- Table geometry, shared by rendering and mouse hit-testing ---

pub const TABLE_BORDER_WIDTH: u16 = 1;
pub const HIGHLIGHT_SYMBOL_WIDTH: u16 = 2;
pub const TABLE_COLUMN_SPACING: u16 = 1;
pub const HEADER_ROW_HEIGHT: u16 = 1;
pub const HEADER_BOTTOM_MARGIN: u16 = 1;
/// Number of sortable table columns.
pub const TABLE_COLUMN_COUNT: usize = 7;

/// The `i`-th table column and its width.
pub open spec fn table_column(i: int) -> (SortColumn, u16) {
    if i == 0 {
        (SortColumn::Port, 7)
    } else if i == 1 {
        (SortColumn::Command, 16)
    } else if i == 2 {
        (SortColumn::Pid, 7)
    } else if i == 3 {
        (SortColumn::Cpu, 7)
    } else if i == 4 {
        (SortColumn::Mem, 9)
    } else if i == 5 {
        (SortColumn::Severity, 10)
    } else {
        (SortColumn::Exposure, 8)
    }
}

/// The `i`-th table column (of `TABLE_COLUMN_COUNT`) and its width.
pub fn column_at_index(i: usize) -> (r: (SortColumn, u16))
    requires
        i < TABLE_COLUMN_COUNT,
    ensures
        r == table_column(i as int),
{
    if i == 0 {
        (SortColumn::Port, 7)
    } else if i == 1 {
        (SortColumn::Command, 16)
    } else if i == 2 {
        (SortColumn::Pid, 7)
    } else if i == 3 {
        (SortColumn::Cpu, 7)
    } else if i == 4 {
        (SortColumn::Mem, 9)
    } else if i == 5 {
        (SortColumn::Severity, 10)
    } else {
        (SortColumn::Exposure, 8)
    }
}

/// The first column, from the `i`-th on, whose span of cells (starting at
/// `start`, one spacing cell between columns) contains `x`.
pub open spec fn column_from(i: nat, start: int, x: int) -> Option<SortColumn>
    decreases TABLE_COLUMN_COUNT - i,
{
    if i >= TABLE_COLUMN_COUNT {
        None
    } else {
        let (column, width) = table_column(i as int);
        if start <= x < start + width {
            Some(column)
        } else {
            column_from(i + 1, start + width + TABLE_COLUMN_SPACING, x)
        }
    }
}

/// The header column under a click: the header is the row below the top
/// border, and the first column starts after the border and the highlight
/// symbol.
pub open spec fn header_column(table: Rect, mouse_x: u16, mouse_y: u16) -> Option<SortColumn> {
    if mouse_y != table.y + TABLE_BORDER_WIDTH {
        None
    } else {
        column_from(0, table.x + TABLE_BORDER_WIDTH + HIGHLIGHT_SYMBOL_WIDTH, mouse_x as int)
    }
}

/// Maps a click to the sort column whose header was clicked, or none when
/// the click missed the header row or the columns. Column edges are
/// computed in 32 bits, so a table near the right end of the coordinate
/// space needs no bound.
pub fn column_at(table_area: Rect, mouse_x: u16, mouse_y: u16) -> (r: Option<SortColumn>)
    requires
        table_area.y < u16::MAX,
    ensures
        r == header_column(table_area, mouse_x, mouse_y),
{
    let header_row_y = table_area.y + TABLE_BORDER_WIDTH;
    if mouse_y != header_row_y {
        return None;
    }
    let mut x: u32 = table_area.x as u32 + TABLE_BORDER_WIDTH as u32 + HIGHLIGHT_SYMBOL_WIDTH as u32;
    let mut i: usize = 0;
    while i < TABLE_COLUMN_COUNT
        invariant
            i <= TABLE_COLUMN_COUNT,
            x <= 65538 + 20 * i,
            header_column(table_area, mouse_x, mouse_y) == column_from(i as nat, x as int, mouse_x as int),
        decreases TABLE_COLUMN_COUNT - i,
    {
        let (column, width) = column_at_index(i);
        if (mouse_x as u32) >= x && (mouse_x as u32) < x + width as u32 {
            return Some(column);
        }
        x = x + width as u32 + TABLE_COLUMN_SPACING as u32;
        i += 1;
    }
    None
}

/// The visible body row under a click: rows start below the top border,
/// the header and its margin, and end before the bottom border.
pub open spec fn body_row(table: Rect, mouse_y: u16) -> Option<usize> {
    let first = table.y + TABLE_BORDER_WIDTH + HEADER_ROW_HEIGHT + HEADER_BOTTOM_MARGIN;
    let bottom = table.y + (if table.height >= TABLE_BORDER_WIDTH {
        table.height - TABLE_BORDER_WIDTH
    } else {
        0
    });
    if mouse_y < first || mouse_y >= bottom {
        None
    } else {
        Some((mouse_y - first) as usize)
    }
}

/// Maps a click inside the table body to the 0-based visible row offset,
/// or none when it landed on a border, the header or its margin.
pub fn row_at(table_area: Rect, mouse_y: u16) -> (r: Option<usize>)
    requires
        table_area.y + 3 <= u16::MAX,
        table_area.y + table_area.height <= u16::MAX + 1,
    ensures
        r == body_row(table_area, mouse_y),
{
    let first_data_row_y = table_area.y + TABLE_BORDER_WIDTH + HEADER_ROW_HEIGHT + HEADER_BOTTOM_MARGIN;
    let bottom_border_y = table_area.y + if table_area.height >= TABLE_BORDER_WIDTH {
        table_area.height - TABLE_BORDER_WIDTH
    } else {
        0
    };
    if mouse_y < first_data_row_y || mouse_y >= bottom_border_y {
        return None;
    }
    Some((mouse_y - first_data_row_y) as usize)
}

impl App {
    /// A left click at `(x, y)` with the table at `table`: on a header
    /// cell it sorts by that column (as `set_sort_column`), on a body row
    /// it selects that visible row (as `select_visible_row`), elsewhere it
    /// does nothing.
    pub fn handle_click(&mut self, table: Rect, x: u16, y: u16)
        requires
            old(self).wf(),
            table.y + 3 <= u16::MAX,
            table.y + table.height <= u16::MAX + 1,
            old(self).table_offset <= usize::MAX - 65536,
        ensures
            final(self).wf(),
            header_column(table, x, y) matches Some(c) ==> (final(self).sort_mode,
                final(self).sort_ascending) == column_choice(
                old(self).sort_mode,
                old(self).sort_ascending,
                c,
            ) && App::refiltered(*old(self), *final(self)) && *final(self) == (App {
                filtered_indices: final(self).filtered_indices,
                selected_index: final(self).selected_index,
                sort_mode: final(self).sort_mode,
                sort_ascending: final(self).sort_ascending,
                ..*old(self)
            }),
            header_column(table, x, y) is None ==> match body_row(table, y) {
                Some(r) => *final(self) == (App {
                    selected_index: if old(self).table_offset + r
                        < old(self).filtered_indices@.len() {
                        (old(self).table_offset + r) as usize
                    } else {
                        old(self).selected_index
                    },
                    ..*old(self)
                }),
                None => *final(self) == *old(self),
            },
    {
        match column_at(table, x, y) {
            Some(column) => self.set_sort_column(column),
            None => match row_at(table, y) {
                Some(row) => self.select_visible_row(row),
                None => {},
            },
        }
    }
}

pub const CONFIRM_MODAL_WIDTH: u16 = 60;
pub const CONFIRM_MODAL_HEIGHT: u16 = 7;

/// The confirmation dialog: 60 cells wide (less on a narrow screen, leaving
/// 4), 7 rows high, centred on the screen.
pub open spec fn modal_area(area: Rect) -> Rect {
    let avail: int = if area.width >= 4 { area.width - 4 } else { 0 };
    let w: int = if CONFIRM_MODAL_WIDTH < avail { CONFIRM_MODAL_WIDTH as int } else { avail };
    Rect {
        x: ((if area.width >= w { area.width - w } else { 0 }) / 2) as u16,
        y: ((if area.height >= CONFIRM_MODAL_HEIGHT { area.height - CONFIRM_MODAL_HEIGHT } else { 0 }) / 2) as u16,
        width: w as u16,
        height: CONFIRM_MODAL_HEIGHT,
    }
}

/// Where the confirmation dialog goes on a screen of size `area`.
pub fn confirm_modal_area(area: Rect) -> (r: Rect)
    ensures
        r == modal_area(area),
{
    let avail = area.width.saturating_sub(4);
    let modal_width = if CONFIRM_MODAL_WIDTH < avail {
        CONFIRM_MODAL_WIDTH
    } else {
        avail
    };
    Rect {
        x: area.width.saturating_sub(modal_width) / 2,
        y: area.height.saturating_sub(CONFIRM_MODAL_HEIGHT) / 2,
        width: modal_width,
        height: CONFIRM_MODAL_HEIGHT,
    }
}

/// The title and question of the confirmation dialog.
pub struct ConfirmText {
    pub title: &'static str,
    pub message: String,
}

pub open spec fn confirm_message(e: PortEntry, force: bool) -> Seq<char> {
    (if force {
        "FORCE KILL (SIGKILL)"@
    } else {
        "Kill"@
    }) + " \""@ + e.command@ + "\" (PID "@ + decimal(e.pid as nat) + ") on port "@ + decimal(
        e.port as nat,
    ) + "?"@
}

/// The dialog asking to confirm a kill of `entry`, normal or forced.
pub fn confirm_text(entry: &PortEntry, force: bool) -> (t: ConfirmText)
    ensures
        t.title@ == (if force {
            " Confirm FORCE KILL "@
        } else {
            " Confirm Kill "@
        }),
        t.message@ == confirm_message(*entry, force),
{
    let mut message = String::new();
    message.append(if force { "FORCE KILL (SIGKILL)" } else { "Kill" });
    message.append(" \"");
    message.append(entry.command.as_str());
    message.append("\" (PID ");
    push_decimal(&mut message, entry.pid as u64);
    message.append(") on port ");
    push_decimal(&mut message, entry.port as u64);
    message.append("?");
    ConfirmText {
        title: if force { " Confirm FORCE KILL " } else { " Confirm Kill " },
        message,
    }
}

/// A column's header: its label, with an up or down triangle when the list
/// is sorted by it ascending or descending.
pub open spec fn header_text(column: SortColumn, mode: SortMode, ascending: bool) -> Seq<char> {
    column_label(column) + if mode == SortMode::Column(column) {
        if ascending {
            " \u{25b2}"@
        } else {
            " \u{25bc}"@
        }
    } else {
        Seq::empty()
    }
}

pub fn header_label(column: SortColumn, mode: SortMode, ascending: bool) -> (s: String)
    ensures
        s@ == header_text(column, mode, ascending),
{
    let mut s = String::from_str(column.label());
    if mode == SortMode::Column(column) {
        s.append(if ascending { " \u{25b2}" } else { " \u{25bc}" });
    }
    s
}

/// The help line for a mode.
pub fn help_text(mode: AppMode) -> (s: &'static str)
    ensures
        s@ == match mode {
            AppMode::Normal => " q: Quit \u{2502} \u{2191}\u{2193}/jk: Navigate \u{2502} Enter: Kill \u{2502} K: Force Kill \u{2502} /: Filter \u{2502} r: Refresh \u{2502} s: Sort \u{2502} click header: Sort"@,
            AppMode::Input => " Esc: Cancel \u{2502} Enter: Apply \u{2502} Type to filter by port or command"@,
            AppMode::Confirm => " y/Enter: Confirm \u{2502} n/Esc: Cancel"@,
        },
{
    match mode {
        AppMode::Normal => " q: Quit \u{2502} \u{2191}\u{2193}/jk: Navigate \u{2502} Enter: Kill \u{2502} K: Force Kill \u{2502} /: Filter \u{2502} r: Refresh \u{2502} s: Sort \u{2502} click header: Sort",
        AppMode::Input => " Esc: Cancel \u{2502} Enter: Apply \u{2502} Type to filter by port or command",
        AppMode::Confirm => " y/Enter: Confirm \u{2502} n/Esc: Cancel",
    }
}

/// The title bar's pieces: the status message (as shown, after two
/// spaces), the port count on the right, and the spaces between them.
pub struct TitleText {
    pub status: Option<String>,
    pub count: String,
    pub padding: usize,
}

/// Bytes the UTF-8 encoding of a character takes.
pub open spec fn utf8_width(c: char) -> nat {
    let n = c as u32;
    if n < 0x80 {
        1
    } else if n < 0x800 {
        2
    } else if n < 0x10000 {
        3
    } else {
        4
    }
}

/// Bytes the UTF-8 encoding of a text takes (what `str::len` gives).
pub open spec fn utf8_len(s: Seq<char>) -> nat
    decreases s.len(),
{
    if s.len() == 0 {
        0
    } else {
        utf8_len(s.drop_last()) + utf8_width(s.last())
    }
}

fn utf8_len_of(s: &str) -> (n: u128)
    ensures
        n == utf8_len(s@),
        n <= 4 * (usize::MAX as int),
{
    let v = chars_of(s);
    let mut n: u128 = 0;
    let mut i: usize = 0;
    while i < v.len()
        invariant
            i <= v@.len(),
            n == utf8_len(v@.take(i as int)),
            n <= 4 * i,
        decreases v@.len() - i,
    {
        assert(v@.take(i + 1).drop_last() =~= v@.take(i as int));
        let c = v[i] as u32;
        n = n + if c < 0x80 {
            1
        } else if c < 0x800 {
            2
        } else if c < 0x10000 {
            3
        } else {
            4
        };
        i += 1;
    }
    assert(v@.take(i as int) =~= s@);
    n
}

pub const TITLE_TEXT: &'static str = " Port Killer ";

/// The port count: shown/total while filtering, else the total, and a hint
/// to run with sudo when not running as root.
pub open spec fn count_text(shown: nat, total: nat, filtering: bool, elevated: bool) -> Seq<char> {
    (if filtering {
        "  "@ + decimal(shown) + "/"@ + decimal(total) + " ports (filtered)"@
    } else {
        "  "@ + decimal(total) + " ports"@
    }) + if elevated {
        Seq::empty()
    } else {
        " \u{b7} run with sudo to see all"@
    }
}

/// The title bar of `app` on a screen `width` cells wide. The spacer fills
/// what the title, status and count leave, counted in UTF-8 bytes.
pub fn title_text(app: &App, width: u16) -> (t: TitleText)
    ensures
        match app.status_message {
            Some(m) => t.status matches Some(s) && s@ == "  "@ + m@,
            None => t.status is None,
        },
        t.count@ == count_text(
            app.filtered_indices@.len(),
            app.entries@.len(),
            app.input_buffer@.len() > 0,
            app.elevated,
        ),
        t.padding == ({
            let used = utf8_len(TITLE_TEXT@) + match t.status {
                Some(s) => utf8_len(s@),
                None => 0,
            } + utf8_len(t.count@);
            if width >= used {
                width - used
            } else {
                0
            }
        }),
{
    let status = match &app.status_message {
        Some(m) => {
            let mut s = String::from_str("  ");
            s.append(m.as_str());
            Some(s)
        },
        None => None,
    };
    let mut count = String::new();
    if !app.input_buffer.as_str().is_empty() {
        count.append("  ");
        push_decimal(&mut count, app.filtered_indices.len() as u64);
        count.append("/");
        push_decimal(&mut count, app.entries.len() as u64);
        count.append(" ports (filtered)");
    } else {
        count.append("  ");
        push_decimal(&mut count, app.entries.len() as u64);
        count.append(" ports");
    }
    if !app.elevated {
        count.append(" \u{b7} run with sudo to see all");
    }
    let status_len: u128 = match &status {
        Some(s) => utf8_len_of(s.as_str()),
        None => 0,
    };
    let used: u128 = utf8_len_of(TITLE_TEXT) + status_len + utf8_len_of(count.as_str());
    let padding = if (width as u128) >= used {
        (width as u128 - used) as usize
    } else {
        0
    };
    TitleText { status, count, padding }
}

/// A chart's title: its label and the latest sample (0 without samples).
pub fn chart_title(label: &str, history: &VecDeque<u64>) -> (s: String)
    ensures
        s@ == " "@ + label@ + " "@ + decimal(
            if history@.len() > 0 {
                history@.last() as nat
            } else {
                0
            },
        ) + "% "@,
{
    let n = history.len();
    let current = if n > 0 {
        history[n - 1]
    } else {
        0
    };
    let mut s = String::from_str(" ");
    s.append(label);
    s.append(" ");
    push_decimal(&mut s, current);
    s.append("% ");
    s
}

/// The values the detail panel shows for an entry (all but the CPU
/// figure, which the caller formats from its float).
pub struct DetailText {
    pub port: String,
    pub command: String,
    pub pid: String,
    pub severity: &'static str,
    pub description: String,
    pub memory: String,
    pub bind: String,
    pub exposure: &'static str,
    pub age: String,
    pub parent: String,
    pub cwd: String,
    pub cmdline: String,
}

/// The detail panel's values for `entry`: numbers in decimal, memory and
/// age in their short forms, the parent as `name (pid)` and a missing
/// parent or working directory as `-`.
pub fn detail_text(entry: &PortEntry) -> (d: DetailText)
    ensures
        d.port@ == decimal(entry.port as nat),
        d.command@ == entry.command@,
        d.pid@ == decimal(entry.pid as nat),
        d.severity@ == severity_label(entry.severity),
        d.description@ == entry.description@,
        d.memory@ == memory_text(entry.memory_bytes as nat),
        d.bind@ == entry.bind_addr@,
        d.exposure@ == exposure_label(entry.exposure),
        d.age@ == age_text(entry.age_seconds as nat),
        d.parent@ == match entry.parent {
            Some((pid, name)) => name@ + " ("@ + decimal(pid as nat) + ")"@,
            None => "-"@,
        },
        d.cwd@ == match entry.cwd {
            Some(c) => c@,
            None => "-"@,
        },
        d.cmdline@ == entry.cmdline@,
{
    let mut port = String::new();
    push_decimal(&mut port, entry.port as u64);
    let mut pid = String::new();
    push_decimal(&mut pid, entry.pid as u64);
    let parent = match &entry.parent {
        Some((ppid, name)) => {
            let mut p = name.clone();
            p.append(" (");
            push_decimal(&mut p, *ppid as u64);
            p.append(")");
            p
        },
        None => String::from_str("-"),
    };
    let cwd = match &entry.cwd {
        Some(c) => c.clone(),
        None => String::from_str("-"),
    };
    DetailText {
        port,
        command: entry.command.clone(),
        pid,
        severity: entry.severity.label(),
        description: entry.description.clone(),
        memory: format_memory(entry.memory_bytes),
        bind: entry.bind_addr.clone(),
        exposure: entry.exposure.label(),
        age: format_age(entry.age_seconds),
        parent,
        cwd,
        cmdline: entry.cmdline.clone(),
    }
}

} // verus!
