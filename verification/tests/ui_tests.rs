use port_killer::app::{App, AppMode, SortColumn, SortMode};
use port_killer::port_info::{Exposure, PortEntry, Severity};
use port_killer::ui::{
    assemble_layout, chart_constraints, panel_constraints, row_constraints, Constraint, column_at, column_at_index, compute_layout, confirm_modal_area, confirm_text, detail_text,
    header_label, row_at, title_text, Rect, FILTER_BAR_HEIGHT, HIGHLIGHT_SYMBOL_WIDTH,
    TABLE_BORDER_WIDTH, TABLE_COLUMN_SPACING,
};

#[test]
fn compute_layout_hides_filter_bar_outside_input_mode() {
    let area = Rect::new(0, 0, 100, 40);
    let layout = compute_layout(area, AppMode::Normal);
    assert_eq!(layout.filter.height, 0);

    let layout = compute_layout(area, AppMode::Input);
    assert_eq!(layout.filter.height, FILTER_BAR_HEIGHT);
}

#[test]
fn compute_layout_splits_detail_and_table_panels() {
    let area = Rect::new(0, 0, 100, 40);
    let layout = compute_layout(area, AppMode::Normal);
    assert!(layout.detail.width < layout.table.width);
    assert_eq!(layout.detail.x, 0);
    assert_eq!(layout.table.x, layout.detail.width);
}

#[test]
fn column_at_maps_header_clicks_to_columns() {
    let table_area = Rect::new(10, 5, 90, 20);
    let header_y = table_area.y + TABLE_BORDER_WIDTH;
    let port_x = table_area.x + TABLE_BORDER_WIDTH + HIGHLIGHT_SYMBOL_WIDTH;

    assert_eq!(
        column_at(table_area, port_x, header_y),
        Some(SortColumn::Port)
    );
    assert_eq!(column_at(table_area, port_x, header_y + 1), None);
}

#[test]
fn column_at_maps_second_column() {
    let table_area = Rect::new(0, 0, 90, 20);
    let header_y = table_area.y + TABLE_BORDER_WIDTH;
    let command_x = table_area.x
        + TABLE_BORDER_WIDTH
        + HIGHLIGHT_SYMBOL_WIDTH
        + column_at_index(0).1
        + TABLE_COLUMN_SPACING;

    assert_eq!(
        column_at(table_area, command_x, header_y),
        Some(SortColumn::Command)
    );
}

#[test]
fn row_at_maps_body_clicks_to_visible_offsets() {
    let table_area = Rect::new(10, 5, 90, 20);
    // Border (+1), header row (+1), header bottom margin (+1) → first data
    // row is 3 below the top of the table area.
    let first_data_row_y = table_area.y + 3;

    // Header row and its margin are not body rows.
    assert_eq!(row_at(table_area, table_area.y), None); // top border
    assert_eq!(row_at(table_area, table_area.y + 1), None); // header
    assert_eq!(row_at(table_area, table_area.y + 2), None); // header margin

    assert_eq!(row_at(table_area, first_data_row_y), Some(0));
    assert_eq!(row_at(table_area, first_data_row_y + 4), Some(4));

    // Bottom border and anything past it are ignored.
    let bottom_border_y = table_area.y + table_area.height - 1;
    assert_eq!(row_at(table_area, bottom_border_y), None);
}

// --- further cases ---

#[test]
fn rect_new_clamps_to_coordinate_space() {
    let r = Rect::new(65530, 10, 100, 65535);
    assert_eq!(r.width, 5);
    assert_eq!(r.height, 65525);
}

#[test]
fn column_at_gaps_and_last_column() {
    let table_area = Rect::new(0, 0, 90, 20);
    // The spacing cell after Port (x = 3 + 7) belongs to no column.
    assert_eq!(column_at(table_area, 10, 1), None);
    assert_eq!(column_at(table_area, 2, 1), None);
    // Exposure spans 65..73 (3 + 62 .. 3 + 70).
    assert_eq!(column_at(table_area, 65, 1), Some(SortColumn::Exposure));
    assert_eq!(column_at(table_area, 72, 1), Some(SortColumn::Exposure));
    assert_eq!(column_at(table_area, 73, 1), None);
}

#[test]
fn click_sorts_by_header_and_selects_rows() {
    let mut app = App::new(true, 0);
    let mut e1 = PortEntry::new(30, 1, "a".to_string(), "*".to_string(), &Default::default());
    e1.known = false;
    let e2 = PortEntry::new(10, 2, "b".to_string(), "*".to_string(), &Default::default());
    app.refresh_ports(vec![e1, e2], 0, 0, 0);
    let table = Rect::new(0, 0, 90, 20);
    app.handle_click(table, 4, 1);
    assert_eq!(app.sort_mode, SortMode::Column(SortColumn::Port));
    app.handle_click(table, 4, 4);
    assert_eq!(app.selected_index, 1);
    app.handle_click(table, 4, 19);
    assert_eq!(app.selected_index, 1);
}

#[test]
fn confirm_dialog_text_and_area() {
    let e = PortEntry::new(3000, 42, "node".to_string(), "*".to_string(), &Default::default());
    let t = confirm_text(&e, false);
    assert_eq!(t.title, " Confirm Kill ");
    assert_eq!(t.message, "Kill \"node\" (PID 42) on port 3000?");
    let t = confirm_text(&e, true);
    assert_eq!(t.title, " Confirm FORCE KILL ");
    assert_eq!(t.message, "FORCE KILL (SIGKILL) \"node\" (PID 42) on port 3000?");
    let area = confirm_modal_area(Rect::new(0, 0, 100, 40));
    assert_eq!(area, Rect::new(20, 16, 60, 7));
    let narrow = confirm_modal_area(Rect::new(0, 0, 30, 5));
    assert_eq!(narrow, Rect::new(2, 0, 26, 7));
}

#[test]
fn header_labels_mark_the_sorted_column() {
    assert_eq!(header_label(SortColumn::Pid, SortMode::KnownFirst, true), "PID");
    assert_eq!(
        header_label(SortColumn::Pid, SortMode::Column(SortColumn::Pid), true),
        "PID \u{25b2}"
    );
    assert_eq!(
        header_label(SortColumn::Cpu, SortMode::Column(SortColumn::Cpu), false),
        "CPU% \u{25bc}"
    );
}

#[test]
fn title_bar_counts_and_pads() {
    let mut app = App::new(false, 0);
    let e = PortEntry::new(22, 1, "sshd".to_string(), "*".to_string(), &Default::default());
    app.refresh_ports(vec![e], 0, 0, 0);
    let t = title_text(&app, 80);
    assert_eq!(t.count, "  1 ports \u{b7} run with sudo to see all");
    assert!(t.status.is_none());
    assert_eq!(t.padding, 80 - 13 - t.count.len());
    app.elevated = true;
    app.input_buffer = "2".to_string();
    app.status_message = Some("hi".to_string());
    let t = title_text(&app, 10);
    assert_eq!(t.count, "  1/1 ports (filtered)");
    assert_eq!(t.status.as_deref(), Some("  hi"));
    assert_eq!(t.padding, 0);
}

#[test]
fn detail_text_formats_fields() {
    let mut e = PortEntry::new(5432, 7, "pg".to_string(), "::1".to_string(), &Default::default());
    e.memory_bytes = 2048;
    e.age_seconds = 90;
    e.parent = Some((1, "init".to_string()));
    let d = detail_text(&e);
    assert_eq!(d.port, "5432");
    assert_eq!(d.pid, "7");
    assert_eq!(d.severity, "HIGH");
    assert_eq!(d.memory, "2 KB");
    assert_eq!(d.exposure, "local");
    assert_eq!(d.age, "1m");
    assert_eq!(d.parent, "init (1)");
    assert_eq!(d.cwd, "-");
    let _ = (Severity::Low, Exposure::Specific);
}

#[test]
fn assemble_layout_places_rows_and_columns() {
    let rows = [
        Rect::new(0, 0, 80, 1),
        Rect::new(0, 1, 80, 0),
        Rect::new(0, 1, 80, 15),
        Rect::new(0, 16, 80, 7),
        Rect::new(0, 23, 80, 1),
    ];
    let content = [Rect::new(0, 1, 24, 15), Rect::new(24, 1, 56, 15)];
    let charts = [Rect::new(0, 16, 40, 7), Rect::new(40, 16, 40, 7)];
    let layout = assemble_layout(&rows, &content, &charts);
    assert_eq!(layout.title, rows[0]);
    assert_eq!(layout.filter, rows[1]);
    assert_eq!(layout.help, rows[4]);
    assert_eq!(layout.detail, content[0]);
    assert_eq!(layout.table, content[1]);
    assert_eq!(layout.cpu_chart, charts[0]);
    assert_eq!(layout.mem_chart, charts[1]);
}

#[test]
fn compute_layout_keeps_regions_inside_the_screen() {
    let area = Rect::new(3, 2, 100, 10);
    for mode in [AppMode::Normal, AppMode::Input, AppMode::Confirm] {
        let l = compute_layout(area, mode);
        for r in [l.title, l.filter, l.detail, l.table, l.cpu_chart, l.mem_chart, l.help] {
            assert!(r.x >= area.x && r.x + r.width <= area.x + area.width);
            assert!(r.y >= area.y && r.y + r.height <= area.y + area.height);
        }
        assert_eq!(l.title.width, area.width);
        assert_eq!(l.detail.y, l.table.y);
    }
}

#[test]
fn column_at_near_the_right_edge_of_the_coordinate_space() {
    let table_area = Rect::new(65500, 0, 35, 20);
    let header_y = table_area.y + TABLE_BORDER_WIDTH;
    let port_x = table_area.x + TABLE_BORDER_WIDTH + HIGHLIGHT_SYMBOL_WIDTH;
    assert_eq!(column_at(table_area, port_x, header_y), Some(SortColumn::Port));
    assert_eq!(column_at(table_area, 65515, header_y), Some(SortColumn::Command));
    assert_eq!(column_at(table_area, u16::MAX, header_y), None);
}

#[test]
fn layout_constraints_follow_the_mode() {
    assert_eq!(
        row_constraints(AppMode::Input),
        vec![
            Constraint::Length(1),
            Constraint::Length(3),
            Constraint::Min(5),
            Constraint::Length(7),
            Constraint::Length(1),
        ]
    );
    assert_eq!(row_constraints(AppMode::Normal)[1], Constraint::Length(0));
    assert_eq!(row_constraints(AppMode::Confirm)[1], Constraint::Length(0));
    assert_eq!(panel_constraints(), vec![Constraint::Percentage(30), Constraint::Percentage(70)]);
    assert_eq!(chart_constraints(), vec![Constraint::Percentage(50), Constraint::Percentage(50)]);
}
