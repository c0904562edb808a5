use std::collections::VecDeque;

use port_killer::app::{
    push_bounded, sort_indices, App, AppMode, Key, KeyAction, SortColumn, SortMode,
    METRICS_HISTORY_LEN,
};
use port_killer::port_info::{Exposure, PortEntry, Severity};
use port_killer::system::{KillResult, KillSignal};

fn entry(
    port: u16,
    pid: u32,
    command: &str,
    cpu: f32,
    memory: u64,
    severity: Severity,
) -> PortEntry {
    PortEntry {
        port,
        pid,
        command: command.to_string(),
        severity,
        description: String::new(),
        known: false,
        cpu_percent_bits: cpu.to_bits(),
        memory_bytes: memory,
        bind_addr: String::new(),
        exposure: Exposure::Specific,
        cmdline: String::new(),
        cwd: None,
        age_seconds: 0,
        parent: None,
    }
}

#[test]
fn sort_indices_by_port_ascending_and_descending() {
    let entries = vec![
        entry(8080, 1, "b", 0.0, 0, Severity::Low),
        entry(80, 2, "a", 0.0, 0, Severity::Critical),
        entry(3000, 3, "c", 0.0, 0, Severity::Medium),
    ];
    let mut indices: Vec<usize> = (0..entries.len()).collect();

    sort_indices(&entries, &mut indices, SortMode::Column(SortColumn::Port), true);
    assert_eq!(indices, vec![1, 2, 0]);

    sort_indices(&entries, &mut indices, SortMode::Column(SortColumn::Port), false);
    assert_eq!(indices, vec![0, 2, 1]);
}

#[test]
fn sort_indices_by_command_is_case_insensitive() {
    let entries = vec![
        entry(1, 1, "Zebra", 0.0, 0, Severity::Low),
        entry(2, 2, "apple", 0.0, 0, Severity::Low),
    ];
    let mut indices: Vec<usize> = (0..entries.len()).collect();

    sort_indices(&entries, &mut indices, SortMode::Column(SortColumn::Command), true);
    assert_eq!(indices, vec![1, 0]);
}

#[test]
fn sort_indices_by_cpu_and_memory() {
    let entries = vec![
        entry(1, 1, "a", 5.0, 200, Severity::Low),
        entry(2, 2, "b", 50.0, 100, Severity::Low),
    ];
    let mut indices: Vec<usize> = (0..entries.len()).collect();

    sort_indices(&entries, &mut indices, SortMode::Column(SortColumn::Cpu), true);
    assert_eq!(indices, vec![0, 1]);

    sort_indices(&entries, &mut indices, SortMode::Column(SortColumn::Mem), true);
    assert_eq!(indices, vec![1, 0]);
}

#[test]
fn known_first_sorts_known_ahead_of_unknown_then_by_port() {
    let mut unknown_low_port = entry(80, 1, "a", 0.0, 0, Severity::Low);
    unknown_low_port.known = false;
    let mut known_high_port = entry(9999, 2, "b", 0.0, 0, Severity::Low);
    known_high_port.known = true;
    let mut known_mid_port = entry(3000, 3, "c", 0.0, 0, Severity::Low);
    known_mid_port.known = true;

    let entries = vec![unknown_low_port, known_high_port, known_mid_port];
    let mut indices: Vec<usize> = (0..entries.len()).collect();

    sort_indices(&entries, &mut indices, SortMode::KnownFirst, true);
    // known ports (3000, 9999) first ordered by port, then unknown (80).
    assert_eq!(indices, vec![2, 1, 0]);
}

#[test]
fn push_bounded_never_exceeds_cap() {
    let mut buffer = VecDeque::new();
    for value in 0..(METRICS_HISTORY_LEN as u64 + 50) {
        push_bounded(&mut buffer, value);
    }
    assert_eq!(buffer.len(), METRICS_HISTORY_LEN);
    // Oldest samples evicted: front is the (len+50 - cap)th value pushed.
    assert_eq!(*buffer.front().unwrap(), 50);
    assert_eq!(*buffer.back().unwrap(), METRICS_HISTORY_LEN as u64 + 49);
}

#[test]
fn sort_indices_by_exposure() {
    let mut entries = vec![
        entry(1, 1, "a", 0.0, 0, Severity::Low),
        entry(2, 2, "b", 0.0, 0, Severity::Low),
        entry(3, 3, "c", 0.0, 0, Severity::Low),
    ];
    entries[0].exposure = Exposure::AllInterfaces;
    entries[1].exposure = Exposure::Loopback;
    entries[2].exposure = Exposure::Specific;
    let mut indices: Vec<usize> = (0..entries.len()).collect();

    sort_indices(&entries, &mut indices, SortMode::Column(SortColumn::Exposure), true);
    // Loopback < Specific < AllInterfaces
    assert_eq!(indices, vec![1, 2, 0]);
}

#[test]
fn sort_column_cycles_through_all_variants() {
    let mut column = SortColumn::Port;
    for _ in 0..port_killer::app::SORT_COLUMN_COUNT {
        column = column.next();
    }
    assert_eq!(column, SortColumn::Port);
}

// --- further cases ---

fn app_with(entries: Vec<PortEntry>) -> App {
    let mut app = App::new(true, 0);
    app.refresh_ports(entries, 10, 20, 0);
    app
}

#[test]
fn sort_is_stable_for_equal_keys_in_both_directions() {
    let entries = vec![
        entry(80, 1, "a", 0.0, 0, Severity::Low),
        entry(80, 2, "b", 0.0, 0, Severity::Low),
        entry(22, 3, "c", 0.0, 0, Severity::Low),
        entry(80, 4, "d", 0.0, 0, Severity::Low),
    ];
    let mut indices: Vec<usize> = vec![0, 1, 2, 3];
    sort_indices(&entries, &mut indices, SortMode::Column(SortColumn::Port), true);
    assert_eq!(indices, vec![2, 0, 1, 3]);
    let mut indices: Vec<usize> = vec![0, 1, 2, 3];
    sort_indices(&entries, &mut indices, SortMode::Column(SortColumn::Port), false);
    assert_eq!(indices, vec![0, 1, 3, 2]);
}

#[test]
fn known_first_ignores_descending() {
    let mut a = entry(80, 1, "a", 0.0, 0, Severity::Low);
    a.known = true;
    let b = entry(22, 2, "b", 0.0, 0, Severity::Low);
    let entries = vec![b, a];
    let mut indices = vec![0, 1];
    sort_indices(&entries, &mut indices, SortMode::KnownFirst, false);
    assert_eq!(indices, vec![1, 0]);
}

#[test]
fn sort_by_cpu_orders_negative_and_nan_like_total_cmp() {
    let entries = vec![
        entry(1, 1, "a", f32::NAN, 0, Severity::Low),
        entry(2, 2, "b", -1.0, 0, Severity::Low),
        entry(3, 3, "c", 0.0, 0, Severity::Low),
        entry(4, 4, "d", -0.0, 0, Severity::Low),
    ];
    let mut indices = vec![0, 1, 2, 3];
    sort_indices(&entries, &mut indices, SortMode::Column(SortColumn::Cpu), true);
    assert_eq!(indices, vec![1, 3, 2, 0]);
}

#[test]
fn sort_by_pid_and_severity() {
    let entries = vec![
        entry(1, 30, "a", 0.0, 0, Severity::High),
        entry(2, 10, "b", 0.0, 0, Severity::Low),
        entry(3, 20, "c", 0.0, 0, Severity::Critical),
    ];
    let mut indices = vec![0, 1, 2];
    sort_indices(&entries, &mut indices, SortMode::Column(SortColumn::Pid), true);
    assert_eq!(indices, vec![1, 2, 0]);
    sort_indices(&entries, &mut indices, SortMode::Column(SortColumn::Severity), false);
    assert_eq!(indices, vec![2, 0, 1]);
}

#[test]
fn filter_matches_port_digits_command_and_description() {
    let mut e1 = entry(8080, 1, "Node", 0.0, 0, Severity::Low);
    e1.description = "HTTP Alt".to_string();
    let e2 = entry(22, 2, "sshd", 0.0, 0, Severity::Critical);
    let mut app = app_with(vec![e1, e2]);
    assert_eq!(app.filtered_indices, vec![1, 0]);
    app.input_buffer = "80".to_string();
    app.apply_filter();
    assert_eq!(app.filtered_indices, vec![0]);
    app.input_buffer = "NODE".to_string();
    app.apply_filter();
    assert_eq!(app.filtered_indices, vec![0]);
    app.input_buffer = "alt".to_string();
    app.apply_filter();
    assert_eq!(app.filtered_indices, vec![0]);
    app.input_buffer = "zzz".to_string();
    app.selected_index = 0;
    app.apply_filter();
    assert!(app.filtered_indices.is_empty());
    assert_eq!(app.selected_index, 0);
}

#[test]
fn selection_wraps_and_up_then_down_restores_it() {
    let mut app = app_with(vec![
        entry(1, 1, "a", 0.0, 0, Severity::Low),
        entry(2, 2, "b", 0.0, 0, Severity::Low),
        entry(3, 3, "c", 0.0, 0, Severity::Low),
    ]);
    assert_eq!(app.selected_index, 0);
    app.move_selection_up();
    assert_eq!(app.selected_index, 2);
    app.move_selection_down();
    assert_eq!(app.selected_index, 0);
    app.move_selection_down();
    app.move_selection_down();
    app.move_selection_down();
    assert_eq!(app.selected_index, 0);
}

#[test]
fn set_sort_column_twice_flips_direction() {
    let mut app = app_with(vec![
        entry(30, 1, "a", 0.0, 0, Severity::Low),
        entry(10, 2, "b", 0.0, 0, Severity::Low),
    ]);
    app.set_sort_column(SortColumn::Port);
    assert_eq!(app.sort_mode, SortMode::Column(SortColumn::Port));
    assert!(app.sort_ascending);
    assert_eq!(app.filtered_indices, vec![1, 0]);
    app.set_sort_column(SortColumn::Port);
    assert!(!app.sort_ascending);
    assert_eq!(app.filtered_indices, vec![0, 1]);
    app.cycle_sort_column();
    assert_eq!(app.sort_mode, SortMode::Column(SortColumn::Command));
    assert!(app.sort_ascending);
}

#[test]
fn kill_flow_confirms_cancels_and_reports() {
    let mut app = app_with(vec![entry(3000, 42, "node", 0.0, 0, Severity::Medium)]);
    assert!(matches!(app.handle_key(Key::Char('K'), false), KeyAction::Nothing));
    assert_eq!(app.mode, AppMode::Confirm);
    assert!(app.confirm_force);
    assert!(matches!(app.handle_key(Key::Esc, false), KeyAction::Nothing));
    assert_eq!(app.mode, AppMode::Normal);
    app.handle_key(Key::Enter, false);
    assert_eq!(app.mode, AppMode::Confirm);
    assert!(!app.confirm_force);
    let request = match app.handle_key(Key::Char('y'), false) {
        KeyAction::Kill(request) => request,
        _ => panic!("expected a kill request"),
    };
    assert_eq!(app.mode, AppMode::Normal);
    assert_eq!(request.pid, 42);
    assert_eq!(request.signal, KillSignal::Terminate);
    app.kill_finished(&request, KillResult::Success, 100);
    assert_eq!(app.status_message.as_deref(), Some("Killed \"node\" (PID 42) on port 3000"));
    app.kill_finished(&request, KillResult::PermissionDenied, 100);
    assert_eq!(
        app.status_message.as_deref(),
        Some("Permission denied: cannot kill PID 42 (try sudo)")
    );
    app.kill_finished(&request, KillResult::ProcessNotFound, 100);
    assert_eq!(
        app.status_message.as_deref(),
        Some("Process \"node\" (PID 42) no longer exists")
    );
}

#[test]
fn request_kill_without_selection_does_nothing() {
    let mut app = App::new(false, 0);
    app.request_kill(true);
    assert_eq!(app.mode, AppMode::Normal);
    assert!(app.confirm_kill().is_none());
}

#[test]
fn input_mode_edits_the_filter() {
    let mut app = app_with(vec![
        entry(22, 1, "sshd", 0.0, 0, Severity::Low),
        entry(80, 2, "nginx", 0.0, 0, Severity::Low),
    ]);
    app.handle_key(Key::Char('/'), false);
    assert_eq!(app.mode, AppMode::Input);
    app.handle_key(Key::Char('s'), false);
    app.handle_key(Key::Char('x'), false);
    assert_eq!(app.input_buffer, "sx");
    assert!(app.filtered_indices.is_empty());
    app.handle_key(Key::Backspace, false);
    assert_eq!(app.filtered_indices, vec![0]);
    app.handle_key(Key::Esc, false);
    assert_eq!(app.input_buffer, "");
    assert_eq!(app.filtered_indices, vec![0, 1]);
    assert_eq!(app.mode, AppMode::Normal);
    assert!(matches!(app.handle_key(Key::Char('r'), false), KeyAction::Refresh));
    app.handle_key(Key::Char('c'), true);
    assert!(app.should_quit);
}

#[test]
fn tick_expires_status_and_signals_refresh() {
    let mut app = App::new(true, 1000);
    assert!(!app.tick(2999));
    assert!(app.tick(3000));
    let request = port_killer::app::KillRequest {
        pid: 1,
        port: 2,
        command: "x".to_string(),
        signal: KillSignal::Kill,
    };
    app.kill_finished(&request, KillResult::Success, 5000);
    app.tick(7999);
    assert!(app.status_message.is_some());
    app.tick(8000);
    assert!(app.status_message.is_none());
    assert!(app.status_message_time_ms.is_none());
}

#[test]
fn metrics_history_keeps_latest_samples() {
    let mut app = App::new(true, 0);
    for i in 0..130u64 {
        app.record_system_metrics(i, 100 - (i % 100));
    }
    assert_eq!(app.cpu_history.len(), METRICS_HISTORY_LEN);
    assert_eq!(app.cpu_history.front(), Some(&10));
    assert_eq!(app.cpu_history.back(), Some(&129));
}

#[test]
fn select_visible_row_uses_table_offset() {
    let mut app = app_with(vec![
        entry(1, 1, "a", 0.0, 0, Severity::Low),
        entry(2, 2, "b", 0.0, 0, Severity::Low),
        entry(3, 3, "c", 0.0, 0, Severity::Low),
    ]);
    app.record_table_offset(1);
    app.select_visible_row(1);
    assert_eq!(app.selected_index, 2);
    app.select_visible_row(5);
    assert_eq!(app.selected_index, 2);
    assert_eq!(app.selected_entry().map(|e| e.port), Some(3));
}
