use std::collections::HashMap;

use port_killer::port_info::{
    classify_exposure, classify_severity, describe_port, format_age, format_memory,
    is_known_port, memory_percent, parse_services, Exposure, PortEntry, ProcessInfo, Severity,
};

#[test]
fn parse_services_reads_tcp_entries_only() {
    let contents = "\
ssh   22/tcp
ssh   22/udp
http  80/tcp   www www-http  # World Wide Web
# a full comment line
malformed-line
custom 5999/tcp
";
    let services = parse_services(contents);
    assert_eq!(services.get(&22), Some(&"ssh".to_string()));
    assert_eq!(services.get(&80), Some(&"http".to_string()));
    assert_eq!(services.get(&5999), Some(&"custom".to_string()));
    assert_eq!(services.len(), 3);
}

#[test]
fn parse_services_ignores_udp_only_ports() {
    let contents = "onlyudp 12345/udp\n";
    let services = parse_services(contents);
    assert!(!services.contains_key(&12345));
}

#[test]
fn describe_port_prefers_dev_tool_map_over_services() {
    let mut services = HashMap::new();
    services.insert(3000, "some-registered-name".to_string());
    assert_eq!(describe_port(3000, "node", &services), "Dev Server");
}

#[test]
fn describe_port_falls_back_to_services_lookup() {
    let mut services = HashMap::new();
    services.insert(80, "http".to_string());
    assert_eq!(describe_port(80, "nginx", &services), "http");
}

#[test]
fn describe_port_falls_back_to_command_heuristic() {
    let services = HashMap::new();
    assert_eq!(
        describe_port(54321, "node-server", &services),
        "Node.js Process"
    );
}

#[test]
fn describe_port_falls_back_to_raw_command() {
    let services = HashMap::new();
    assert_eq!(
        describe_port(54321, "mystery-binary", &services),
        "mystery-binary"
    );
}

#[test]
fn format_memory_picks_the_right_unit() {
    assert_eq!(format_memory(512), "512 B");
    assert_eq!(format_memory(2 * 1024), "2 KB");
    assert_eq!(format_memory(125 * 1024 * 1024), "125 MB");
    assert_eq!(format_memory(3 * 1024 * 1024 * 1024), "3.0 GB");
}

#[test]
fn is_known_port_recognizes_dev_and_service_ports_only() {
    let mut services = HashMap::new();
    services.insert(80, "http".to_string());
    assert!(is_known_port(3000, &services)); // dev-tool map
    assert!(is_known_port(80, &services)); // /etc/services
    assert!(!is_known_port(54321, &services)); // heuristic/raw fallback
}

#[test]
fn classify_severity_unchanged_thresholds() {
    assert_eq!(classify_severity(22), Severity::Critical);
    assert_eq!(classify_severity(5432), Severity::High);
    assert_eq!(classify_severity(3000), Severity::Medium);
    assert_eq!(classify_severity(54321), Severity::Low);
}

#[test]
fn classify_exposure_recognizes_loopback() {
    assert_eq!(classify_exposure("127.0.0.1"), Exposure::Loopback);
    assert_eq!(classify_exposure("::1"), Exposure::Loopback);
    assert_eq!(classify_exposure("[::1]"), Exposure::Loopback);
}

#[test]
fn classify_exposure_recognizes_all_interfaces() {
    assert_eq!(classify_exposure("0.0.0.0"), Exposure::AllInterfaces);
    assert_eq!(classify_exposure("*"), Exposure::AllInterfaces);
    assert_eq!(classify_exposure("::"), Exposure::AllInterfaces);
    assert_eq!(classify_exposure("[::]"), Exposure::AllInterfaces);
}

#[test]
fn classify_exposure_falls_back_to_specific() {
    assert_eq!(classify_exposure("192.168.1.5"), Exposure::Specific);
    assert_eq!(classify_exposure("[2001:db8::1]"), Exposure::Specific);
}

#[test]
fn memory_percent_rounds_and_guards_zero_total() {
    assert_eq!(memory_percent(0, 0), 0);
    assert_eq!(memory_percent(50, 100), 50);
    assert_eq!(memory_percent(2, 3), 67);
    assert_eq!(memory_percent(100, 100), 100);
}

#[test]
fn format_age_picks_the_right_unit() {
    assert_eq!(format_age(30), "30s");
    assert_eq!(format_age(45 * 60), "45m");
    assert_eq!(format_age(2 * 3600 + 30 * 60), "2h 30m");
    assert_eq!(format_age(2 * 86400 + 3 * 3600), "2d 3h");
}

// --- further cases ---

#[test]
fn parse_services_keeps_first_entry_for_a_port() {
    let services = parse_services("first 8080/tcp\nsecond 8080/tcp\r\nthird +81/tcp\n");
    assert_eq!(services.get(&8080), Some(&"first".to_string()));
    assert_eq!(services.get(&81), Some(&"third".to_string()));
    assert_eq!(services.len(), 2);
}

#[test]
fn parse_services_rejects_bad_ports() {
    let services = parse_services("big 70000/tcp\nneg -1/tcp\nempty /tcp\nnoslash 80\n");
    assert!(services.is_empty());
}

#[test]
fn describe_port_heuristic_is_case_insensitive_and_ordered() {
    let services = HashMap::new();
    assert_eq!(describe_port(40000, "PYTHON3", &services), "Python Process");
    assert_eq!(describe_port(40000, "node-docker", &services), "Node.js Process");
    assert_eq!(describe_port(40000, "httpd", &services), "Apache HTTP");
    assert_eq!(describe_port(24678, "x", &services), "Vite HMR");
}

#[test]
fn classify_severity_boundaries() {
    assert_eq!(classify_severity(0), Severity::Critical);
    assert_eq!(classify_severity(1023), Severity::Critical);
    assert_eq!(classify_severity(1024), Severity::Low);
    assert_eq!(classify_severity(1433), Severity::High);
    assert_eq!(classify_severity(24678), Severity::Medium);
}

#[test]
fn classify_exposure_needs_both_brackets() {
    assert_eq!(classify_exposure("[::1"), Exposure::Specific);
    assert_eq!(classify_exposure("::1]"), Exposure::Specific);
    assert_eq!(classify_exposure("[*]"), Exposure::AllInterfaces);
    assert_eq!(classify_exposure(""), Exposure::Specific);
}

#[test]
fn format_memory_rounds_gigabytes_to_one_decimal() {
    assert_eq!(format_memory(0), "0 B");
    assert_eq!(format_memory(1023), "1023 B");
    assert_eq!(format_memory(1024 * 1024 - 1), "1023 KB");
    assert_eq!(format_memory(1536 * 1024 * 1024), "1.5 GB");
    assert_eq!(format_memory(1024 * 1024 * 1024 + 107374182), "1.1 GB");
    assert_eq!(format_memory(u64::MAX), "17179869184.0 GB");
}

#[test]
fn memory_percent_clamps_and_rounds_half_up() {
    assert_eq!(memory_percent(300, 100), 100);
    assert_eq!(memory_percent(1, 8), 13);
    assert_eq!(memory_percent(1, 3), 33);
    assert_eq!(memory_percent(u64::MAX, u64::MAX), 100);
}

#[test]
fn format_age_boundaries() {
    assert_eq!(format_age(0), "0s");
    assert_eq!(format_age(59), "59s");
    assert_eq!(format_age(60), "1m");
    assert_eq!(format_age(3599), "59m");
    assert_eq!(format_age(3600), "1h 0m");
    assert_eq!(format_age(86400), "1d 0h");
}

#[test]
fn labels_match_the_display_text() {
    assert_eq!(Severity::Low.label(), "LOW");
    assert_eq!(Severity::Critical.label(), "CRITICAL");
    assert_eq!(Exposure::Loopback.label(), "local");
    assert_eq!(Exposure::AllInterfaces.label(), "LAN");
    assert_eq!(Exposure::Specific.label(), "specific");
    assert!(Severity::Low.rank() < Severity::Critical.rank());
    assert!(Exposure::Loopback.rank() < Exposure::AllInterfaces.rank());
}

#[test]
fn port_entry_new_classifies_and_enrich_fills_process_data() {
    let mut services = HashMap::new();
    services.insert(5432, "postgresql".to_string());
    let mut entry = PortEntry::new(5432, 99, "postgres".to_string(), "[::1]".to_string(), &services);
    assert_eq!(entry.severity, Severity::High);
    assert_eq!(entry.description, "postgresql");
    assert!(entry.known);
    assert_eq!(entry.exposure, Exposure::Loopback);
    assert_eq!(entry.cmdline, "");
    entry.enrich(ProcessInfo {
        cpu_percent_bits: 2.5f32.to_bits(),
        memory_bytes: 4096,
        args: vec!["postgres".to_string(), "-D".to_string(), "/data".to_string()],
        cwd: Some("/var".to_string()),
        run_time: 61,
        parent: Some((1, "init".to_string())),
    });
    assert_eq!(entry.cmdline, "postgres -D /data");
    assert_eq!(f32::from_bits(entry.cpu_percent_bits), 2.5);
    assert_eq!(entry.memory_bytes, 4096);
    assert_eq!(entry.age_seconds, 61);
    entry.enrich(ProcessInfo {
        cpu_percent_bits: 0,
        memory_bytes: 0,
        args: vec![],
        cwd: None,
        run_time: 0,
        parent: None,
    });
    assert_eq!(entry.cmdline, "postgres");
}

#[test]
fn known_port_description_ignores_command() {
    let mut services = HashMap::new();
    services.insert(80u16, "http".to_string());
    for port in [3000u16, 80] {
        assert!(is_known_port(port, &services));
        assert_eq!(
            describe_port(port, "python3 -m http.server", &services),
            describe_port(port, "mystery", &services)
        );
    }
    assert_ne!(
        describe_port(54321, "python3", &services),
        describe_port(54321, "mystery", &services)
    );
}

#[test]
fn classify_exposure_is_the_same_with_brackets() {
    for addr in ["::1", "::", "127.0.0.1", "0.0.0.0", "*", "fe80::1"] {
        let bracketed = format!("[{}]", addr);
        assert_eq!(classify_exposure(&bracketed), classify_exposure(addr));
    }
}

#[test]
fn format_memory_rounds_ties_to_even() {
    // 1.25 GiB and 1.75 GiB are exact ties at one decimal.
    assert_eq!(format_memory(5 << 28), "1.2 GB");
    assert_eq!(format_memory(7 << 28), "1.8 GB");
    assert_eq!(format_memory((5 << 28) + 1), "1.3 GB");
}
