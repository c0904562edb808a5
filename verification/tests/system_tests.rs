use std::collections::HashMap;

use port_killer::port_info::{Exposure, Severity};
use port_killer::system::{
    kill_outcome, KillResult, EPERM, ESRCH,
    parse_lsof_line, parse_lsof_output, parse_ss_line, parse_ss_output, parse_ss_process_field,
    split_addr_port,
};

#[test]
fn split_addr_port_handles_plain_ipv4() {
    assert_eq!(
        split_addr_port("127.0.0.1:3000"),
        Some(("127.0.0.1", "3000"))
    );
}

#[test]
fn split_addr_port_handles_wildcard() {
    assert_eq!(split_addr_port("*:7000"), Some(("*", "7000")));
}

#[test]
fn split_addr_port_handles_bracketed_ipv6() {
    assert_eq!(split_addr_port("[::1]:5432"), Some(("[::1]", "5432")));
    assert_eq!(split_addr_port("[::]:22"), Some(("[::]", "22")));
}

#[test]
fn split_addr_port_rejects_missing_port() {
    assert_eq!(split_addr_port("no-colon-here"), None);
}

#[test]
fn parse_lsof_line_captures_bind_address() {
    let line = "node    1234 user   20u  IPv4 0x0 0t0  TCP 127.0.0.1:3000 (LISTEN)";
    let entry = parse_lsof_line(line, &HashMap::new()).expect("should parse");
    assert_eq!(entry.port, 3000);
    assert_eq!(entry.bind_addr, "127.0.0.1");
}

#[test]
fn parse_lsof_line_captures_ipv6_bind_address() {
    let line = "postgres 1234 user  20u  IPv6 0x0 0t0  TCP [::1]:5432 (LISTEN)";
    let entry = parse_lsof_line(line, &HashMap::new()).expect("should parse");
    assert_eq!(entry.port, 5432);
    assert_eq!(entry.bind_addr, "[::1]");
}

// --- further cases ---

#[test]
fn split_addr_port_rejects_trailing_colon_and_empty() {
    assert_eq!(split_addr_port("host:"), None);
    assert_eq!(split_addr_port(""), None);
    assert_eq!(split_addr_port(":80"), Some(("", "80")));
}

#[test]
fn parse_lsof_line_decodes_spaces_and_rejects_short_lines() {
    let line = "Google\\x20Chrome 77 user 20u IPv4 0x0 0t0 TCP *:8080 (LISTEN)";
    let entry = parse_lsof_line(line, &HashMap::new()).expect("should parse");
    assert_eq!(entry.command, "Google Chrome");
    assert_eq!(entry.pid, 77);
    assert_eq!(entry.exposure, Exposure::AllInterfaces);
    assert!(parse_lsof_line("node 1 user 20u IPv4 TCP *:80 (LISTEN)", &HashMap::new()).is_none());
    assert!(parse_lsof_line("node x user 20u IPv4 0x0 0t0 TCP *:80 (LISTEN)", &HashMap::new()).is_none());
}

#[test]
fn parse_ss_process_field_reads_command_and_pid() {
    assert_eq!(
        parse_ss_process_field("users:((\"sshd\",pid=123,fd=3))"),
        Some(("sshd".to_string(), 123))
    );
    assert_eq!(parse_ss_process_field("users:((\"sshd\",pid=123"), None);
    assert_eq!(parse_ss_process_field(""), None);
    assert_eq!(parse_ss_process_field("users:((\"sshd,pid=1,"), None);
}

#[test]
fn parse_ss_line_reads_local_address_and_process() {
    let line = "LISTEN 0 128 0.0.0.0:22 0.0.0.0:* users:((\"sshd\",pid=812,fd=3))";
    let entry = parse_ss_line(line, &HashMap::new()).expect("should parse");
    assert_eq!(entry.port, 22);
    assert_eq!(entry.pid, 812);
    assert_eq!(entry.command, "sshd");
    assert_eq!(entry.bind_addr, "0.0.0.0");
    assert_eq!(entry.severity, Severity::Critical);
    assert!(parse_ss_line("LISTEN 0 128 0.0.0.0:22 0.0.0.0:*", &HashMap::new()).is_none());
}

#[test]
fn parse_ss_output_skips_header_dedups_and_sorts_by_port() {
    let out = "State Recv-Q Send-Q Local Peer Process\n\
LISTEN 0 128 0.0.0.0:8080 0.0.0.0:* users:((\"node\",pid=5,fd=3))\n\
LISTEN 0 128 [::]:8080 [::]:* users:((\"node\",pid=5,fd=4))\n\
LISTEN 0 128 127.0.0.1:22 0.0.0.0:* users:((\"sshd\",pid=1,fd=3))\n\
LISTEN 0 128 [::]:8080 [::]:* users:((\"other\",pid=6,fd=4))\n";
    let entries = parse_ss_output(out, &HashMap::new());
    let keys: Vec<(u16, u32)> = entries.iter().map(|e| (e.port, e.pid)).collect();
    assert_eq!(keys, vec![(22, 1), (8080, 5), (8080, 6)]);
    assert_eq!(entries[1].bind_addr, "0.0.0.0");
}

#[test]
fn parse_lsof_output_skips_header() {
    let out = "COMMAND PID USER FD TYPE DEVICE SIZE/OFF NODE NAME\n\
node 10 u 20u IPv4 0x0 0t0 TCP *:5173 (LISTEN)\n\
ruby 11 u 20u IPv4 0x0 0t0 TCP 127.0.0.1:4000 (LISTEN)\n";
    let entries = parse_lsof_output(out, &HashMap::new());
    let ports: Vec<u16> = entries.iter().map(|e| e.port).collect();
    assert_eq!(ports, vec![4000, 5173]);
    assert_eq!(entries[1].description, "Vite Dev");
    assert!(parse_lsof_output("", &HashMap::new()).is_empty());
}

#[test]
fn split_addr_port_rejoins_the_field() {
    for field in ["127.0.0.1:3000", "*:7000", "[::1]:5432", "[fe80::1%lo]:22", "a:b:c"] {
        let (addr, port) = split_addr_port(field).expect("has a port");
        assert_eq!(format!("{}:{}", addr, port), field);
        assert!(!port.is_empty() && !port.contains(':'));
    }
}

#[test]
fn kill_outcome_maps_error_numbers() {
    assert_eq!(kill_outcome(None), Some(KillResult::Success));
    assert_eq!(kill_outcome(Some(EPERM)), Some(KillResult::PermissionDenied));
    assert_eq!(kill_outcome(Some(ESRCH)), Some(KillResult::ProcessNotFound));
    assert_eq!(kill_outcome(Some(22)), None);
}
