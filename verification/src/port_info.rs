//! What a listening port is: its severity, exposure, description, and the
//! human-readable forms of its numbers.
use std::collections::HashMap;
use vstd::prelude::*;

use crate::text::{
    chars_of, contains, contains_chars, decimal, find_char, first_index,
    lines, lowercase, parse_unsigned, parse_unsigned_in, pieces, push_decimal, split_lines,
    split_words, string_of, to_lowercase, words,
};

verus! {

broadcast use vstd::std_specs::hash::group_hash_axioms;

/// How risky it is to have a port open.
#[derive(Debug, Clone, Copy, PartialEq, Eq, Structural, PartialOrd, Ord)]
pub enum Severity {
    Low,
    Medium,
    High,
    Critical,
}

/// Position of a severity in the order `Low < Medium < High < Critical`.
pub open spec fn severity_rank(s: Severity) -> nat {
    match s {
        Severity::Low => 0,
        Severity::Medium => 1,
        Severity::High => 2,
        Severity::Critical => 3,
    }
}

impl Severity {
    /// Position in the order `Low < Medium < High < Critical`.
    pub fn rank(self) -> (r: u8)
        ensures
            r == severity_rank(self),
    {
        match self {
            Severity::Low => 0,
            Severity::Medium => 1,
            Severity::High => 2,
            Severity::Critical => 3,
        }
    }

    /// The upper-case label shown for the severity.
    pub fn label(self) -> (s: &'static str)
        ensures
            s@ == severity_label(self),
    {
        match self {
            Severity::Low => "LOW",
            Severity::Medium => "MEDIUM",
            Severity::High => "HIGH",
            Severity::Critical => "CRITICAL",
        }
    }
}

pub open spec fn severity_label(s: Severity) -> Seq<char> {
    match s {
        Severity::Low => "LOW"@,
        Severity::Medium => "MEDIUM"@,
        Severity::High => "HIGH"@,
        Severity::Critical => "CRITICAL"@,
    }
}

/// Who can reach a port, from least to most exposed.
#[derive(Debug, Clone, Copy, PartialEq, Eq, Structural, PartialOrd, Ord)]
pub enum Exposure {
    Loopback,
    Specific,
    AllInterfaces,
}

/// Position of an exposure in the order `Loopback < Specific < AllInterfaces`.
pub open spec fn exposure_rank(e: Exposure) -> nat {
    match e {
        Exposure::Loopback => 0,
        Exposure::Specific => 1,
        Exposure::AllInterfaces => 2,
    }
}

pub open spec fn exposure_label(e: Exposure) -> Seq<char> {
    match e {
        Exposure::Loopback => "local"@,
        Exposure::Specific => "specific"@,
        Exposure::AllInterfaces => "LAN"@,
    }
}

impl Exposure {
    /// Position in the order `Loopback < Specific < AllInterfaces`.
    pub fn rank(self) -> (r: u8)
        ensures
            r == exposure_rank(self),
    {
        match self {
            Exposure::Loopback => 0,
            Exposure::Specific => 1,
            Exposure::AllInterfaces => 2,
        }
    }

    /// The short label shown for the exposure.
    pub fn label(self) -> (s: &'static str)
        ensures
            s@ == exposure_label(self),
    {
        match self {
            Exposure::Loopback => "local",
            Exposure::Specific => "specific",
            Exposure::AllInterfaces => "LAN",
        }
    }
}

/// Whether `v[from..to]` is exactly `w`.
pub fn range_equals(v: &[char], from: usize, to: usize, w: &str) -> (b: bool)
    requires
        from <= to <= v@.len(),
    ensures
        b == (v@.subrange(from as int, to as int) == w@),
{
    let wc = chars_of(w);
    if to - from != wc.len() {
        return false;
    }
    let mut i: usize = 0;
    while i < wc.len()
        invariant
            from <= to <= v@.len(),
            to - from == wc@.len(),
            wc@ == w@,
            i <= wc@.len(),
            forall|j: int| 0 <= j < i ==> v@[from + j] == wc@[j],
        decreases wc@.len() - i,
    {
        if v[from + i] != wc[i] {
            assert(v@.subrange(from as int, to as int)[i as int] != w@[i as int]);
            return false;
        }
        i += 1;
    }
    assert(v@.subrange(from as int, to as int) =~= w@);
    true
}

/// A bind address without one pair of surrounding IPv6 brackets.
pub open spec fn unbracketed(a: Seq<char>) -> Seq<char> {
    if a.len() >= 2 && a[0] == '[' && a.last() == ']' {
        a.subrange(1, a.len() - 1)
    } else {
        a
    }
}

/// The exposure of a bind address: loopback for `127.0.0.1` and `::1`, all
/// interfaces for `0.0.0.0`, `::` and `*`, specific otherwise; IPv6
/// brackets are ignored.
pub open spec fn exposure_of(addr: Seq<char>) -> Exposure {
    let a = unbracketed(addr);
    if a == "127.0.0.1"@ || a == "::1"@ {
        Exposure::Loopback
    } else if a == "0.0.0.0"@ || a == "::"@ || a == "*"@ {
        Exposure::AllInterfaces
    } else {
        Exposure::Specific
    }
}

/// One pair of IPv6 brackets around an address does not change its
/// exposure (`[::1]` is loopback like `::1`).
pub proof fn lemma_exposure_ignores_brackets(addr: Seq<char>)
    requires
        unbracketed(addr) == addr,
    ensures
        exposure_of(seq!['['] + addr + seq![']']) == exposure_of(addr),
{
    let b = seq!['['] + addr + seq![']'];
    assert(b.subrange(1, b.len() - 1) =~= addr);
}

/// Classifies a bind address (e.g. `127.0.0.1`, `0.0.0.0`, `*`, `[::1]`).
pub fn classify_exposure(addr: &str) -> (e: Exposure)
    ensures
        e == exposure_of(addr@),
{
    let v = chars_of(addr);
    let n = v.len();
    let (from, to) = if n >= 2 && v[0] == '[' && v[n - 1] == ']' {
        (1, n - 1)
    } else {
        (0, n)
    };
    assert(v@.subrange(from as int, to as int) =~= unbracketed(addr@));
    if range_equals(&v, from, to, "127.0.0.1") || range_equals(&v, from, to, "::1") {
        Exposure::Loopback
    } else if range_equals(&v, from, to, "0.0.0.0") || range_equals(&v, from, to, "::")
        || range_equals(&v, from, to, "*") {
        Exposure::AllInterfaces
    } else {
        Exposure::Specific
    }
}

/// Database and message-broker ports.
pub open spec fn is_high_port(p: u16) -> bool {
    p == 3306 || p == 5432 || p == 6379 || p == 27017 || p == 5672 || p == 9200 || p == 2181 || p
        == 9092 || p == 1433 || p == 26257 || p == 8529 || p == 7474 || p == 11211
}

/// Common development-server ports.
pub open spec fn is_medium_port(p: u16) -> bool {
    p == 3000 || p == 3001 || p == 3002 || p == 4000 || p == 4200 || p == 4321 || p == 5000 || p
        == 5173 || p == 5174 || p == 5500 || p == 5555 || p == 8000 || p == 8001 || p == 8080 || p
        == 8081 || p == 8443 || p == 8888 || p == 9000 || p == 9090 || p == 9229 || p == 9999 || p
        == 24678
}

/// Privileged ports are critical, then database ports high, then common
/// development ports medium, everything else low.
pub open spec fn severity_of(p: u16) -> Severity {
    if p <= 1023 {
        Severity::Critical
    } else if is_high_port(p) {
        Severity::High
    } else if is_medium_port(p) {
        Severity::Medium
    } else {
        Severity::Low
    }
}

pub fn classify_severity(port: u16) -> (s: Severity)
    ensures
        s == severity_of(port),
{
    let p = port;
    if p <= 1023 {
        Severity::Critical
    } else if p == 3306 || p == 5432 || p == 6379 || p == 27017 || p == 5672 || p == 9200 || p
        == 2181 || p == 9092 || p == 1433 || p == 26257 || p == 8529 || p == 7474 || p == 11211 {
        Severity::High
    } else if p == 3000 || p == 3001 || p == 3002 || p == 4000 || p == 4200 || p == 4321 || p
        == 5000 || p == 5173 || p == 5174 || p == 5500 || p == 5555 || p == 8000 || p == 8001 || p
        == 8080 || p == 8081 || p == 8443 || p == 8888 || p == 9000 || p == 9090 || p == 9229 || p
        == 9999 || p == 24678 {
        Severity::Medium
    } else {
        Severity::Low
    }
}

/// The database and message-broker ports the README calls high risk:
/// MySQL, PostgreSQL, Redis, MongoDB, RabbitMQ, Elasticsearch, ZooKeeper,
/// Kafka, MSSQL, CockroachDB, ArangoDB, Neo4j, Memcached.
pub open spec fn database_ports() -> Seq<u16> {
    seq![3306u16, 5432, 6379, 27017, 5672, 9200, 2181, 9092, 1433, 26257, 8529, 7474, 11211]
}

/// The common development-server ports.
pub open spec fn dev_server_ports() -> Seq<u16> {
    seq![
        3000u16, 3001, 3002, 4000, 4200, 4321, 5000, 5173, 5174, 5500, 5555, 8000, 8001, 8080,
        8081, 8443, 8888, 9000, 9090, 9229, 9999, 24678,
    ]
}

/// The severity classes: every privileged port (1-1023, and 0) is
/// critical; above that, every database port is high, every common
/// development port medium, and every other port low.
pub proof fn lemma_severity_classes(p: u16)
    ensures
        p <= 1023 ==> severity_of(p) == Severity::Critical,
        p > 1023 && database_ports().contains(p) ==> severity_of(p) == Severity::High,
        p > 1023 && !database_ports().contains(p) && dev_server_ports().contains(p)
            ==> severity_of(p) == Severity::Medium,
        p > 1023 && !database_ports().contains(p) && !dev_server_ports().contains(p)
            ==> severity_of(p) == Severity::Low,
{
    let db = database_ports();
    let dev = dev_server_ports();
    if db.contains(p) {
        let i = choose|i: int| 0 <= i < db.len() && db[i] == p;
        assert(is_high_port(p));
    } else {
        assert(db[0] == 3306 && db[1] == 5432 && db[2] == 6379 && db[3] == 27017 && db[4] == 5672
            && db[5] == 9200 && db[6] == 2181 && db[7] == 9092 && db[8] == 1433 && db[9] == 26257
            && db[10] == 8529 && db[11] == 7474 && db[12] == 11211);
        assert(!is_high_port(p));
    }
    if dev.contains(p) {
        let i = choose|i: int| 0 <= i < dev.len() && dev[i] == p;
        assert(is_medium_port(p));
    } else {
        assert(dev[0] == 3000 && dev[1] == 3001 && dev[2] == 3002 && dev[3] == 4000 && dev[4]
            == 4200 && dev[5] == 4321 && dev[6] == 5000 && dev[7] == 5173 && dev[8] == 5174
            && dev[9] == 5500 && dev[10] == 5555 && dev[11] == 8000 && dev[12] == 8001 && dev[13]
            == 8080 && dev[14] == 8081 && dev[15] == 8443 && dev[16] == 8888 && dev[17] == 9000
            && dev[18] == 9090 && dev[19] == 9229 && dev[20] == 9999 && dev[21] == 24678);
        assert(!is_medium_port(p));
    }
}

/// The label of a curated development-tool port, which `/etc/services`
/// usually lacks.
pub open spec fn dev_tool_label(p: u16) -> Option<Seq<char>> {
    if p == 3000 || p == 3001 || p == 3002 {
        Some("Dev Server"@)
    } else if p == 4200 {
        Some("Angular Dev"@)
    } else if p == 4321 {
        Some("Astro Dev"@)
    } else if p == 5173 || p == 5174 {
        Some("Vite Dev"@)
    } else if p == 5500 {
        Some("Live Server"@)
    } else if p == 5555 {
        Some("ADB / Dev"@)
    } else if p == 8888 {
        Some("Jupyter"@)
    } else if p == 9229 {
        Some("Node.js Debug"@)
    } else if p == 24678 {
        Some("Vite HMR"@)
    } else {
        None
    }
}

fn dev_tool_name(p: u16) -> (r: Option<&'static str>)
    ensures
        match r {
            Some(s) => dev_tool_label(p) == Some(s@),
            None => dev_tool_label(p) is None,
        },
{
    if p == 3000 || p == 3001 || p == 3002 {
        Some("Dev Server")
    } else if p == 4200 {
        Some("Angular Dev")
    } else if p == 4321 {
        Some("Astro Dev")
    } else if p == 5173 || p == 5174 {
        Some("Vite Dev")
    } else if p == 5500 {
        Some("Live Server")
    } else if p == 5555 {
        Some("ADB / Dev")
    } else if p == 8888 {
        Some("Jupyter")
    } else if p == 9229 {
        Some("Node.js Debug")
    } else if p == 24678 {
        Some("Vite HMR")
    } else {
        None
    }
}

/// A port is known when it is a curated development-tool port or has an
/// entry in the services table.
pub open spec fn known_port(p: u16, services: Map<u16, String>) -> bool {
    dev_tool_label(p) is Some || services.contains_key(p)
}

pub fn is_known_port(port: u16, services: &HashMap<u16, String>) -> (b: bool)
    ensures
        b == known_port(port, services@),
{
    dev_tool_name(port).is_some() || services.contains_key(&port)
}

/// The label of the first command-name fragment that occurs in the
/// lower-cased command.
pub open spec fn command_label(lc: Seq<char>) -> Option<Seq<char>> {
    if contains(lc, "node"@) {
        Some("Node.js Process"@)
    } else if contains(lc, "python"@) {
        Some("Python Process"@)
    } else if contains(lc, "ruby"@) {
        Some("Ruby Process"@)
    } else if contains(lc, "java"@) {
        Some("Java Process"@)
    } else if contains(lc, "nginx"@) {
        Some("Nginx"@)
    } else if contains(lc, "apache"@) {
        Some("Apache HTTP"@)
    } else if contains(lc, "httpd"@) {
        Some("Apache HTTP"@)
    } else if contains(lc, "docker"@) {
        Some("Docker"@)
    } else if contains(lc, "code"@) {
        Some("VS Code"@)
    } else {
        None
    }
}

/// The command-name fragments looked for, in order, and their labels.
pub open spec fn command_heuristics() -> Seq<(Seq<char>, Seq<char>)> {
    seq![
        ("node"@, "Node.js Process"@),
        ("python"@, "Python Process"@),
        ("ruby"@, "Ruby Process"@),
        ("java"@, "Java Process"@),
        ("nginx"@, "Nginx"@),
        ("apache"@, "Apache HTTP"@),
        ("httpd"@, "Apache HTTP"@),
        ("docker"@, "Docker"@),
        ("code"@, "VS Code"@),
    ]
}

/// A lower-cased command gets the label of the first fragment in the list
/// that occurs anywhere in it, and no label when none does.
pub proof fn lemma_command_heuristics(lc: Seq<char>)
    ensures
        forall|i: int|
            0 <= i < command_heuristics().len() && contains(lc, #[trigger] command_heuristics()[i].0)
                && (forall|j: int| 0 <= j < i ==> !contains(lc, command_heuristics()[j].0))
                ==> command_label(lc) == Some(command_heuristics()[i].1),
        (forall|j: int| 0 <= j < command_heuristics().len() ==> !contains(lc, #[trigger] command_heuristics()[j].0))
            ==> command_label(lc) is None,
{
    let t = command_heuristics();
    assert(t[0] == ("node"@, "Node.js Process"@) && t[1] == ("python"@, "Python Process"@) && t[2]
        == ("ruby"@, "Ruby Process"@) && t[3] == ("java"@, "Java Process"@) && t[4] == (
    "nginx"@, "Nginx"@) && t[5] == ("apache"@, "Apache HTTP"@) && t[6] == ("httpd"@, "Apache HTTP"@)
        && t[7] == ("docker"@, "Docker"@) && t[8] == ("code"@, "VS Code"@));
    if forall|j: int| 0 <= j < t.len() ==> !contains(lc, #[trigger] t[j].0) {
        assert(!contains(lc, t[0].0) && !contains(lc, t[1].0) && !contains(lc, t[2].0) && !contains(
            lc,
            t[3].0,
        ) && !contains(lc, t[4].0) && !contains(lc, t[5].0) && !contains(lc, t[6].0) && !contains(
            lc,
            t[7].0,
        ) && !contains(lc, t[8].0));
    }
}

/// The description of a port: its curated development-tool label, else its
/// services-table name, else the label of the command's name, else the
/// command itself.
pub open spec fn description_of(p: u16, command: Seq<char>, services: Map<u16, String>) -> Seq<
    char,
> {
    match dev_tool_label(p) {
        Some(l) => l,
        None => if services.contains_key(p) {
            services[p]@
        } else {
            match command_label(lowercase(command)) {
                Some(l) => l,
                None => command,
            }
        },
    }
}

/// The curated development-tool ports and their labels.
pub open spec fn dev_tool_ports() -> Seq<(u16, Seq<char>)> {
    seq![
        (3000u16, "Dev Server"@),
        (3001u16, "Dev Server"@),
        (3002u16, "Dev Server"@),
        (4200u16, "Angular Dev"@),
        (4321u16, "Astro Dev"@),
        (5173u16, "Vite Dev"@),
        (5174u16, "Vite Dev"@),
        (5500u16, "Live Server"@),
        (5555u16, "ADB / Dev"@),
        (8888u16, "Jupyter"@),
        (9229u16, "Node.js Debug"@),
        (24678u16, "Vite HMR"@),
    ]
}

/// Every curated development-tool port is known and described by its
/// label, whatever the command and whatever the services table says.
pub proof fn lemma_dev_tool_ports_win(i: int, command: Seq<char>, services: Map<u16, String>)
    requires
        0 <= i < dev_tool_ports().len(),
    ensures
        known_port(dev_tool_ports()[i].0, services),
        description_of(dev_tool_ports()[i].0, command, services) == dev_tool_ports()[i].1,
{
}

/// A known port is described the same whatever process listens on it:
/// the command only matters for ports neither list knows.
pub proof fn lemma_known_port_description(
    port: u16,
    command: Seq<char>,
    other: Seq<char>,
    services: Map<u16, String>,
)
    requires
        known_port(port, services),
    ensures
        description_of(port, command, services) == description_of(port, other, services),
{
}

fn has_fragment(lc: &[char], fragment: &str) -> (b: bool)
    ensures
        b == contains(lc@, fragment@),
{
    let f = chars_of(fragment);
    contains_chars(lc, &f)
}

fn command_name(lc: &[char]) -> (r: Option<&'static str>)
    ensures
        match r {
            Some(s) => command_label(lc@) == Some(s@),
            None => command_label(lc@) is None,
        },
{
    if has_fragment(lc, "node") {
        Some("Node.js Process")
    } else if has_fragment(lc, "python") {
        Some("Python Process")
    } else if has_fragment(lc, "ruby") {
        Some("Ruby Process")
    } else if has_fragment(lc, "java") {
        Some("Java Process")
    } else if has_fragment(lc, "nginx") {
        Some("Nginx")
    } else if has_fragment(lc, "apache") {
        Some("Apache HTTP")
    } else if has_fragment(lc, "httpd") {
        Some("Apache HTTP")
    } else if has_fragment(lc, "docker") {
        Some("Docker")
    } else if has_fragment(lc, "code") {
        Some("VS Code")
    } else {
        None
    }
}

/// Describes a port: curated development-tool ports first, then the
/// services table, then a command-name heuristic, then the raw command.
pub fn describe_port(port: u16, command: &str, services: &HashMap<u16, String>) -> (d: String)
    ensures
        d@ == description_of(port, command@, services@),
{
    if let Some(label) = dev_tool_name(port) {
        return String::from_str(label);
    }
    if let Some(name) = services.get(&port) {
        return name.clone();
    }
    let lower = to_lowercase(command);
    let lc = chars_of(lower.as_str());
    match command_name(&lc) {
        Some(label) => String::from_str(label),
        None => String::from_str(command),
    }
}

/// The services-table entry a line of an `/etc/services`-formatted file
/// gives: text after `#` is a comment; the first word is the name, the
/// second `port/proto`; only `tcp` entries with a valid port count.
pub open spec fn service_entry(line: Seq<char>) -> Option<(u16, Seq<char>)> {
    let fields = words(line.take(first_index(line, |c: char| c == '#') as int));
    if fields.len() < 2 {
        None
    } else {
        let pp = fields[1];
        let slash = first_index(pp, |c: char| c == '/');
        if slash >= pp.len() || pp.skip((slash + 1) as int) != "tcp"@ {
            None
        } else {
            match parse_unsigned(pp.take(slash as int), 65535) {
                Some(port) => Some((port as u16, fields[0])),
                None => None,
            }
        }
    }
}

/// The table the lines give, where the first entry for a port wins.
pub open spec fn services_of_lines(ls: Seq<Seq<char>>) -> Map<u16, Seq<char>>
    decreases ls.len(),
{
    if ls.len() == 0 {
        Map::empty()
    } else {
        let m = services_of_lines(ls.drop_last());
        match service_entry(ls.last()) {
            Some((port, name)) => if m.contains_key(port) {
                m
            } else {
                m.insert(port, name)
            },
            None => m,
        }
    }
}

/// Whether a line is a tcp entry for `port`.
pub open spec fn names_port(line: Seq<char>, port: u16) -> bool {
    service_entry(line) matches Some((p, _)) && p == port
}

/// The table has a port exactly when some line is a tcp entry for it, and
/// then holds the name of the first such line.
pub proof fn lemma_services_first_entry(ls: Seq<Seq<char>>, port: u16)
    ensures
        services_of_lines(ls).contains_key(port) <==> exists|i: int|
            0 <= i < ls.len() && #[trigger] names_port(ls[i], port),
        forall|i: int|
            0 <= i < ls.len() && #[trigger] names_port(ls[i], port) && (forall|j: int|
                0 <= j < i ==> !names_port(ls[j], port)) ==> services_of_lines(ls)[port]
                == service_entry(ls[i]).unwrap().1,
    decreases ls.len(),
{
    if ls.len() > 0 {
        let pre = ls.drop_last();
        lemma_services_first_entry(pre, port);
        let m = services_of_lines(pre);
        let last = ls.last();
        assert forall|j: int| 0 <= j < pre.len() implies pre[j] == ls[j] by {}
        if exists|i: int| 0 <= i < ls.len() && #[trigger] names_port(ls[i], port) {
            let i = choose|i: int| 0 <= i < ls.len() && #[trigger] names_port(ls[i], port);
            if i < pre.len() {
                assert(names_port(pre[i], port));
            }
        }
        if exists|i: int| 0 <= i < pre.len() && #[trigger] names_port(pre[i], port) {
            let i = choose|i: int| 0 <= i < pre.len() && #[trigger] names_port(pre[i], port);
            assert(names_port(ls[i], port));
        } else {
            assert forall|i: int| 0 <= i < ls.len() - 1 implies !#[trigger] names_port(ls[i], port) by {
                assert(pre[i] == ls[i]);
            }
        }
        if names_port(last, port) {
            assert(names_port(ls[ls.len() - 1], port));
        }
        assert forall|i: int|
            0 <= i < ls.len() && #[trigger] names_port(ls[i], port) && (forall|j: int|
                0 <= j < i ==> !names_port(ls[j], port)) implies services_of_lines(ls)[port]
                == service_entry(ls[i]).unwrap().1 by {
            if i < pre.len() {
                assert(names_port(pre[i], port));
                assert forall|j: int| 0 <= j < i implies !names_port(pre[j], port) by {
                    assert(pre[j] == ls[j]);
                }
            } else {
                assert forall|j: int| 0 <= j < pre.len() implies !names_port(pre[j], port) by {
                    assert(pre[j] == ls[j]);
                    assert(!names_port(ls[j], port));
                }
            }
        }
    }
}

/// The port-to-name table of an `/etc/services`-formatted text.
pub open spec fn services_table(contents: Seq<char>) -> Map<u16, Seq<char>> {
    services_of_lines(lines(contents))
}

/// A map whose values are strings, read as text.
pub open spec fn text_values(m: Map<u16, String>) -> Map<u16, Seq<char>> {
    Map::new(|k: u16| m.contains_key(k), |k: u16| m[k]@)
}

/// Parses the tcp entries of an `/etc/services`-formatted file.
pub fn parse_services(contents: &str) -> (services: HashMap<u16, String>)
    ensures
        text_values(services@) == services_table(contents@),
{
    let mut services: HashMap<u16, String> = HashMap::new();
    let v = chars_of(contents);
    let ranges = split_lines(&v);
    let ghost ls = lines(v@);
    let mut i: usize = 0;
    assert(ls.take(0) =~= Seq::<Seq<char>>::empty());
    assert(text_values(services@) =~= services_of_lines(ls.take(0)));
    while i < ranges.len()
        invariant
            v@ == contents@,
            ls == lines(v@),
            pieces(v@, ranges@) == ls,
            forall|j: int| 0 <= j < ranges@.len() ==> #[trigger] ranges@[j].0 <= ranges@[j].1 <= v@.len(),
            i <= ranges@.len(),
            text_values(services@) == services_of_lines(ls.take(i as int)),
        decreases ranges@.len() - i,
    {
        let (a, b) = ranges[i];
        let ghost line = v@.subrange(a as int, b as int);
        assert(ls[i as int] == line);
        assert(ls.take(i + 1).drop_last() =~= ls.take(i as int));
        assert(ls.take(i + 1).last() == line);
        let hash = find_char(&v, a, b, '#');
        assert(line.take(first_index(line, |c: char| c == '#') as int) =~= v@.subrange(a as int, hash as int));
        let ws = split_words(&v, a, hash);
        let ghost fields = words(v@.subrange(a as int, hash as int));
        let ghost before = services@;
        if ws.len() >= 2 {
            let (f0a, f0b) = ws[0];
            let (f1a, f1b) = ws[1];
            assert(fields[0] == v@.subrange(f0a as int, f0b as int));
            assert(fields[1] == v@.subrange(f1a as int, f1b as int));
            let slash = find_char(&v, f1a, f1b, '/');
            let ghost pp = fields[1];
            if slash < f1b {
                assert(pp.skip(slash - f1a + 1) =~= v@.subrange(slash + 1, f1b as int));
                assert(pp.take(slash - f1a) =~= v@.subrange(f1a as int, slash as int));
                if range_equals(&v, slash + 1, f1b, "tcp") {
                    if let Some(port) = parse_unsigned_in(&v, f1a, slash, 65535) {
                        let key = port as u16;
                        if !services.contains_key(&key) {
                            let name = string_of(&v, f0a, f0b);
                            services.insert(key, name);
                        }
                    }
                }
            }
        }
        assert(text_values(services@) =~= services_of_lines(ls.take(i + 1)));
        i += 1;
    }
    assert(ls.take(i as int) =~= ls);
    services
}

pub const BYTES_PER_KB: u64 = 1024;
pub const BYTES_PER_MB: u64 = 1048576;
pub const BYTES_PER_GB: u64 = 1073741824;

/// Tenths of a gibibyte in `bytes`, rounded to the nearest, a tie to the
/// even tenth (as formatting a float with one decimal rounds).
pub open spec fn gb_tenths(bytes: nat) -> nat {
    let q = bytes * 10 / (BYTES_PER_GB as nat);
    let r = bytes * 10 % (BYTES_PER_GB as nat);
    if 2 * r > BYTES_PER_GB || (2 * r == BYTES_PER_GB && q % 2 == 1) {
        q + 1
    } else {
        q
    }
}

/// A byte count in the largest unit it reaches: `"512 B"`, `"2 KB"`,
/// `"125 MB"`, `"3.0 GB"` (gibibytes with one decimal).
pub open spec fn memory_text(bytes: nat) -> Seq<char> {
    if bytes >= BYTES_PER_GB {
        decimal(gb_tenths(bytes) / 10) + "."@ + decimal(gb_tenths(bytes) % 10) + " GB"@
    } else if bytes >= BYTES_PER_MB {
        decimal(bytes / (BYTES_PER_MB as nat)) + " MB"@
    } else if bytes >= BYTES_PER_KB {
        decimal(bytes / (BYTES_PER_KB as nat)) + " KB"@
    } else {
        decimal(bytes) + " B"@
    }
}

/// Formats a byte count as a short human-readable string, e.g. `"125 MB"`.
pub fn format_memory(bytes: u64) -> (s: String)
    ensures
        s@ == memory_text(bytes as nat),
{
    let mut s = String::new();
    if bytes >= BYTES_PER_GB {
        let scaled = bytes as u128 * 10;
        let q = scaled / BYTES_PER_GB as u128;
        let r = scaled % BYTES_PER_GB as u128;
        let tenths = if 2 * r > BYTES_PER_GB as u128 || (2 * r == BYTES_PER_GB as u128 && q % 2 == 1) {
            (q + 1) as u64
        } else {
            q as u64
        };
        push_decimal(&mut s, tenths / 10);
        s.append(".");
        push_decimal(&mut s, tenths % 10);
        s.append(" GB");
    } else if bytes >= BYTES_PER_MB {
        push_decimal(&mut s, bytes / BYTES_PER_MB);
        s.append(" MB");
    } else if bytes >= BYTES_PER_KB {
        push_decimal(&mut s, bytes / BYTES_PER_KB);
        s.append(" KB");
    } else {
        push_decimal(&mut s, bytes);
        s.append(" B");
    }
    s
}

/// `used/total` as a percentage rounded half up, at most 100; 0 when
/// `total` is 0.
pub open spec fn percent_of(used: nat, total: nat) -> nat {
    if total == 0 {
        0
    } else {
        let p = (used * 200 + total) / (2 * total);
        if p > 100 {
            100
        } else {
            p
        }
    }
}

/// Rounds a `used/total` byte ratio to an integer percent clamped to
/// `0..=100`; `total == 0` yields 0.
pub fn memory_percent(used: u64, total: u64) -> (p: u64)
    ensures
        p == percent_of(used as nat, total as nat),
        p <= 100,
{
    if total == 0 {
        return 0;
    }
    let p = (used as u128 * 200 + total as u128) / (2 * total as u128);
    if p > 100 {
        100
    } else {
        p as u64
    }
}

pub const SECONDS_PER_MINUTE: u64 = 60;
pub const SECONDS_PER_HOUR: u64 = 3600;
pub const SECONDS_PER_DAY: u64 = 86400;

/// A duration in its two largest units: `"2d 3h"`, `"2h 30m"`, `"45m"`,
/// `"30s"`.
pub open spec fn age_text(seconds: nat) -> Seq<char> {
    if seconds >= SECONDS_PER_DAY {
        decimal(seconds / (SECONDS_PER_DAY as nat)) + "d "@ + decimal(
            (seconds % (SECONDS_PER_DAY as nat)) / (SECONDS_PER_HOUR as nat),
        ) + "h"@
    } else if seconds >= SECONDS_PER_HOUR {
        decimal(seconds / (SECONDS_PER_HOUR as nat)) + "h "@ + decimal(
            (seconds % (SECONDS_PER_HOUR as nat)) / (SECONDS_PER_MINUTE as nat),
        ) + "m"@
    } else if seconds >= SECONDS_PER_MINUTE {
        decimal(seconds / (SECONDS_PER_MINUTE as nat)) + "m"@
    } else {
        decimal(seconds) + "s"@
    }
}

/// Formats a process-uptime duration, e.g. `"2d 3h"`, `"45m"`, `"30s"`.
pub fn format_age(seconds: u64) -> (s: String)
    ensures
        s@ == age_text(seconds as nat),
{
    let mut s = String::new();
    if seconds >= SECONDS_PER_DAY {
        push_decimal(&mut s, seconds / SECONDS_PER_DAY);
        s.append("d ");
        push_decimal(&mut s, (seconds % SECONDS_PER_DAY) / SECONDS_PER_HOUR);
        s.append("h");
    } else if seconds >= SECONDS_PER_HOUR {
        push_decimal(&mut s, seconds / SECONDS_PER_HOUR);
        s.append("h ");
        push_decimal(&mut s, (seconds % SECONDS_PER_HOUR) / SECONDS_PER_MINUTE);
        s.append("m");
    } else if seconds >= SECONDS_PER_MINUTE {
        push_decimal(&mut s, seconds / SECONDS_PER_MINUTE);
        s.append("m");
    } else {
        push_decimal(&mut s, seconds);
        s.append("s");
    }
    s
}

/// One listening socket and the process that owns it.
pub struct PortEntry {
    pub port: u16,
    pub pid: u32,
    pub command: String,
    pub severity: Severity,
    pub description: String,
    pub known: bool,
    /// CPU usage in percent, as the bits of an IEEE 754 single-precision
    /// number (what `f32::to_bits` gives).
    pub cpu_percent_bits: u32,
    pub memory_bytes: u64,
    /// Raw bind address as reported by `lsof`/`ss` (e.g. `127.0.0.1`, `*`).
    pub bind_addr: String,
    pub exposure: Exposure,
    /// Full command line, joined with spaces; the command when the OS gave
    /// no arguments.
    pub cmdline: String,
    /// Working directory, when readable.
    pub cwd: Option<String>,
    /// Seconds the process has been running.
    pub age_seconds: u64,
    /// `(pid, name)` of the parent process, when known.
    pub parent: Option<(u32, String)>,
}

/// `e` is the entry built from scan data alone: classified and described,
/// with no process statistics yet.
pub open spec fn is_fresh_entry(
    e: PortEntry,
    port: u16,
    pid: u32,
    command: Seq<char>,
    bind_addr: Seq<char>,
    services: Map<u16, String>,
) -> bool {
    &&& e.port == port
    &&& e.pid == pid
    &&& e.command@ == command
    &&& e.severity == severity_of(port)
    &&& e.description@ == description_of(port, command, services)
    &&& e.known == known_port(port, services)
    &&& e.cpu_percent_bits == 0
    &&& e.memory_bytes == 0
    &&& e.bind_addr@ == bind_addr
    &&& e.exposure == exposure_of(bind_addr)
    &&& e.cmdline@ == Seq::<char>::empty()
    &&& e.cwd is None
    &&& e.age_seconds == 0
    &&& e.parent is None
}

/// What the operating system reports of the process behind an entry.
pub struct ProcessInfo {
    /// CPU usage in percent, as `f32::to_bits` gives it.
    pub cpu_percent_bits: u32,
    pub memory_bytes: u64,
    /// The argument vector, each argument as text.
    pub args: Vec<String>,
    pub cwd: Option<String>,
    pub run_time: u64,
    /// `(pid, name)` of the parent process, when it is known.
    pub parent: Option<(u32, String)>,
}

/// The texts joined with `sep` between them.
pub open spec fn join(parts: Seq<Seq<char>>, sep: Seq<char>) -> Seq<char>
    decreases parts.len(),
{
    if parts.len() == 0 {
        Seq::empty()
    } else if parts.len() == 1 {
        parts[0]
    } else {
        join(parts.drop_last(), sep) + sep + parts.last()
    }
}

pub open spec fn texts(v: Seq<String>) -> Seq<Seq<char>> {
    v.map_values(|s: String| s@)
}

/// The arguments joined with spaces.
pub fn join_args(args: &Vec<String>) -> (s: String)
    ensures
        s@ == join(texts(args@), " "@),
{
    let mut s = String::new();
    let mut i: usize = 0;
    while i < args.len()
        invariant
            i <= args@.len(),
            s@ == join(texts(args@.take(i as int)), " "@),
        decreases args@.len() - i,
    {
        let ghost prev = texts(args@.take(i as int));
        assert(texts(args@.take(i + 1)) =~= prev.push(args@[i as int]@));
        assert(texts(args@.take(i + 1)).drop_last() =~= prev);
        if i > 0 {
            s.append(" ");
        }
        s.append(args[i].as_str());
        i += 1;
    }
    assert(args@.take(i as int) =~= args@);
    s
}

impl PortEntry {
    /// Builds an entry from scan data alone; CPU, memory, command line,
    /// working directory, age and parent start empty.
    pub fn new(
        port: u16,
        pid: u32,
        command: String,
        bind_addr: String,
        services: &HashMap<u16, String>,
    ) -> (e: PortEntry)
        ensures
            is_fresh_entry(e, port, pid, command@, bind_addr@, services@),
    {
        let severity = classify_severity(port);
        let description = describe_port(port, command.as_str(), services);
        let known = is_known_port(port, services);
        let exposure = classify_exposure(bind_addr.as_str());
        PortEntry {
            port,
            pid,
            command,
            severity,
            description,
            known,
            cpu_percent_bits: 0,
            memory_bytes: 0,
            bind_addr,
            exposure,
            cmdline: String::new(),
            cwd: None,
            age_seconds: 0,
            parent: None,
        }
    }

    /// Fills in what the operating system reports of the owning process.
    /// The command line is the arguments joined with spaces, or the command
    /// when that is empty.
    pub fn enrich(&mut self, info: ProcessInfo)
        ensures
            final(self).port == old(self).port,
            final(self).pid == old(self).pid,
            final(self).command == old(self).command,
            final(self).severity == old(self).severity,
            final(self).description == old(self).description,
            final(self).known == old(self).known,
            final(self).bind_addr == old(self).bind_addr,
            final(self).exposure == old(self).exposure,
            final(self).cpu_percent_bits == info.cpu_percent_bits,
            final(self).memory_bytes == info.memory_bytes,
            final(self).cmdline@ == (if join(texts(info.args@), " "@).len() == 0 {
                old(self).command@
            } else {
                join(texts(info.args@), " "@)
            }),
            final(self).cwd == info.cwd,
            final(self).age_seconds == info.run_time,
            final(self).parent == info.parent,
    {
        self.cpu_percent_bits = info.cpu_percent_bits;
        self.memory_bytes = info.memory_bytes;
        let joined = join_args(&info.args);
        self.cmdline = if joined.as_str().is_empty() {
            self.command.clone()
        } else {
            joined
        };
        self.cwd = info.cwd;
        self.age_seconds = info.run_time;
        self.parent = info.parent;
    }
}

} // verus!
